use engine::entity::container::{EntityContainer, EntityState};
use engine::id_manager::IdGenerator;

#[test]
fn create_entity_container() {
    let entity_container: EntityContainer<(f32, f32), u32> = EntityContainer::new();
    let entities = entity_container.all();
    entities.len();
}

#[test]
fn entities_keep_visible_before_active_before_inactive() {
    let mut c: EntityContainer<(i32, i32), u32> = EntityContainer::new();
    let a = c.create_entity((0, 0), 10);
    let b = c.create_entity((1, 1), 11);
    let d = c.create_entity((2, 2), 12);
    assert_eq!(c.len(), 3);
    assert_eq!(c.all().len(), 3);
    assert_eq!(c.get_entity_state_by_id(&a), EntityState::Inactive);
    assert_eq!(c.inactive().len(), 3);

    c.set_entity_active(&a, true);
    c.set_entity_active(&b, true);
    assert_eq!(c.get_entity_state_by_id(&a), EntityState::Hidden);
    assert_eq!(c.active().len(), 2);

    c.set_entity_visible(&b, true);
    assert_eq!(c.get_entity_state_by_id(&b), EntityState::Visible);
    assert_eq!(c.visible().len(), 1);
    assert_eq!(c.sprites_in(&c.visible()), &[11]);
    assert_eq!(c.hidden().len(), 1);
    assert_eq!(c.sprites_in(&c.hidden()), &[10]);
    assert_eq!(c.sprites_in(&c.inactive()), &[12]);

    c.set_entity_active(&a, false);
    assert_eq!(c.get_entity_state_by_id(&a), EntityState::Inactive);
    assert_eq!(c.inactive().len(), 2);
    assert_eq!(c.get_entity_state_by_id(&d), EntityState::Inactive);

    c.destroy_entity(&b);
    assert_eq!(c.len(), 2);
    assert_eq!(c.visible().len(), 0);
    let e = c.create_entity((3, 3), 13);
    assert_eq!(c.len(), 3);
    assert_eq!(c.get_entity_state_by_id(&e), EntityState::Inactive);
    assert_eq!(c.transforms_in(&c.all()).len(), 3);
}

#[test]
fn entity_methods_act_on_their_container() {
    let mut c: EntityContainer<(i32, i32), u32> = EntityContainer::new();
    let a = c.create_entity((0, 0), 10);
    let b = c.create_entity((1, 1), 11);
    assert!(!a.is_active(&c));
    a.set_active(&mut c, true);
    assert!(a.is_active(&c));
    assert_eq!(c.get_entity_state_by_id(&a), EntityState::Hidden);
    a.set_visible(&mut c, true);
    assert_eq!(c.get_entity_state_by_id(&a), EntityState::Visible);
    assert_eq!(c.get_entity_state_by_index(0), EntityState::Visible);
    a.set_visible(&mut c, false);
    a.set_active(&mut c, false);
    assert!(!a.is_active(&c));
    c.set_transform(0, (5, 5));
    c.set_sprite(1, 21);
    assert_eq!(c.transforms_in(&c.all())[0], (5, 5));
    assert_eq!(c.sprites_in(&c.all())[1], 21);
    b.destroy(&mut c);
    assert_eq!(c.len(), 1);
    assert_eq!(c.get_entity_state_by_id(&a), EntityState::Inactive);
}

#[test]
fn freed_ids_come_back_with_a_new_generation() {
    let mut g = IdGenerator::new();
    let a = g.next();
    let b = g.next();
    assert_eq!((a.index(), b.index()), (0, 1));
    assert_eq!(g.len(), 2);
    g.free(a);
    assert!(!g.is_live(a));
    assert_eq!(g.len(), 1);
    let c = g.next();
    assert_eq!(c.index(), 0);
    assert_ne!(c, a);
    assert!(g.is_live(c));
    assert!(g.is_live(a));
    assert_eq!(g.len(), 2);
    let d = g.next();
    assert_eq!(d.index(), 2);
}

#[test]
fn moves_swap_entities_into_place() {
    let mut c: EntityContainer<u32, u32> = EntityContainer::new();
    let a = c.create_entity(0, 10);
    let _b = c.create_entity(1, 11);
    let d = c.create_entity(2, 12);
    c.set_entity_active(&d, true);
    assert_eq!(c.sprites_in(&c.all()), &[12, 11, 10]);
    assert_eq!(c.transforms_in(&c.all()), &[2, 1, 0]);
    c.set_entity_visible(&d, true);
    c.set_entity_active(&a, true);
    assert_eq!(c.sprites_in(&c.all()), &[12, 10, 11]);
    c.destroy_entity(&d);
    assert_eq!(c.sprites_in(&c.all()), &[10, 11]);
    assert_eq!(c.get_entity_state_by_id(&a), EntityState::Hidden);
}
