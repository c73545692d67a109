use engine::animations::{Animation, AnimationSet, AnimationSystem, Animator, Frame, Repetitions};
use engine::task_system::{Task, TaskSystem};

#[test]
fn tasks_run_by_time_then_id() {
    let mut tasks = TaskSystem::new();
    let a = tasks.schedule_task(100, 50); // at 150, id 1
    let b = tasks.schedule_task(100, 0); // at 101, id 2
    let c = tasks.schedule_task(100, 1); // at 101, id 3
    assert_eq!(a.task_id(), Some(1));
    assert_eq!(b.task_id(), Some(2));
    assert_eq!(c.task_id(), Some(3));

    assert_eq!(tasks.next_due_task(100), None);
    assert_eq!(tasks.next_due_task(149), Some(2));
    assert_eq!(tasks.next_due_task(149), Some(3));
    assert_eq!(tasks.next_due_task(149), None);
    assert_eq!(tasks.next_due_task(150), Some(1));
    assert_eq!(tasks.next_due_task(1000), None);
}

#[test]
fn cancelled_tasks_do_not_run() {
    let mut tasks = TaskSystem::new();
    let mut a = tasks.schedule_task(0, 10);
    let b = tasks.schedule_task(0, 20);
    a.cancel(&mut tasks);
    assert_eq!(a.task_id(), None);
    assert_eq!(tasks.next_due_task(30), Some(b.task_id().unwrap()));
    assert_eq!(tasks.next_due_task(30), None);
    assert_eq!(Task::empty().task_id(), None);
}

#[test]
fn animator_steps_through_frames_and_repetitions() {
    let mut system: AnimationSystem<char> = AnimationSystem::new();
    let f0 = system.build_frame('a', 10);
    let f1 = system.build_frame('b', 20);
    let anim = system.build_animation(vec![f0, f1], Repetitions::Finite(1));
    let set = system.build_animation_set(vec![anim]);

    let mut tasks = TaskSystem::new();
    let mut animator = Animator::new(set);
    assert!(!animator.is_playing());
    assert_eq!(animator.get_current_sprite(&system), 'a');

    let task = animator.play(&system, &mut tasks, 5);
    assert!(animator.is_playing());
    assert_eq!(task.task_id(), Some(1));
    // The first frame lasts 10: the task is due at 15.
    assert_eq!(tasks.next_due_task(14), None);
    assert_eq!(tasks.next_due_task(15), Some(1));

    assert_eq!(animator.next_frame(&system), Some(()));
    assert_eq!(animator.get_current_sprite(&system), 'b');
    // Second time through.
    assert_eq!(animator.next_frame(&system), Some(()));
    assert_eq!(animator.get_current_sprite(&system), 'a');
    assert_eq!(animator.next_frame(&system), Some(()));
    // After the last repetition the animator stays.
    assert_eq!(animator.next_frame(&system), None);
    assert_eq!(animator.get_current_sprite(&system), 'b');

    animator.stop(&mut tasks);
    assert!(!animator.is_playing());
}

#[test]
fn infinite_animation_loops() {
    let mut system: AnimationSystem<u8> = AnimationSystem::new();
    let f = system.build_frame(7, 1);
    let anim = system.build_animation(vec![f], Repetitions::Infinite);
    let set = system.build_animation_set(vec![anim]);
    let mut tasks = TaskSystem::new();
    let mut animator = Animator::new(set);
    animator.play(&system, &mut tasks, 0);
    for _ in 0..5 {
        assert_eq!(animator.next_frame(&system), Some(()));
    }
    animator.change_animation_set(set, &mut tasks);
    assert!(!animator.is_playing());
    // The cancelled task is dropped without running.
    assert_eq!(tasks.next_due_task(10), None);
}

#[test]
fn animator_handles_are_checked() {
    let mut system: AnimationSystem<char> = AnimationSystem::new();
    let f0 = system.build_frame('a', 10);
    let anim = system.build_animation(vec![f0], Repetitions::Infinite);
    let set = system.build_animation_set(vec![anim]);
    assert!(system.holds_animator(&Animator::new(set)));
    assert!(!system.holds_animator(&Animator::new(AnimationSet(1))));
    let empty = system.build_animation_set(vec![]);
    assert!(!system.holds_animator(&Animator::new(empty)));
    let dangling_frame = system.build_animation(vec![Frame(7)], Repetitions::Finite(0));
    let set = system.build_animation_set(vec![dangling_frame]);
    assert!(!system.holds_animator(&Animator::new(set)));
    let set = system.build_animation_set(vec![Animation(9)]);
    assert!(!system.holds_animator(&Animator::new(set)));
}
