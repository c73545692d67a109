//! Named logical buttons.

use vstd::prelude::*;

use crate::input::button::Button;
use crate::input::system::InputSystem;

verus! {

/// Buttons by name; each name occurs once.
pub struct RegularInputMapping {
    button_mapping: Vec<(String, Button)>,
}

impl RegularInputMapping {
    /// The names, in the order they were added.
    pub closed spec fn names(&self) -> Seq<Seq<char>> {
        self.button_mapping@.map_values(|e: (String, Button)| e.0@)
    }

    /// The buttons, in the order of their names.
    pub closed spec fn buttons(&self) -> Seq<Button> {
        self.button_mapping@.map_values(|e: (String, Button)| e.1)
    }

    /// The mapping's invariant: no name twice, and every button well formed.
    pub open spec fn wf(&self) -> bool {
        &&& self.names().len() == self.buttons().len()
        &&& forall|i: int, j: int| 0 <= i < j < self.names().len() ==> #[trigger] self.names()[i] != #[trigger] self.names()[j]
        &&& forall|i: int| 0 <= i < self.buttons().len() ==> (#[trigger] self.buttons()[i]).wf()
    }

    /// No button.
    pub fn new() -> (r: Self)
        ensures
            r.wf(),
            r.names() == Seq::<Seq<char>>::empty(),
            r.buttons() == Seq::<Button>::empty(),
    {
        let r = RegularInputMapping { button_mapping: Vec::new() };
        proof {
            assert(r.names() =~= Seq::<Seq<char>>::empty());
            assert(r.buttons() =~= Seq::<Button>::empty());
        }
        r
    }

    /// Where `name` stands.
    fn position(&self, name: &String) -> (r: Option<usize>)
        requires
            self.wf(),
        ensures
            match r {
                Some(i) => i < self.names().len() && self.names()[i as int] == name@,
                None => !self.names().contains(name@),
            },
    {
        let mut i: usize = 0;
        while i < self.button_mapping.len()
            invariant
                self.wf(),
                i <= self.button_mapping@.len(),
                forall|k: int| 0 <= k < i ==> #[trigger] self.names()[k] != name@,
            decreases self.button_mapping@.len() - i,
        {
            if self.button_mapping[i].0 == *name {
                return Some(i);
            }
            i = i + 1;
        }
        None
    }

    /// Adds a button under a new name. `requires` rules out a name already there.
    pub fn add_button_mapping(&mut self, name: String, button: Button)
        requires
            old(self).wf(),
            button.wf(),
            !old(self).names().contains(name@),
        ensures
            final(self).wf(),
            final(self).names() == old(self).names().push(name@),
            final(self).buttons() == old(self).buttons().push(button),
    {
        let ghost n = name@;
        self.button_mapping.push((name, button));
        proof {
            assert(self.names() =~= old(self).names().push(n));
            assert(self.buttons() =~= old(self).buttons().push(button));
        }
    }

    /// Whether a button is mapped under `name`.
    pub fn contains(&self, name: &String) -> (r: bool)
        requires
            self.wf(),
        ensures
            r == self.names().contains(name@),
    {
        self.position(name).is_some()
    }

    /// The button under `name`. `requires` rules out an unmapped name.
    pub fn button(&self, name: &String) -> (r: &Button)
        requires
            self.wf(),
            self.names().contains(name@),
        ensures
            exists|i: int| 0 <= i < self.names().len() && self.names()[i] == name@ && self.buttons()[i] == *r,
    {
        match self.position(name) {
            Some(i) => {
                let r = &self.button_mapping[i].1;
                proof {
                    assert(self.buttons()[i as int] == *r);
                }
                r
            },
            None => {
                proof {
                    assert(false);
                }
                &self.button_mapping[0].1
            },
        }
    }

    /// Updates every button from the input devices at `timestamp`; `axis_down[i]` gives the
    /// threshold test of each controller axis of the `i`th button.
    pub fn update(&mut self, input: &InputSystem, timestamp: u64, axis_down: &Vec<Vec<bool>>)
        requires
            old(self).wf(),
            input.wf(),
            axis_down@.len() == old(self).buttons().len(),
            forall|i: int| 0 <= i < axis_down@.len() ==> (#[trigger] axis_down@[i])@.len()
                == old(self).buttons()[i].axis_inputs().len(),
        ensures
            final(self).wf(),
            final(self).names() == old(self).names(),
            final(self).buttons().len() == old(self).buttons().len(),
            forall|i: int| 0 <= i < old(self).buttons().len() ==> (#[trigger] old(self).buttons()[i]).updated(
                final(self).buttons()[i],
                *input,
                axis_down@[i]@,
                timestamp,
            ),
    {
        let mut done: Vec<(String, Button)> = Vec::new();
        let mut rest: Vec<(String, Button)> = Vec::new();
        std::mem::swap(&mut rest, &mut self.button_mapping);
        let ghost all = rest@;
        proof {
            assert forall|k: int| 0 <= k < all.len() implies (#[trigger] all[k]).1.wf()
                && axis_down@[k]@.len() == all[k].1.axis_inputs().len() by {
                assert(old(self).buttons()[k] == all[k].1);
            }
        }
        let n = rest.len();
        let mut i: usize = 0;
        while i < n
            invariant
                n == all.len(),
                i <= n,
                rest@ == all.subrange(i as int, n as int),
                done@.len() == i,
                forall|k: int| 0 <= k < i ==> (#[trigger] done@[k]).0 == all[k].0,
                forall|k: int| 0 <= k < i ==> all[k].1.updated((#[trigger] done@[k]).1, *input, axis_down@[k]@, timestamp),
                forall|k: int| 0 <= k < i ==> (#[trigger] done@[k]).1.wf(),
                forall|k: int| 0 <= k < n ==> (#[trigger] all[k]).1.wf(),
                input.wf(),
                axis_down@.len() == n,
                forall|k: int| 0 <= k < n ==> (#[trigger] axis_down@[k])@.len() == all[k].1.axis_inputs().len(),
            decreases n - i,
        {
            let (name, mut button) = rest.remove(0);
            proof {
                assert(button == all[i as int].1);
            }
            button.update(input, timestamp, axis_down[i].as_slice());
            done.push((name, button));
            i = i + 1;
        }
        self.button_mapping = done;
        proof {
            assert forall|k: int| 0 <= k < n implies #[trigger] self.names()[k] == old(self).names()[k] by {
                assert(all[k] == old(self).button_mapping@[k]);
            }
            assert(self.names() =~= old(self).names());
            assert forall|k: int| 0 <= k < n implies (#[trigger] old(self).buttons()[k]).updated(
                self.buttons()[k], *input, axis_down@[k]@, timestamp) by {
                assert(all[k] == old(self).button_mapping@[k]);
            }
        }
    }
}

} // verus!
