//! Sprite animations: frames with durations, animations as sequences of frames played a number
//! of times, and animators that step through them.

use vstd::prelude::*;
use crate::task_system::{Task, TaskSystem, execution_time};

verus! {

/// A handle to a set of animations.
#[derive(Copy, Clone, Debug, PartialEq, Eq, Structural)]
pub struct AnimationSet(pub u64);

/// A handle to an animation.
#[derive(Copy, Clone, Debug, PartialEq, Eq, Structural)]
pub struct Animation(pub u64);

/// A handle to a frame.
#[derive(Copy, Clone, Debug, PartialEq, Eq, Structural)]
pub struct Frame(pub u64);

/// How many times an animation plays after its first time through.
#[derive(Copy, Clone, Debug, PartialEq, Eq, Structural)]
pub enum Repetitions {
    Infinite,
    Finite(u32),
}

/// The animations of a set.
pub struct AnimationSetData {
    pub id: AnimationSet,
    pub animations: Vec<Animation>,
}

/// The frames of an animation and how many times it repeats.
pub struct AnimationData {
    pub id: Animation,
    pub repetitions: Repetitions,
    pub frames: Vec<Frame>,
}

/// A frame: a sprite shown for a duration.
pub struct FrameData<Sp> {
    pub id: Frame,
    pub sprite: Sp,
    pub duration: u64,
}

/// All animation sets, animations and frames, each found by its handle.
pub struct AnimationSystem<Sp> {
    pub animation_sets: Vec<AnimationSetData>,
    pub animations: Vec<AnimationData>,
    pub frames: Vec<FrameData<Sp>>,
}

/// Plays the animations of a set: which animation, which frame, which repetition, and the
/// task that shows the next frame while playing.
#[derive(Copy, Clone, Debug)]
pub struct Animator {
    animation_set: AnimationSet,
    current_animation: usize,
    current_frame: usize,
    current_repetition: Repetitions,
    task: Option<Task>,
}

impl<Sp> AnimationSystem<Sp> {
    /// Whether each item sits at the place its handle names.
    pub open spec fn wf(&self) -> bool {
        &&& forall|i: int| 0 <= i < self.animation_sets@.len() ==> (#[trigger] self.animation_sets@[i]).id.0 == i
        &&& forall|i: int| 0 <= i < self.animations@.len() ==> (#[trigger] self.animations@[i]).id.0 == i
        &&& forall|i: int| 0 <= i < self.frames@.len() ==> (#[trigger] self.frames@[i]).id.0 == i
    }

    /// An empty system.
    pub fn new() -> (r: Self)
        ensures
            r.wf(),
            r.animation_sets@.len() == 0,
            r.animations@.len() == 0,
            r.frames@.len() == 0,
    {
        AnimationSystem { animation_sets: Vec::new(), animations: Vec::new(), frames: Vec::new() }
    }

    /// Adds a frame; its handle, a `u64`, is its place.
    pub fn build_frame(&mut self, sprite: Sp, duration: u64) -> (r: Frame)
        requires
            old(self).wf(),
        ensures
            final(self).wf(),
            r.0 == old(self).frames@.len(),
            final(self).frames@.len() == old(self).frames@.len() + 1,
            final(self).frames@.last().sprite == sprite,
            final(self).frames@.last().duration == duration,
            forall|i: int| 0 <= i < old(self).frames@.len() ==> #[trigger] final(self).frames@[i] == old(self).frames@[i],
            final(self).animations@ == old(self).animations@,
            final(self).animation_sets@ == old(self).animation_sets@,
    {
        let frame = Frame(self.frames.len() as u64);
        self.frames.push(FrameData { id: frame, sprite, duration });
        frame
    }

    /// Adds an animation over frames; its handle is its place.
    pub fn build_animation(&mut self, frames: Vec<Frame>, repetitions: Repetitions) -> (r: Animation)
        requires
            old(self).wf(),
        ensures
            final(self).wf(),
            r.0 == old(self).animations@.len(),
            final(self).animations@.len() == old(self).animations@.len() + 1,
            final(self).animations@.last().frames@ == frames@,
            final(self).animations@.last().repetitions == repetitions,
            forall|i: int| 0 <= i < old(self).animations@.len() ==> #[trigger] final(self).animations@[i] == old(self).animations@[i],
            final(self).frames@ == old(self).frames@,
            final(self).animation_sets@ == old(self).animation_sets@,
    {
        let animation = Animation(self.animations.len() as u64);
        self.animations.push(AnimationData { id: animation, frames, repetitions });
        animation
    }

    /// Adds a set of animations; its handle is its place.
    pub fn build_animation_set(&mut self, animations: Vec<Animation>) -> (r: AnimationSet)
        requires
            old(self).wf(),
        ensures
            final(self).wf(),
            r.0 == old(self).animation_sets@.len(),
            final(self).animation_sets@.len() == old(self).animation_sets@.len() + 1,
            final(self).animation_sets@.last().animations@ == animations@,
            forall|i: int| 0 <= i < old(self).animation_sets@.len() ==> #[trigger] final(self).animation_sets@[i] == old(self).animation_sets@[i],
            final(self).frames@ == old(self).frames@,
            final(self).animations@ == old(self).animations@,
    {
        let set = AnimationSet(self.animation_sets.len() as u64);
        self.animation_sets.push(AnimationSetData { id: set, animations });
        set
    }

    /// The animation an animator plays.
    pub open spec fn animation_of(&self, a: Animator) -> AnimationData {
        self.animations@[self.animation_sets@[a.set().0 as int].animations@[a.animation() as int].0 as int]
    }

    /// The frame an animator shows.
    pub open spec fn frame_of(&self, a: Animator) -> FrameData<Sp> {
        self.frames@[self.animation_of(a).frames@[a.frame() as int].0 as int]
    }

    /// Whether an animator's set, animation and frame exist here.
    pub open spec fn holds(&self, a: Animator) -> bool {
        &&& self.wf()
        &&& a.set().0 < self.animation_sets@.len()
        &&& a.animation() < self.animation_sets@[a.set().0 as int].animations@.len()
        &&& self.animation_sets@[a.set().0 as int].animations@[a.animation() as int].0 < self.animations@.len()
        &&& a.frame() < self.animation_of(a).frames@.len()
        &&& self.animation_of(a).frames@[a.frame() as int].0 < self.frames@.len()
    }

    /// Whether `animator`'s set, animation and frame exist here.
    pub fn holds_animator(&self, animator: &Animator) -> (r: bool)
        requires
            self.wf(),
        ensures
            r == self.holds(*animator),
    {
        let set = animator.animation_set.0;
        if set >= self.animation_sets.len() as u64 {
            return false;
        }
        let set_data = &self.animation_sets[set as usize];
        if animator.current_animation >= set_data.animations.len() {
            return false;
        }
        let animation = set_data.animations[animator.current_animation];
        if animation.0 >= self.animations.len() as u64 {
            return false;
        }
        let animation_data = &self.animations[animation.0 as usize];
        if animator.current_frame >= animation_data.frames.len() {
            return false;
        }
        animation_data.frames[animator.current_frame].0 < self.frames.len() as u64
    }

    /// The animation and the frame that an animator is at. `requires` rules out handles
    /// that name nothing.
    pub fn get_animation_and_frame(&self, animator: &Animator) -> (r: (&AnimationData, &FrameData<Sp>))
        requires
            self.holds(*animator),
        ensures
            *r.0 == self.animation_of(*animator),
            *r.1 == self.frame_of(*animator),
    {
        let sets = self.animation_sets.len();
        proof {
            assert(animator.animation_set.0 < sets);
        }
        let set_data = &self.animation_sets[animator.animation_set.0 as usize];
        let animation = set_data.animations[animator.current_animation];
        let animations = self.animations.len();
        proof {
            assert(animation.0 < animations);
        }
        let animation_data = &self.animations[animation.0 as usize];
        let frames = self.frames.len();
        proof {
            assert(animator.current_frame < animation_data.frames@.len());
            assert(animation_data.frames@[animator.current_frame as int].0 < frames);
        }
        let frame = animation_data.frames[animator.current_frame];
        let frame_data = &self.frames[frame.0 as usize];
        (animation_data, frame_data)
    }
}

impl Animator {
    pub closed spec fn set(&self) -> AnimationSet {
        self.animation_set
    }

    pub closed spec fn animation(&self) -> usize {
        self.current_animation
    }

    pub closed spec fn frame(&self) -> usize {
        self.current_frame
    }

    pub closed spec fn repetition(&self) -> Repetitions {
        self.current_repetition
    }

    /// The task that shows the next frame, while playing.
    pub closed spec fn task(&self) -> Option<Task> {
        self.task
    }

    /// An animator at the first frame of the first animation of `animation_set`, not playing.
    pub fn new(animation_set: AnimationSet) -> (r: Self)
        ensures
            r.set() == animation_set,
            r.animation() == 0,
            r.frame() == 0,
            r.repetition() == Repetitions::Finite(0),
            r.task() is None,
    {
        Animator {
            animation_set,
            current_animation: 0,
            current_frame: 0,
            current_repetition: Repetitions::Finite(0),
            task: None,
        }
    }

    /// Whether the animator is playing.
    pub fn is_playing(&self) -> (r: bool)
        ensures
            r == self.task().is_some(),
    {
        self.task.is_some()
    }

    /// Moves to the next frame. At the last frame it starts the animation over, counting a
    /// repetition where the animation has a finite number of them; after the last repetition
    /// it stays where it is and gives `None`. `requires` asks that it be playing.
    pub fn next_frame<Sp>(&mut self, system: &AnimationSystem<Sp>) -> (r: Option<()>)
        requires
            old(self).task() is Some,
            system.holds(*old(self)),
            ({
                match (old(self).repetition(), system.animation_of(*old(self)).repetitions) {
                    (Repetitions::Finite(k), Repetitions::Finite(t)) => k != t ==> k < u32::MAX,
                    _ => true,
                }
            }),
        ensures
            final(self).set() == old(self).set(),
            final(self).animation() == old(self).animation(),
            final(self).task() == old(self).task(),
            final(self).frame() < system.animation_of(*old(self)).frames@.len(),
            ({
                let n = system.animation_of(*old(self)).frames@.len();
                let total = system.animation_of(*old(self)).repetitions;
                if old(self).frame() + 1 < n {
                    r is Some && final(self).frame() == old(self).frame() + 1 && final(self).repetition() == old(self).repetition()
                } else {
                    match (total, old(self).repetition()) {
                        (Repetitions::Finite(t), Repetitions::Finite(k)) => if k == t {
                            r is None && *final(self) == *old(self)
                        } else {
                            r is Some && final(self).frame() == 0 && final(self).repetition() == Repetitions::Finite((k + 1) as u32)
                        },
                        _ => r is Some && final(self).frame() == 0 && final(self).repetition() == old(self).repetition(),
                    }
                }
            }),
    {
        let (animation_data, _) = system.get_animation_and_frame(self);
        let n = animation_data.frames.len();
        if self.current_frame + 1 < n {
            self.current_frame = self.current_frame + 1;
        } else {
            if let Repetitions::Finite(total_repetitions) = animation_data.repetitions {
                if let Repetitions::Finite(repetition) = self.current_repetition {
                    if repetition == total_repetitions {
                        return None;
                    }
                    self.current_repetition = Repetitions::Finite(repetition + 1);
                }
            }
            self.current_frame = 0;
        }
        Some(())
    }

    /// The sprite of the frame the animator shows.
    pub fn get_current_sprite<Sp: Copy>(&self, system: &AnimationSystem<Sp>) -> (r: Sp)
        requires
            system.holds(*self),
        ensures
            r == system.frame_of(*self).sprite,
    {
        let (_, frame_data) = system.get_animation_and_frame(self);
        frame_data.sprite
    }

    /// Starts playing: schedules the task that shows the next frame after the current frame's
    /// duration, from `game_time`. `requires` asks that it not be playing yet.
    pub fn play<Sp>(&mut self, system: &AnimationSystem<Sp>, tasks: &mut TaskSystem, game_time: u64) -> (r: Task)
        requires
            old(self).task() is None,
            system.holds(*old(self)),
            old(tasks).wf(),
            old(tasks).next_id() < u64::MAX,
            execution_time(game_time, system.frame_of(*old(self)).duration) <= u64::MAX,
        ensures
            final(tasks).wf(),
            r.id() == Some(old(tasks).next_id()),
            final(tasks).next_id() == old(tasks).next_id() + 1,
            final(tasks).pending() == old(tasks).pending().insert(
                (execution_time(game_time, system.frame_of(*old(self)).duration) as u64, old(tasks).next_id()),
            ),
            final(tasks).cancelled() == old(tasks).cancelled(),
            final(self).task() == Some(r),
            final(self).set() == old(self).set(),
            final(self).animation() == old(self).animation(),
            final(self).frame() == old(self).frame(),
            final(self).repetition() == old(self).repetition(),
    {
        let (_, frame_data) = system.get_animation_and_frame(self);
        let duration = frame_data.duration;
        let task = tasks.schedule_task(game_time, duration);
        self.task = Some(task);
        task
    }

    /// Stops playing: cancels the task. `requires` asks that it be playing.
    pub fn stop(&mut self, tasks: &mut TaskSystem)
        requires
            old(self).task() matches Some(t) && t.id() is Some,
            old(tasks).wf(),
        ensures
            final(self).task() is None,
            final(tasks).wf(),
            final(tasks).next_id() == old(tasks).next_id(),
            final(tasks).pending() == old(tasks).pending(),
            final(tasks).cancelled() == old(tasks).cancelled().insert(old(self).task()->Some_0.id()->Some_0),
            final(self).set() == old(self).set(),
            final(self).animation() == old(self).animation(),
            final(self).frame() == old(self).frame(),
            final(self).repetition() == old(self).repetition(),
    {
        let mut task = self.task.take().unwrap();
        task.cancel(tasks);
    }

    /// Changes the set of animations and starts it over; a playing animator stops.
    /// `requires` rules out a task handle already emptied.
    pub fn change_animation_set(&mut self, animation_set: AnimationSet, tasks: &mut TaskSystem)
        requires
            old(self).task() matches Some(t) ==> t.id() is Some,
            old(tasks).wf(),
        ensures
            final(self).set() == animation_set,
            final(self).animation() == 0,
            final(self).frame() == 0,
            final(self).repetition() == Repetitions::Finite(0),
            final(self).task() is None,
            final(tasks).wf(),
            final(tasks).next_id() == old(tasks).next_id(),
            final(tasks).pending() == old(tasks).pending(),
            final(tasks).cancelled() == match old(self).task() {
                Some(t) => old(tasks).cancelled().insert(t.id()->Some_0),
                None => old(tasks).cancelled(),
            },
    {
        self.animation_set = animation_set;
        self.current_animation = 0;
        self.current_frame = 0;
        self.current_repetition = Repetitions::Finite(0);
        if let Some(mut task) = self.task.take() {
            task.cancel(tasks);
        }
    }
}

} // verus!
