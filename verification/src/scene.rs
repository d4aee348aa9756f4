//! The shared mutable scene that tasks act on, and the two shared-state
//! primitives built over it: the shared cell and the mutual-exclusion lock.
//!
//! The sequencer itself never interprets the scene; tasks read and write it
//! through the small vocabulary of [`Action`]s and accessors below. Entities,
//! locks, cells, asset handles and fade surfaces are all addressed by plain
//! indices, so every mutation is a total function on the model [`SceneM`]:
//! an index out of bounds is a no-op, never a panic.

use vstd::prelude::*;

verus! {

/// One deferred or immediate mutation of the scene.
#[derive(Clone, Copy, Debug, PartialEq, Eq, Structural)]
pub enum Action {
    /// Append a message id to the scene's log.
    Log(u64),
    /// Request a state transition: set the pending next state.
    SetState(u64),
    /// Append an event id to the scene's event queue.
    SendEvent(u64),
    /// Mark an entity as despawned, if it exists.
    Despawn(usize),
    /// Release a mutual-exclusion lock, if it exists.
    Unlock(usize),
    /// Overwrite a shared cell's value, if the cell exists.
    SetCell { cell: usize, value: u64 },
    /// Spawn a fresh, live entity.
    Spawn,
}

/// Mathematical model of a [`Scene`].
#[verifier::ext_equal]
pub struct SceneM {
    /// Liveness of each entity, by index.
    pub entities: Seq<bool>,
    /// Level of each fade surface, in thousandths (0 = clear, 1000 = opaque).
    pub fades: Seq<u64>,
    /// Held/free state of each mutual-exclusion lock.
    pub locks: Seq<bool>,
    /// Value of each shared cell.
    pub cells: Seq<u64>,
    /// Whether each asset handle has finished loading.
    pub assets: Seq<bool>,
    /// The pending state transition, if one was requested.
    pub next_state: Option<u64>,
    /// Event ids sent so far, in order.
    pub events: Seq<u64>,
    /// Message ids logged so far, in order.
    pub log: Seq<u64>,
}

/// Whether entity `e` exists and is alive in `s`.
pub open spec fn alive_m(s: SceneM, e: usize) -> bool {
    e < s.entities.len() && s.entities[e as int]
}

/// Whether lock `l` exists and is currently held in `s`.
pub open spec fn locked_m(s: SceneM, l: usize) -> bool {
    l < s.locks.len() && s.locks[l as int]
}

/// Whether lock `l` exists and is currently free in `s`, i.e. an attempt to
/// acquire it would succeed.
pub open spec fn can_lock_m(s: SceneM, l: usize) -> bool {
    l < s.locks.len() && !s.locks[l as int]
}

/// Whether asset handle `h` exists and has finished loading in `s`.
pub open spec fn loaded_m(s: SceneM, h: usize) -> bool {
    h < s.assets.len() && s.assets[h as int]
}

/// The value of shared cell `c` in `s`; a missing cell reads as zero.
pub open spec fn cell_m(s: SceneM, c: usize) -> u64 {
    if c < s.cells.len() {
        s.cells[c as int]
    } else {
        0
    }
}

/// The level of fade surface `f` in `s`; a missing surface reads as zero.
pub open spec fn fade_m(s: SceneM, f: usize) -> u64 {
    if f < s.fades.len() {
        s.fades[f as int]
    } else {
        0
    }
}

/// Despawning an entity: marks it dead if it exists, otherwise a no-op.
pub open spec fn despawn_m(s: SceneM, e: usize) -> SceneM {
    if e < s.entities.len() {
        SceneM { entities: s.entities.update(e as int, false), ..s }
    } else {
        s
    }
}

/// Setting the level of a fade surface, a no-op on a missing surface.
pub open spec fn set_fade_m(s: SceneM, f: usize, level: u64) -> SceneM {
    if f < s.fades.len() {
        SceneM { fades: s.fades.update(f as int, level), ..s }
    } else {
        s
    }
}

/// A successful lock acquisition flips the lock to held; a failed one (lock
/// missing or already held) leaves the scene unchanged.
pub open spec fn lock_acquire_m(s: SceneM, l: usize) -> SceneM {
    if can_lock_m(s, l) {
        SceneM { locks: s.locks.update(l as int, true), ..s }
    } else {
        s
    }
}

/// The effect of one [`Action`] on the scene model.
pub open spec fn apply_action_m(s: SceneM, a: Action) -> SceneM {
    match a {
        Action::Log(m) => SceneM { log: s.log.push(m), ..s },
        Action::SetState(st) => SceneM { next_state: Some(st), ..s },
        Action::SendEvent(e) => SceneM { events: s.events.push(e), ..s },
        Action::Despawn(e) => despawn_m(s, e),
        Action::Unlock(l) => {
            if l < s.locks.len() {
                SceneM { locks: s.locks.update(l as int, false), ..s }
            } else {
                s
            }
        },
        Action::SetCell { cell, value } => {
            if cell < s.cells.len() {
                SceneM { cells: s.cells.update(cell as int, value), ..s }
            } else {
                s
            }
        },
        Action::Spawn => SceneM { entities: s.entities.push(true), ..s },
    }
}

/// The effect of a list of actions, applied first-to-last.
pub open spec fn apply_all_m(s: SceneM, actions: Seq<Action>) -> SceneM
    decreases actions.len(),
{
    if actions.len() == 0 {
        s
    } else {
        apply_action_m(apply_all_m(s, actions.drop_last()), actions.last())
    }
}

/// The shared mutable scene. The sequencer treats it as opaque state; only
/// tasks interpret its contents, and only through the accessors below.
pub struct Scene {
    /// Liveness of each entity, by index.
    pub entities: Vec<bool>,
    /// Level of each fade surface, in thousandths.
    pub fades: Vec<u64>,
    /// Held/free state of each mutual-exclusion lock.
    pub locks: Vec<bool>,
    /// Value of each shared cell.
    pub cells: Vec<u64>,
    /// Whether each asset handle has finished loading.
    pub assets: Vec<bool>,
    /// The pending state transition, if one was requested.
    pub next_state: Option<u64>,
    /// Event ids sent so far, in order.
    pub events: Vec<u64>,
    /// Message ids logged so far, in order.
    pub log: Vec<u64>,
}

impl View for Scene {
    type V = SceneM;

    open spec fn view(&self) -> SceneM {
        SceneM {
            entities: self.entities@,
            fades: self.fades@,
            locks: self.locks@,
            cells: self.cells@,
            assets: self.assets@,
            next_state: self.next_state,
            events: self.events@,
            log: self.log@,
        }
    }
}

impl Scene {
    /// An empty scene: no entities, locks, cells, handles or history.
    pub fn new() -> (s: Scene)
        ensures
            s@ == (SceneM {
                entities: Seq::<bool>::empty(),
                fades: Seq::<u64>::empty(),
                locks: Seq::<bool>::empty(),
                cells: Seq::<u64>::empty(),
                assets: Seq::<bool>::empty(),
                next_state: None::<u64>,
                events: Seq::<u64>::empty(),
                log: Seq::<u64>::empty(),
            }),
    {
        let s = Scene {
            entities: Vec::new(),
            fades: Vec::new(),
            locks: Vec::new(),
            cells: Vec::new(),
            assets: Vec::new(),
            next_state: None,
            events: Vec::new(),
            log: Vec::new(),
        };
        proof {
            assert(s@ =~= SceneM {
                entities: Seq::<bool>::empty(),
                fades: Seq::<u64>::empty(),
                locks: Seq::<bool>::empty(),
                cells: Seq::<u64>::empty(),
                assets: Seq::<bool>::empty(),
                next_state: None::<u64>,
                events: Seq::<u64>::empty(),
                log: Seq::<u64>::empty(),
            });
        }
        s
    }

    /// Spawns a fresh entity and returns its index.
    pub fn spawn(&mut self) -> (e: usize)
        ensures
            e == old(self)@.entities.len(),
            final(self)@ == apply_action_m(old(self)@, Action::Spawn),
    {
        let e = self.entities.len();
        self.entities.push(true);
        proof {
            assert(self@ =~= apply_action_m(old(self)@, Action::Spawn));
        }
        e
    }

    /// Marks entity `e` as despawned; a no-op if it never existed.
    pub fn despawn(&mut self, e: usize)
        ensures
            final(self)@ == despawn_m(old(self)@, e),
    {
        if e < self.entities.len() {
            self.entities.set(e, false);
            proof {
                assert(self@ =~= despawn_m(old(self)@, e));
            }
        }
    }

    /// Whether entity `e` exists and is alive.
    pub fn is_alive(&self, e: usize) -> (r: bool)
        ensures
            r == alive_m(self@, e),
    {
        e < self.entities.len() && self.entities[e]
    }

    /// Allocates a fade surface, initially clear, and returns its index.
    pub fn new_fade(&mut self) -> (f: usize)
        ensures
            f == old(self)@.fades.len(),
            final(self)@ == (SceneM { fades: old(self)@.fades.push(0), ..old(self)@ }),
    {
        let f = self.fades.len();
        self.fades.push(0);
        proof {
            assert(self@ =~= SceneM { fades: old(self)@.fades.push(0), ..old(self)@ });
        }
        f
    }

    /// The level of fade surface `f`, in thousandths.
    pub fn fade_level(&self, f: usize) -> (r: u64)
        ensures
            r == fade_m(self@, f),
    {
        if f < self.fades.len() {
            self.fades[f]
        } else {
            0
        }
    }

    /// Sets the level of fade surface `f`; a no-op on a missing surface.
    pub fn set_fade(&mut self, f: usize, level: u64)
        ensures
            final(self)@ == set_fade_m(old(self)@, f, level),
    {
        if f < self.fades.len() {
            self.fades.set(f, level);
            proof {
                assert(self@ =~= set_fade_m(old(self)@, f, level));
            }
        }
    }

    /// Allocates an asset handle, initially still loading, and returns it.
    pub fn new_asset(&mut self) -> (h: usize)
        ensures
            h == old(self)@.assets.len(),
            final(self)@ == (SceneM { assets: old(self)@.assets.push(false), ..old(self)@ }),
    {
        let h = self.assets.len();
        self.assets.push(false);
        proof {
            assert(self@ =~= SceneM { assets: old(self)@.assets.push(false), ..old(self)@ });
        }
        h
    }

    /// Records that asset handle `h` has finished loading.
    pub fn mark_loaded(&mut self, h: usize)
        ensures
            final(self)@ == (if h < old(self)@.assets.len() {
                SceneM { assets: old(self)@.assets.update(h as int, true), ..old(self)@ }
            } else {
                old(self)@
            }),
    {
        if h < self.assets.len() {
            self.assets.set(h, true);
            proof {
                assert(self@ =~= SceneM {
                    assets: old(self)@.assets.update(h as int, true),
                    ..old(self)@
                });
            }
        }
    }

    /// Whether asset handle `h` has finished loading.
    pub fn is_loaded(&self, h: usize) -> (r: bool)
        ensures
            r == loaded_m(self@, h),
    {
        h < self.assets.len() && self.assets[h]
    }

    /// Applies one action to the scene.
    pub fn apply(&mut self, a: Action)
        ensures
            final(self)@ == apply_action_m(old(self)@, a),
    {
        match a {
            Action::Log(m) => {
                self.log.push(m);
            },
            Action::SetState(st) => {
                self.next_state = Some(st);
            },
            Action::SendEvent(e) => {
                self.events.push(e);
            },
            Action::Despawn(e) => {
                self.despawn(e);
            },
            Action::Unlock(l) => {
                if l < self.locks.len() {
                    self.locks.set(l, false);
                }
            },
            Action::SetCell { cell, value } => {
                if cell < self.cells.len() {
                    self.cells.set(cell, value);
                }
            },
            Action::Spawn => {
                self.entities.push(true);
            },
        }
        proof {
            assert(self@ =~= apply_action_m(old(self)@, a));
        }
    }

    /// Applies a list of actions, first-to-last.
    pub fn apply_all(&mut self, actions: &Vec<Action>)
        ensures
            final(self)@ == apply_all_m(old(self)@, actions@),
    {
        let n = actions.len();
        let mut i: usize = 0;
        while i < n
            invariant
                i <= n,
                n == actions@.len(),
                self@ == apply_all_m(old(self)@, actions@.subrange(0, i as int)),
            decreases n - i,
        {
            self.apply(actions[i]);
            proof {
                assert(actions@.subrange(0, i + 1 as int).drop_last()
                    =~= actions@.subrange(0, i as int));
            }
            i = i + 1;
        }
        proof {
            assert(actions@.subrange(0, n as int) =~= actions@);
        }
    }
}

/// A handle to a mutual-exclusion lock living in the scene: a shared boolean
/// with lock/unlock semantics, used to guarantee at most one concurrently
/// active instance of a conceptually singleton task. Copying the handle
/// shares the one lock; it does not copy its state.
#[derive(Clone, Copy, Debug)]
pub struct TaskLock {
    id: usize,
}

impl View for TaskLock {
    type V = usize;

    closed spec fn view(&self) -> usize {
        self.id
    }
}

impl TaskLock {
    /// Creates a fresh lock in the scene, initially free.
    pub fn new(scene: &mut Scene) -> (l: TaskLock)
        ensures
            l@ == old(scene)@.locks.len(),
            final(scene)@ == (SceneM {
                locks: old(scene)@.locks.push(false),
                ..old(scene)@
            }),
    {
        let id = scene.locks.len();
        scene.locks.push(false);
        proof {
            assert(scene@ =~= SceneM { locks: old(scene)@.locks.push(false), ..old(scene)@ });
        }
        TaskLock { id }
    }

    /// The lock's index in the scene.
    pub fn id(&self) -> (i: usize)
        ensures
            i == self@,
    {
        self.id
    }

    /// Tries to acquire the lock. Succeeds, returning true, exactly when the
    /// lock exists and is free; a failed attempt leaves the scene unchanged.
    pub fn lock(&self, scene: &mut Scene) -> (r: bool)
        ensures
            r == can_lock_m(old(scene)@, self@),
            final(scene)@ == lock_acquire_m(old(scene)@, self@),
    {
        if self.id < scene.locks.len() && !scene.locks[self.id] {
            scene.locks.set(self.id, true);
            proof {
                assert(scene@ =~= lock_acquire_m(old(scene)@, self@));
            }
            true
        } else {
            false
        }
    }

    /// Releases the lock. Returns true exactly when the lock existed and was
    /// held; in every case the lock is free afterwards if it exists.
    pub fn unlock(&self, scene: &mut Scene) -> (r: bool)
        ensures
            r == locked_m(old(scene)@, self@),
            final(scene)@ == apply_action_m(old(scene)@, Action::Unlock(self@)),
    {
        let was_locked = self.id < scene.locks.len() && scene.locks[self.id];
        if self.id < scene.locks.len() {
            scene.locks.set(self.id, false);
            proof {
                assert(scene@ =~= apply_action_m(old(scene)@, Action::Unlock(self@)));
            }
        }
        was_locked
    }
}

/// A handle to a shared mutable cell living in the scene, letting two distinct
/// tasks in a queue exchange state. Copying the handle shares the one backing
/// cell; it does not copy the value.
#[derive(Clone, Copy, Debug)]
pub struct Shared {
    id: usize,
}

impl View for Shared {
    type V = usize;

    closed spec fn view(&self) -> usize {
        self.id
    }
}

impl Shared {
    /// Creates a fresh cell in the scene holding `value`.
    pub fn new(scene: &mut Scene, value: u64) -> (c: Shared)
        ensures
            c@ == old(scene)@.cells.len(),
            final(scene)@ == (SceneM {
                cells: old(scene)@.cells.push(value),
                ..old(scene)@
            }),
    {
        let id = scene.cells.len();
        scene.cells.push(value);
        proof {
            assert(scene@ =~= SceneM { cells: old(scene)@.cells.push(value), ..old(scene)@ });
        }
        Shared { id }
    }

    /// Reads the cell's current value.
    pub fn get(&self, scene: &Scene) -> (v: u64)
        ensures
            v == cell_m(scene@, self@),
    {
        if self.id < scene.cells.len() {
            scene.cells[self.id]
        } else {
            0
        }
    }

    /// Overwrites the cell's value.
    pub fn set(&self, scene: &mut Scene, value: u64)
        ensures
            final(scene)@ == apply_action_m(old(scene)@, Action::SetCell {
                cell: self@,
                value,
            }),
    {
        if self.id < scene.cells.len() {
            scene.cells.set(self.id, value);
        }
        proof {
            assert(scene@ =~= apply_action_m(old(scene)@, Action::SetCell {
                cell: self@,
                value,
            }));
        }
    }
}

} // verus!
