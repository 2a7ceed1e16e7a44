//! Model of the cooperative task runtime as the leadership layer sees it: it
//! hands out fresh task identifiers, remembers which tasks are live, and
//! refuses to spawn once shut down. The surrounding runtime maps each
//! identifier to the real task it runs.

use vstd::prelude::*;

verus! {

/// The runtime is shutting down; nothing new is spawned.
#[derive(Clone, Copy, Debug, PartialEq, Eq, Structural)]
pub struct ShutdownError;

/// Bookkeeping of spawned tasks.
#[derive(Debug)]
pub struct TaskCenter {
    next_task_id: u64,
    live: Vec<u64>,
    shutdown: bool,
}

impl View for TaskCenter {
    type V = Set<u64>;

    closed spec fn view(&self) -> Set<u64> {
        Set::new(|t: u64| exists|i: int| 0 <= i < self.live@.len() && self.live@[i] == t)
    }
}

impl TaskCenter {
    /// Identifier the next spawn hands out.
    pub closed spec fn spec_next_id(self) -> u64 {
        self.next_task_id
    }

    /// Whether the runtime has begun shutting down.
    pub closed spec fn spec_shutdown(self) -> bool {
        self.shutdown
    }

    /// Live task identifiers are distinct and below the next identifier.
    #[verifier::type_invariant]
    closed spec fn wf(self) -> bool {
        &&& forall|i: int, j: int|
            0 <= i < j < self.live@.len() ==> self.live@[i] != self.live@[j]
        &&& forall|i: int| 0 <= i < self.live@.len() ==> #[trigger] self.live@[i] < self.next_task_id
    }

    /// A running task center with no tasks yet.
    pub fn new() -> (r: Self)
        ensures
            r@ == Set::<u64>::empty(),
            !r.spec_shutdown(),
            r.spec_next_id() == 0,
    {
        let r = TaskCenter { next_task_id: 0, live: Vec::new(), shutdown: false };
        proof {
            assert(r@ =~= Set::<u64>::empty());
        }
        r
    }

    /// Begin shutting down: live tasks keep running, nothing new is spawned.
    pub fn begin_shutdown(&mut self)
        ensures
            final(self)@ == old(self)@,
            final(self).spec_shutdown(),
            final(self).spec_next_id() == old(self).spec_next_id(),
    {
        proof {
            use_type_invariant(&*self);
        }
        let mut tmp = TaskCenter { next_task_id: 0, live: Vec::new(), shutdown: false };
        core::mem::swap(&mut tmp, self);
        let TaskCenter { next_task_id, live, shutdown: _ } = tmp;
        *self = TaskCenter { next_task_id, live, shutdown: true };
    }

    /// Whether the runtime has begun shutting down.
    pub fn is_shutdown(&self) -> (r: bool)
        ensures
            r == self.spec_shutdown(),
    {
        self.shutdown
    }

    /// Whether the task with this identifier is live.
    pub fn is_live(&self, task_id: u64) -> (r: bool)
        ensures
            r == self@.contains(task_id),
    {
        let n = self.live.len();
        let mut i: usize = 0;
        while i < n
            invariant
                i <= n,
                n == self.live@.len(),
                forall|j: int| 0 <= j < i ==> self.live@[j] != task_id,
            decreases n - i,
        {
            if self.live[i] == task_id {
                proof {
                    assert(self@.contains(task_id));
                }
                return true;
            }
            i += 1;
        }
        proof {
            assert(!self@.contains(task_id));
        }
        false
    }

    /// Spawn a task: a fresh identifier, registered as live — or a shutdown
    /// error once the runtime is stopping. Identifiers never repeat, so the
    /// result is above every identifier ever handed out.
    pub fn spawn_child(&mut self) -> (r: Result<u64, ShutdownError>)
        requires
            old(self).spec_next_id() < u64::MAX,
        ensures
            old(self).spec_shutdown() ==> r == Err::<u64, ShutdownError>(ShutdownError)
                && *final(self) == *old(self),
            !old(self).spec_shutdown() ==> match r {
                Ok(id) => {
                    &&& id == old(self).spec_next_id()
                    &&& !old(self)@.contains(id)
                    &&& forall|t: u64| #[trigger] old(self)@.contains(t) ==> t < id
                    &&& final(self)@ == old(self)@.insert(id)
                    &&& final(self).spec_next_id() == old(self).spec_next_id() + 1
                    &&& !final(self).spec_shutdown()
                },
                Err(_) => false,
            },
    {
        proof {
            use_type_invariant(&*self);
        }
        if self.shutdown {
            return Err(ShutdownError);
        }
        let ghost pre = *self;
        let mut tmp = TaskCenter { next_task_id: 0, live: Vec::new(), shutdown: false };
        core::mem::swap(&mut tmp, self);
        let TaskCenter { next_task_id, mut live, shutdown } = tmp;
        let id = next_task_id;
        live.push(id);
        proof {
            let n = pre.live@.len() as int;
            assert forall|a: int, b: int|
                0 <= a < b < live@.len() implies live@[a] != live@[b] by {
                if b == n {
                    assert(pre.live@[a] < pre.next_task_id);
                }
            }
        }
        *self = TaskCenter { next_task_id: next_task_id + 1, live, shutdown };
        proof {
            let n = pre.live@.len() as int;
            assert forall|t: u64| #[trigger] pre@.contains(t) implies t < id by {
                let j = choose|j: int| 0 <= j < pre.live@.len() && pre.live@[j] == t;
            }
            assert forall|t: u64| #[trigger] self@.contains(t) implies pre@.insert(id).contains(
                t,
            ) by {
                let j = choose|j: int| 0 <= j < self.live@.len() && self.live@[j] == t;
                if j < n {
                    assert(pre.live@[j] == t);
                }
            }
            assert forall|t: u64| pre@.insert(id).contains(t) implies #[trigger] self@.contains(
                t,
            ) by {
                if t == id {
                    assert(self.live@[n] == t);
                } else {
                    let j = choose|j: int| 0 <= j < pre.live@.len() && pre.live@[j] == t;
                    assert(self.live@[j] == t);
                }
            }
            assert(self@ =~= pre@.insert(id));
        }
        Ok(id)
    }

    /// Cancel the task with this identifier: it is no longer live. Every task
    /// ever spawned sits below the next identifier.
    pub fn cancel_task(&mut self, task_id: u64)
        ensures
            final(self)@ == old(self)@.remove(task_id),
            final(self).spec_next_id() == old(self).spec_next_id(),
            final(self).spec_shutdown() == old(self).spec_shutdown(),
            forall|t: u64| #[trigger] old(self)@.contains(t) ==> t < old(self).spec_next_id(),
    {
        proof {
            use_type_invariant(&*self);
            assert forall|t: u64| #[trigger] self@.contains(t) implies t < self.next_task_id by {
                let j = choose|j: int| 0 <= j < self.live@.len() && self.live@[j] == t;
            }
        }
        let ghost pre = *self;
        let n = self.live.len();
        let mut i: usize = 0;
        let mut found: Option<usize> = None;
        while i < n
            invariant
                i <= n,
                n == self.live@.len(),
                match found {
                    Some(f) => f < n && self.live@[f as int] == task_id,
                    None => forall|j: int| 0 <= j < i ==> self.live@[j] != task_id,
                },
            decreases n - i,
        {
            if self.live[i] == task_id {
                found = Some(i);
            }
            i += 1;
        }
        match found {
            None => {
                proof {
                    assert(self@ =~= pre@.remove(task_id));
                }
            },
            Some(f) => {
                let mut tmp = TaskCenter { next_task_id: 0, live: Vec::new(), shutdown: false };
                core::mem::swap(&mut tmp, self);
                let TaskCenter { next_task_id, mut live, shutdown } = tmp;
                let _ = live.remove(f);
                proof {
                    assert forall|a: int, b: int|
                        0 <= a < b < live@.len() implies live@[a] != live@[b] by {
                        let a0: int = if a < f { a } else { a + 1 };
                        let b0: int = if b < f { b } else { b + 1 };
                        assert(live@[a] == pre.live@[a0]);
                        assert(live@[b] == pre.live@[b0]);
                    }
                    assert forall|a: int| 0 <= a < live@.len() implies #[trigger] live@[a]
                        < next_task_id by {
                        let a0: int = if a < f { a } else { a + 1 };
                        assert(live@[a] == pre.live@[a0]);
                    }
                }
                *self = TaskCenter { next_task_id, live, shutdown };
                proof {
                    assert forall|t: u64| #[trigger] self@.contains(t) implies pre@.remove(
                        task_id,
                    ).contains(t) by {
                        let j = choose|j: int| 0 <= j < self.live@.len() && self.live@[j] == t;
                        let j0: int = if j < f { j } else { j + 1 };
                        assert(self.live@[j] == pre.live@[j0]);
                        if j0 < f {
                            assert(pre.live@[j0] != pre.live@[f as int]);
                        } else {
                            assert(pre.live@[f as int] != pre.live@[j0]);
                        }
                    }
                    assert forall|t: u64| pre@.remove(task_id).contains(t) implies
                        #[trigger] self@.contains(t) by {
                        let j0 = choose|j0: int|
                            0 <= j0 < pre.live@.len() && pre.live@[j0] == t;
                        if j0 < f {
                            assert(pre.live@[j0] != pre.live@[f as int]);
                            assert(self.live@[j0] == t);
                        } else {
                            assert(pre.live@[f as int] != pre.live@[j0]);
                            assert(self.live@[j0 - 1] == t);
                        }
                    }
                    assert(self@ =~= pre@.remove(task_id));
                }
            },
        }
    }
}

} // verus!
