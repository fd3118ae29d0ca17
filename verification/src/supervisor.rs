//! The Trace Supervisor: the registry of currently running Trace Executions.
//! It admission-controls starts (at most one running execution per name),
//! relays stop signals, and removes executions once they reach a terminal
//! state.
use vstd::prelude::*;

use crate::execution::{ExecPhase, TraceExec, spec_tick};
use crate::store::TraceError;

verus! {

/// No two executions in the sequence share a name.
pub open spec fn distinct_names(v: Seq<TraceExec>) -> bool {
    forall|i: int, j: int|
        0 <= i < j < v.len() ==> (#[trigger] v[i]).name@ != (#[trigger] v[j]).name@
}

/// With distinct names, only one index can hold a given name.
proof fn lemma_name_index_unique(v: Seq<TraceExec>, i: int, j: int)
    requires
        distinct_names(v),
        0 <= i < v.len(),
        0 <= j < v.len(),
        v[i].name@ == v[j].name@,
    ensures
        i == j,
{
    if i < j {
        assert(v[i].name@ != v[j].name@);
    } else if j < i {
        assert(v[j].name@ != v[i].name@);
    }
}

/// Updating an entry without changing its name keeps the names distinct.
proof fn lemma_distinct_after_update(v: Seq<TraceExec>, i: int, e: TraceExec)
    requires
        distinct_names(v),
        0 <= i < v.len(),
        e.name@ == v[i].name@,
    ensures
        distinct_names(v.update(i, e)),
{
    let w = v.update(i, e);
    assert forall|a: int, b: int| 0 <= a < b < w.len() implies (#[trigger] w[a]).name@ != (
    #[trigger] w[b]).name@ by {
        assert(v[a].name@ != v[b].name@);
    }
}

/// Removing an entry keeps the names distinct, and the removed entry's name
/// is gone from the rest.
proof fn lemma_distinct_after_remove(v: Seq<TraceExec>, i: int)
    requires
        distinct_names(v),
        0 <= i < v.len(),
    ensures
        distinct_names(v.remove(i)),
        forall|j: int| 0 <= j < v.remove(i).len() ==> (#[trigger] v.remove(i)[j]).name@ != v[i].name@,
{
    let w = v.remove(i);
    assert forall|a: int, b: int| 0 <= a < b < w.len() implies (#[trigger] w[a]).name@ != (
    #[trigger] w[b]).name@ by {
        let a0 = if a < i {
            a
        } else {
            a + 1
        };
        let b0 = if b < i {
            b
        } else {
            b + 1
        };
        assert(w[a] == v[a0]);
        assert(w[b] == v[b0]);
        if v[a0].name@ == v[b0].name@ {
            lemma_name_index_unique(v, a0, b0);
        }
    }
    assert forall|j: int| 0 <= j < w.len() implies (#[trigger] w[j]).name@ != v[i].name@ by {
        let j0 = if j < i {
            j
        } else {
            j + 1
        };
        assert(w[j] == v[j0]);
        if v[j0].name@ == v[i].name@ {
            lemma_name_index_unique(v, j0, i);
        }
    }
}

/// The registry of running executions, keyed by definition name.
pub struct HouseKeeper {
    running: Vec<TraceExec>,
}

impl HouseKeeper {
    /// The registered executions, in registration order.
    pub closed spec fn entries(&self) -> Seq<TraceExec> {
        self.running@
    }

    /// No two registered executions share a name.
    pub open spec fn wf(&self) -> bool {
        distinct_names(self.entries())
    }

    /// Whether some execution runs under the name.
    pub open spec fn has_name(&self, name: Seq<char>) -> bool {
        exists|i: int|
            0 <= i < self.entries().len() && (#[trigger] self.entries()[i]).name@ == name
    }

    pub fn new() -> (r: Self)
        ensures
            r.entries() == Seq::<TraceExec>::empty(),
            r.wf(),
    {
        HouseKeeper { running: Vec::new() }
    }

    /// How many executions are registered.
    pub fn running_count(&self) -> (r: usize)
        ensures
            r == self.entries().len(),
    {
        self.running.len()
    }

    /// The index of the execution registered under the name, if any.
    fn find(&self, name: &String) -> (r: Option<usize>)
        ensures
            match r {
                Some(i) => i < self.entries().len() && self.entries()[i as int].name@ == name@,
                None => !self.has_name(name@),
            },
    {
        let mut i: usize = 0;
        while i < self.running.len()
            invariant
                0 <= i <= self.entries().len(),
                forall|j: int| 0 <= j < i ==> (#[trigger] self.entries()[j]).name@ != name@,
            decreases self.entries().len() - i,
        {
            if self.running[i].name == *name {
                return Some(i);
            }
            i = i + 1;
        }
        None
    }

    /// The phase of the execution registered under the name, if any.
    pub fn phase_of(&self, name: &String) -> (r: Option<ExecPhase>)
        ensures
            match r {
                Some(p) => exists|i: int|
                    0 <= i < self.entries().len() && (#[trigger] self.entries()[i]).name@ == name@
                        && self.entries()[i].phase == p,
                None => !self.has_name(name@),
            },
    {
        match self.find(name) {
            Some(i) => Some(self.running[i].phase),
            None => None,
        }
    }

    /// Admission control: register a fresh execution unless one already runs
    /// under the name. Exactly one of two same-name starts can succeed.
    pub fn start(
        &mut self,
        name: &String,
        round: usize,
        interval: usize,
        from_remote: bool,
        pattern: String,
    ) -> (r: Result<(), TraceError>)
        requires
            old(self).wf(),
        ensures
            final(self).wf(),
            r is Ok <==> !old(self).has_name(name@),
            r is Ok ==> {
                &&& final(self).entries().len() == old(self).entries().len() + 1
                &&& final(self).entries().drop_last() == old(self).entries()
                &&& final(self).entries().last().name@ == name@
                &&& final(self).entries().last().phase == ExecPhase::Starting
                &&& final(self).entries().last().remaining == round
                &&& final(self).entries().last().interval == interval
                &&& final(self).entries().last().from_remote == from_remote
                &&& final(self).entries().last().pattern == pattern
                &&& final(self).has_name(name@)
            },
            r matches Err(e) ==> final(self).entries() == old(self).entries() && (e matches
            TraceError::Conflict(n) && n@ == name@ && old(self).has_name(name@)),
    {
        match self.find(name) {
            Some(_) => Err(TraceError::Conflict(name.clone())),
            None => {
                let fresh = TraceExec::new(name.clone(), round, interval, from_remote, pattern);
                self.running.push(fresh);
                proof {
                    let n = self.entries().len() - 1;
                    assert(self.entries()[n].name@ == name@);
                    assert(self.entries().drop_last() =~= old(self).entries());
                    assert(forall|j: int|
                        0 <= j < n ==> (#[trigger] self.entries()[j]).name@ != name@);
                    assert(self.wf());
                }
                Ok(())
            },
        }
    }

    /// Signal the execution under the name to stop. The entry stays
    /// registered; it leaves on its own terminal transition.
    pub fn stop(&mut self, name: &String) -> (r: Result<(), TraceError>)
        requires
            old(self).wf(),
        ensures
            final(self).wf(),
            r is Ok <==> old(self).has_name(name@),
            r is Ok ==> exists|i: int|
                0 <= i < old(self).entries().len() && (#[trigger] old(self).entries()[i]).name@
                    == name@ && final(self).entries() == old(self).entries().update(
                    i,
                    (TraceExec { phase: ExecPhase::Stopping, ..old(self).entries()[i] }),
                ),
            r matches Err(e) ==> final(self).entries() == old(self).entries() && (e matches
            TraceError::NotFound(n) && n@ == name@ && !old(self).has_name(name@)),
    {
        match self.find(name) {
            None => Err(TraceError::NotFound(name.clone())),
            Some(i) => {
                let ghost idx = i as int;
                let mut entry = self.running.remove(i);
                entry.phase = ExecPhase::Stopping;
                self.running.insert(i, entry);
                proof {
                    assert(self.entries() =~= old(self).entries().update(
                        idx,
                        (TraceExec { phase: ExecPhase::Stopping, ..old(self).entries()[idx] }),
                    ));
                    lemma_distinct_after_update(
                        old(self).entries(),
                        idx,
                        self.entries()[idx],
                    );
                }
                Ok(())
            },
        }
    }

    /// Remove the entry under the name, if any; idempotent, called by an
    /// execution on its own terminal transition.
    pub fn deregister(&mut self, name: &String)
        requires
            old(self).wf(),
        ensures
            final(self).wf(),
            !final(self).has_name(name@),
            old(self).has_name(name@) ==> exists|i: int|
                0 <= i < old(self).entries().len() && (#[trigger] old(self).entries()[i]).name@
                    == name@ && final(self).entries() == old(self).entries().remove(i),
            !old(self).has_name(name@) ==> final(self).entries() == old(self).entries(),
    {
        match self.find(name) {
            None => {
            },
            Some(i) => {
                let ghost idx = i as int;
                let _gone = self.running.remove(i);
                proof {
                    assert(self.entries() == old(self).entries().remove(idx));
                    lemma_distinct_after_remove(old(self).entries(), idx);
                }
            },
        }
    }

    /// The runtime reports that the named execution's child process came up.
    pub fn note_spawned(&mut self, name: &String) -> (r: Result<(), TraceError>)
        requires
            old(self).wf(),
        ensures
            final(self).wf(),
            r is Ok <==> exists|i: int|
                0 <= i < old(self).entries().len() && (#[trigger] old(self).entries()[i]).name@
                    == name@ && old(self).entries()[i].phase == ExecPhase::Starting,
            r matches Err(e) ==> final(self).entries() == old(self).entries() && match e {
                TraceError::NotFound(n) => n@ == name@ && !old(self).has_name(name@),
                TraceError::ProcessExit => exists|i: int|
                    0 <= i < old(self).entries().len() && (#[trigger] old(self).entries()[i]).name@
                        == name@ && old(self).entries()[i].phase != ExecPhase::Starting,
                _ => false,
            },
            r is Ok ==> exists|i: int|
                0 <= i < old(self).entries().len() && (#[trigger] old(self).entries()[i]).name@
                    == name@ && old(self).entries()[i].phase == ExecPhase::Starting && final(self).entries() == old(self).entries().update(
                    i,
                    (TraceExec { phase: ExecPhase::Running, ..old(self).entries()[i] }),
                ),
    {
        match self.find(name) {
            None => Err(TraceError::NotFound(name.clone())),
            Some(i) => {
                let ghost idx = i as int;
                if !matches!(self.running[i].phase, ExecPhase::Starting) {
                    proof {
                        assert forall|j: int|
                            0 <= j < self.entries().len() && (#[trigger] self.entries()[j]).name@
                                == name@ implies j == idx by {
                            lemma_name_index_unique(self.entries(), j, idx);
                        }
                    }
                    return Err(TraceError::ProcessExit);
                }
                let mut entry = self.running.remove(i);
                entry.spawn_succeeded();
                self.running.insert(i, entry);
                proof {
                    assert(self.entries() =~= old(self).entries().update(
                        idx,
                        (TraceExec { phase: ExecPhase::Running, ..old(self).entries()[idx] }),
                    ));
                    lemma_distinct_after_update(
                        old(self).entries(),
                        idx,
                        self.entries()[idx],
                    );
                }
                Ok(())
            },
        }
    }

    /// One interval elapsed for the named execution: advance its machine and,
    /// if the budget is spent, deregister it and report completion.
    pub fn note_interval(&mut self, name: &String) -> (r: Result<ExecPhase, TraceError>)
        requires
            old(self).wf(),
        ensures
            final(self).wf(),
            r is Ok <==> exists|i: int|
                0 <= i < old(self).entries().len() && (#[trigger] old(self).entries()[i]).name@
                    == name@ && old(self).entries()[i].phase == ExecPhase::Running,
            r matches Err(e) ==> final(self).entries() == old(self).entries() && match e {
                TraceError::NotFound(n) => n@ == name@ && !old(self).has_name(name@),
                TraceError::ProcessExit => exists|i: int|
                    0 <= i < old(self).entries().len() && (#[trigger] old(self).entries()[i]).name@
                        == name@ && old(self).entries()[i].phase != ExecPhase::Running,
                _ => false,
            },
            r matches Ok(p) ==> exists|i: int|
                {
                    &&& 0 <= i < old(self).entries().len()
                    &&& (#[trigger] old(self).entries()[i]).name@ == name@
                    &&& old(self).entries()[i].phase == ExecPhase::Running
                    &&& p == spec_tick(old(self).entries()[i]).phase
                    &&& (p == ExecPhase::Completed ==> final(self).entries() == old(
                        self,
                    ).entries().remove(i) && !final(self).has_name(name@))
                    &&& (p != ExecPhase::Completed ==> final(self).entries() == old(
                        self,
                    ).entries().update(i, spec_tick(old(self).entries()[i])))
                },
    {
        match self.find(name) {
            None => Err(TraceError::NotFound(name.clone())),
            Some(i) => {
                let ghost idx = i as int;
                if !matches!(self.running[i].phase, ExecPhase::Running) {
                    proof {
                        assert forall|j: int|
                            0 <= j < self.entries().len() && (#[trigger] self.entries()[j]).name@
                                == name@ implies j == idx by {
                            lemma_name_index_unique(self.entries(), j, idx);
                        }
                    }
                    return Err(TraceError::ProcessExit);
                }
                let mut entry = self.running.remove(i);
                entry.tick();
                let done = matches!(entry.phase, ExecPhase::Completed);
                if done {
                    proof {
                        assert(self.entries() == old(self).entries().remove(idx));
                        lemma_distinct_after_remove(old(self).entries(), idx);
                    }
                    Ok(ExecPhase::Completed)
                } else {
                    let p = entry.phase;
                    self.running.insert(i, entry);
                    proof {
                        assert(self.entries() =~= old(self).entries().update(
                            idx,
                            spec_tick(old(self).entries()[idx]),
                        ));
                        lemma_distinct_after_update(
                            old(self).entries(),
                            idx,
                            self.entries()[idx],
                        );
                    }
                    Ok(p)
                }
            },
        }
    }

    /// Signal every registered execution to stop, without waiting: each one
    /// deregisters itself as it terminates.
    pub fn shutdown_all(&mut self)
        requires
            old(self).wf(),
        ensures
            final(self).wf(),
            final(self).entries().len() == old(self).entries().len(),
            forall|i: int|
                0 <= i < old(self).entries().len() ==> (#[trigger] final(self).entries()[i])
                    == (TraceExec {
                    phase: if old(self).entries()[i].phase == ExecPhase::Starting || old(
                        self,
                    ).entries()[i].phase == ExecPhase::Running {
                        ExecPhase::Stopping
                    } else {
                        old(self).entries()[i].phase
                    },
                    ..old(self).entries()[i]
                }),
    {
        let n = self.running.len();
        let mut i: usize = 0;
        while i < n
            invariant
                0 <= i <= n,
                n == self.entries().len(),
                n == old(self).entries().len(),
                forall|j: int|
                    i <= j < n ==> (#[trigger] self.entries()[j]) == old(self).entries()[j],
                forall|j: int|
                    0 <= j < i ==> (#[trigger] self.entries()[j]) == (TraceExec {
                        phase: if old(self).entries()[j].phase == ExecPhase::Starting || old(
                            self,
                        ).entries()[j].phase == ExecPhase::Running {
                            ExecPhase::Stopping
                        } else {
                            old(self).entries()[j].phase
                        },
                        ..old(self).entries()[j]
                    }),
            decreases n - i,
        {
            let ghost idx = i as int;
            let ghost ecur = self.entries();
            let mut entry = self.running.remove(i);
            match entry.phase {
                ExecPhase::Starting => {
                    entry.stop_requested();
                },
                ExecPhase::Running => {
                    entry.stop_requested();
                },
                _ => {
                },
            }
            self.running.insert(i, entry);
            proof {
                assert(self.entries() =~= ecur.update(idx, self.entries()[idx]));
                assert(self.entries()[idx] == (TraceExec {
                    phase: if ecur[idx].phase == ExecPhase::Starting || ecur[idx].phase
                        == ExecPhase::Running {
                        ExecPhase::Stopping
                    } else {
                        ecur[idx].phase
                    },
                    ..ecur[idx]
                }));
                assert(ecur[idx] == old(self).entries()[idx]);
            }
            i = i + 1;
        }
        proof {
            assert forall|a: int, b: int|
                0 <= a < b < self.entries().len() implies (#[trigger] self.entries()[a]).name@ != (
            #[trigger] self.entries()[b]).name@ by {
                assert(old(self).entries()[a].name@ != old(self).entries()[b].name@);
            }
        }
    }
}

} // verus!
