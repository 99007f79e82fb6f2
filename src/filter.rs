//! Which tasks a task list shows: optionally without completed tasks, and optionally without
//! tasks that still wait on an uncompleted dependency.

use vstd::prelude::*;

use crate::database::{ids_of, Database};
use crate::errors::DatabaseError;
use crate::task::Task;

verus! {

broadcast use {vstd::set::group_set_axioms, vstd::seq_lib::group_to_multiset_ensures};

/// Some task that `id` depends on is not completed.
pub open spec fn waits_on_uncompleted(db: &Database, id: Seq<char>) -> bool {
    exists|d: Seq<char>| #[trigger] db.edge_count(id, d) > 0 && db.task(d).time_completed is None
}

/// The task `id` is shown under the given settings.
pub open spec fn passes_filter(
    db: &Database,
    id: Seq<char>,
    hide_completed: bool,
    hide_unactionable: bool,
) -> bool {
    &&& hide_completed ==> db.task(id).time_completed is None
    &&& hide_unactionable ==> !waits_on_uncompleted(db, id)
}

impl Database {
    /// Whether some task that `id` depends on is not completed.
    pub fn has_uncompleted_dependencies(&self, id: &str) -> (r: Result<bool, DatabaseError>)
        requires
            self.wf(),
        ensures
            r is Ok <==> self.ids().contains(id@),
            r matches Err(DatabaseError::UnknownTaskId(bad)) ==> bad@ == id@,
            r matches Ok(b) ==> b == waits_on_uncompleted(self, id@),
    {
        let deps = match self.get_dependencies(id) {
            Ok(v) => v,
            Err(e) => {
                return Err(e);
            },
        };
        let mut k: usize = 0;
        while k < deps.len()
            invariant
                self.wf(),
                self.ids().contains(id@),
                k <= deps@.len(),
                forall|j: int| 0 <= j < k ==> (#[trigger] deps@[j]).time_completed is Some,
                forall|j: int| 0 <= j < deps@.len() ==> #[trigger] self.ids().contains(deps@[j]@.id)
                    && deps@[j]@ == self.task(deps@[j]@.id),
                forall|b: Seq<char>| #[trigger]
                    ids_of(deps@).to_multiset().count(b) == self.edge_count(id@, b),
            decreases deps@.len() - k,
        {
            if deps[k].time_completed.is_none() {
                proof {
                    let d = deps@[k as int]@.id;
                    assert(ids_of(deps@)[k as int] == d);
                    assert(ids_of(deps@).contains(d));
                    assert(ids_of(deps@).to_multiset().count(d) > 0);
                    assert(self.edge_count(id@, d) > 0);
                    assert(self.ids().contains(deps@[k as int]@.id));
                    assert(deps@[k as int]@ == self.task(d));
                    assert(self.task(d).time_completed is None);
                }
                return Ok(true);
            }
            k += 1;
        }
        proof {
            assert forall|d: Seq<char>| #[trigger] self.edge_count(id@, d) > 0 implies self.task(
                d,
            ).time_completed is Some by {
                assert(ids_of(deps@).to_multiset().count(d) > 0);
                assert(ids_of(deps@).contains(d));
                let j = choose|j: int| 0 <= j < ids_of(deps@).len() && ids_of(deps@)[j] == d;
                assert(ids_of(deps@)[j] == deps@[j]@.id);
                assert(self.ids().contains(deps@[j]@.id));
                assert(deps@[j]@ == self.task(d));
                assert(deps@[j].time_completed is Some);
            }
        }
        Ok(false)
    }

    /// The tasks shown under the given settings, in storage order.
    pub fn filtered_tasks(&self, hide_completed: bool, hide_unactionable: bool) -> (r: Vec<&Task>)
        requires
            self.wf(),
        ensures
            ids_of(r@).no_duplicates(),
            forall|id: Seq<char>| #[trigger]
                ids_of(r@).contains(id) <==> self.ids().contains(id) && passes_filter(
                    self,
                    id,
                    hide_completed,
                    hide_unactionable,
                ),
            forall|k: int| 0 <= k < r@.len() ==> (#[trigger] r@[k])@ == self.task(r@[k]@.id),
    {
        let all = self.get_all_tasks();
        let mut r: Vec<&Task> = Vec::new();
        let mut k: usize = 0;
        proof {
            assert(ids_of(all@).take(0) =~= Seq::empty());
        }
        while k < all.len()
            invariant
                self.wf(),
                k <= all@.len(),
                ids_of(all@).no_duplicates(),
                ids_of(all@).to_set() == self.ids(),
                forall|j: int| 0 <= j < all@.len() ==> (#[trigger] all@[j])@ == self.task(all@[j]@.id),
                ids_of(r@).no_duplicates(),
                forall|id: Seq<char>| #[trigger]
                    ids_of(r@).contains(id) <==> ids_of(all@).take(k as int).contains(id) && passes_filter(
                        self,
                        id,
                        hide_completed,
                        hide_unactionable,
                    ),
                forall|j: int| 0 <= j < r@.len() ==> (#[trigger] r@[j])@ == self.task(r@[j]@.id),
            decreases all@.len() - k,
        {
            let t = all[k];
            let ghost id = t@.id;
            proof {
                assert(ids_of(all@)[k as int] == id);
                assert(ids_of(all@).to_set().contains(id));
            }
            let mut shown = true;
            if hide_completed && t.time_completed.is_some() {
                shown = false;
            }
            if shown && hide_unactionable {
                match self.has_uncompleted_dependencies(t.id.as_str()) {
                    Ok(waits) => {
                        if waits {
                            shown = false;
                        }
                    },
                    Err(_) => {},
                }
            }
            let ghost before = r@;
            proof {
                assert(t@ == self.task(id));
                assert(shown == passes_filter(self, id, hide_completed, hide_unactionable));
                assert(ids_of(all@).take(k + 1) =~= ids_of(all@).take(k as int).push(id));
                assert(!ids_of(all@).take(k as int).contains(id)) by {
                    if ids_of(all@).take(k as int).contains(id) {
                        let j = choose|j: int| 0 <= j < k && ids_of(all@).take(k as int)[j] == id;
                        assert(ids_of(all@)[j] == ids_of(all@)[k as int]);
                    }
                }
            }
            proof {
                let prefix = ids_of(all@).take(k as int);
                assert forall|x: Seq<char>| #[trigger] prefix.push(id).contains(x) <==> prefix.contains(x) || x == id by {
                    if prefix.push(id).contains(x) {
                        let j = choose|j: int| 0 <= j < prefix.push(id).len() && prefix.push(id)[j] == x;
                        if j < prefix.len() {
                            assert(prefix[j] == x);
                        }
                    }
                    if prefix.contains(x) {
                        let j = choose|j: int| 0 <= j < prefix.len() && prefix[j] == x;
                        assert(prefix.push(id)[j] == x);
                    }
                    if x == id {
                        assert(prefix.push(id)[prefix.len() as int] == x);
                    }
                }
            }
            if shown {
                r.push(t);
                proof {
                    assert(ids_of(r@) =~= ids_of(before).push(id));
                    assert(!ids_of(before).contains(id));
                    assert forall|x: Seq<char>| #[trigger] ids_of(r@).contains(x) <==> ids_of(before).contains(x) || x == id by {
                        let b = ids_of(before);
                        if ids_of(r@).contains(x) {
                            let j = choose|j: int| 0 <= j < b.push(id).len() && b.push(id)[j] == x;
                            if j < b.len() {
                                assert(b[j] == x);
                            }
                        }
                        if b.contains(x) {
                            let j = choose|j: int| 0 <= j < b.len() && b[j] == x;
                            assert(b.push(id)[j] == x);
                        }
                        if x == id {
                            assert(b.push(id)[b.len() as int] == x);
                        }
                    }
                    assert forall|a: int, b: int|
                        0 <= a < ids_of(r@).len() && 0 <= b < ids_of(r@).len() && a != b implies ids_of(
                        r@,
                    )[a] != ids_of(r@)[b] by {
                        if a < before.len() && b < before.len() {
                            assert(ids_of(before)[a] != ids_of(before)[b]);
                        } else if a < before.len() {
                            assert(ids_of(before).contains(ids_of(before)[a]));
                        } else if b < before.len() {
                            assert(ids_of(before).contains(ids_of(before)[b]));
                        }
                    }
                }
            }
            k += 1;
        }
        proof {
            assert(ids_of(all@).take(all@.len() as int) =~= ids_of(all@));
            assert forall|id: Seq<char>| #[trigger] ids_of(all@).contains(id) <==> self.ids().contains(id) by {
                assert(ids_of(all@).to_set().contains(id) == ids_of(all@).contains(id));
            }
        }
        r
    }
}

} // verus!
