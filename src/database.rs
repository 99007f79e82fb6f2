//! The task store: a directed graph of tasks connected by "depends-on" edges, addressed by
//! task id.

use vstd::hash_map::StringHashMap;
use vstd::multiset::Multiset;
use vstd::prelude::*;
use vstd::string::StringExecFns;

use crate::errors::DatabaseError;
use crate::graph::{
    graph_add_edge, graph_add_node, graph_clone, graph_edge_count, graph_edges, graph_neighbors,
    graph_new, graph_node, graph_node_indices, graph_nodes, graph_remove_node, graph_set_node,
    graph_slot_count,
    TaskGraph,
};
use crate::task::{Task, TaskView};

verus! {

broadcast use {vstd::set::group_set_axioms, vstd::map::group_map_axioms, vstd::multiset::group_multiset_axioms};

/// The ids of a sequence of tasks.
pub open spec fn ids_of(s: Seq<&Task>) -> Seq<Seq<char>> {
    s.map_values(|t: &Task| t@.id)
}

/// The in-memory task database.
///
/// Tasks live in a graph whose node indices stay valid when other tasks are removed; an index
/// from task id to node index is kept complete on every change.
pub struct Database {
    tasks: TaskGraph,
    task_id_to_index: StringHashMap<usize>,
}

impl Database {
    /// Node index to task.
    pub closed spec fn nodes(&self) -> Map<nat, TaskView> {
        graph_nodes(self.tasks)
    }

    /// Dependency edges between node indices.
    pub closed spec fn edges(&self) -> Multiset<(nat, nat)> {
        graph_edges(self.tasks)
    }

    /// Node slots of the graph, live or vacated.
    pub closed spec fn slots(&self) -> nat {
        graph_slot_count(self.tasks)
    }

    /// Task id to node index.
    pub closed spec fn index(&self) -> Map<Seq<char>, usize> {
        self.task_id_to_index@
    }

    /// The index is a bijection between the ids and the live nodes, each node sits at an index
    /// petgraph can hand out, and every edge joins live nodes.
    pub closed spec fn wf(&self) -> bool {
        &&& self.nodes().dom().finite()
        &&& self.index().dom().finite()
        &&& self.nodes().len() == self.index().len()
        &&& forall|id: Seq<char>| #[trigger]
            self.index().contains_key(id) ==> {
                &&& self.nodes().contains_key(self.index()[id] as nat)
                &&& self.nodes()[self.index()[id] as nat].id == id
            }
        &&& forall|i: nat| #[trigger]
            self.nodes().contains_key(i) ==> {
                &&& i < u32::MAX
                &&& i < self.slots()
                &&& self.index().contains_key(self.nodes()[i].id)
                &&& self.index()[self.nodes()[i].id] as nat == i
            }
        &&& forall|e: (nat, nat)| #[trigger]
            self.edges().count(e) > 0 ==> self.nodes().contains_key(e.0) && self.nodes().contains_key(
                e.1,
            )
    }

    /// No node slot is vacant, so a new task is stored after every present one.
    pub closed spec fn no_vacancy(&self) -> bool {
        self.nodes().len() == self.slots()
    }

    /// `s` lists every task id once, in storage order (ascending node index), which is the
    /// order [`Self::get_all_tasks`] returns.
    pub closed spec fn lists_in_storage_order(&self, s: Seq<Seq<char>>) -> bool {
        &&& s.no_duplicates()
        &&& s.to_set() == self.ids()
        &&& forall|j: int, l: int|
            0 <= j < l < s.len() ==> self.index()[#[trigger] s[j]] < self.index()[#[trigger] s[l]]
    }

    /// The ids of the tasks in the database.
    pub closed spec fn ids(&self) -> Set<Seq<char>> {
        self.index().dom()
    }

    /// The task with id `id`.
    pub closed spec fn task(&self, id: Seq<char>) -> TaskView {
        self.nodes()[self.index()[id] as nat]
    }

    /// How many times the task `from` was recorded as depending on the task `to`.
    pub closed spec fn edge_count(&self, from: Seq<char>, to: Seq<char>) -> nat {
        if self.ids().contains(from) && self.ids().contains(to) {
            self.edges().count((self.index()[from] as nat, self.index()[to] as nat))
        } else {
            0
        }
    }

    /// The number of dependency edges.
    pub closed spec fn dependency_total(&self) -> nat {
        self.edges().len()
    }

    /// `self` and `other` hold the same tasks under the same ids, with the same dependencies.
    pub open spec fn same_contents(&self, other: &Database) -> bool {
        &&& self.ids() == other.ids()
        &&& forall|id: Seq<char>| #[trigger] self.ids().contains(id) ==> self.task(id) == other.task(id)
        &&& forall|a: Seq<char>, b: Seq<char>| #[trigger]
            self.edge_count(a, b) == other.edge_count(a, b)
    }

    /// `self` is what [`Self::add_task`] leaves behind when called on `prev` with `task`.
    pub open spec fn added_from(&self, prev: &Database, task: TaskView) -> bool {
        &&& self.wf()
        &&& self.ids() == prev.ids().insert(task.id)
        &&& self.task(task.id) == task
        &&& forall|id: Seq<char>| #[trigger]
            prev.ids().contains(id) ==> self.task(id) == prev.task(id)
        &&& forall|a: Seq<char>, b: Seq<char>| #[trigger]
            self.edge_count(a, b) == prev.edge_count(a, b)
        &&& self.dependency_total() == prev.dependency_total()
        &&& prev.no_vacancy() ==> self.no_vacancy()
        &&& forall|s: Seq<Seq<char>>| #[trigger]
            prev.lists_in_storage_order(s) && prev.no_vacancy() ==> self.lists_in_storage_order(
                s.push(task.id),
            )
    }

    /// `self` is what [`Self::remove_task`] leaves behind when called on `prev` with `id`: the
    /// task and the edges from or to it are gone, everything else is as it was.
    pub open spec fn removed_from(&self, prev: &Database, id: Seq<char>) -> bool {
        &&& self.wf()
        &&& self.ids() == prev.ids().remove(id)
        &&& forall|other: Seq<char>| #[trigger]
            self.ids().contains(other) ==> self.task(other) == prev.task(other)
        &&& forall|a: Seq<char>, b: Seq<char>| #[trigger]
            self.edge_count(a, b) == if a == id || b == id {
                0
            } else {
                prev.edge_count(a, b)
            }
    }

    /// `self` is what a successful [`Self::add_dependency`] of `from` on `to` leaves behind
    /// when called on `prev`.
    pub open spec fn dependency_added_from(&self, prev: &Database, from: Seq<char>, to: Seq<char>) -> bool {
        &&& self.wf()
        &&& self.ids() == prev.ids()
        &&& forall|id: Seq<char>| #[trigger] prev.ids().contains(id) ==> self.task(id) == prev.task(id)
        &&& self.dependency_total() == prev.dependency_total() + 1
        &&& self.no_vacancy() == prev.no_vacancy()
        &&& forall|s: Seq<Seq<char>>| #[trigger]
            self.lists_in_storage_order(s) == prev.lists_in_storage_order(s)
        &&& forall|a: Seq<char>, b: Seq<char>| #[trigger]
            self.edge_count(a, b) == prev.edge_count(a, b) + if a == from && b == to {
                1nat
            } else {
                0nat
            }
    }

    /// An empty database.
    pub fn new() -> (r: Self)
        ensures
            r.wf(),
            r.ids() == Set::<Seq<char>>::empty(),
            r.dependency_total() == 0,
            forall|a: Seq<char>, b: Seq<char>| #[trigger] r.edge_count(a, b) == 0,
            r.no_vacancy(),
            r.lists_in_storage_order(Seq::<Seq<char>>::empty()),
    {
        let r = Database { tasks: graph_new(), task_id_to_index: StringHashMap::new() };
        assert(r.nodes() =~= Map::empty());
        assert(r.ids() =~= Set::empty());
        assert(Seq::<Seq<char>>::empty().to_set() =~= Set::empty());
        r
    }

    /// The number of tasks.
    pub fn len(&self) -> (r: usize)
        requires
            self.wf(),
        ensures
            r == self.ids().len(),
    {
        self.task_id_to_index.len()
    }

    /// The number of dependency edges.
    pub fn dependency_count(&self) -> (r: usize)
        requires
            self.wf(),
        ensures
            r == self.dependency_total(),
    {
        graph_edge_count(&self.tasks)
    }

    /// Whether a task with this id exists.
    pub fn contains(&self, id: &str) -> (r: bool)
        requires
            self.wf(),
        ensures
            r == self.ids().contains(id@),
    {
        self.task_id_to_index.contains_key(id)
    }

    /// Adds a new task to the database. Its id must not be in use.
    pub fn add_task(&mut self, task: Task)
        requires
            old(self).wf(),
            !old(self).ids().contains(task@.id),
            old(self).ids().len() < u32::MAX,
        ensures
            final(self).added_from(old(self), task@),
    {
        let ghost pre = *self;
        let id = task.id.clone();
        let i = graph_add_node(&mut self.tasks, task);
        self.task_id_to_index.insert(id, i);
        proof {
            assert(self.nodes().dom() =~= pre.nodes().dom().insert(i as nat));
            assert(self.index().dom() =~= pre.index().dom().insert(id@));
            assert forall|a: Seq<char>, b: Seq<char>| #[trigger]
                self.edge_count(a, b) == pre.edge_count(a, b) by {
                if self.ids().contains(a) && self.ids().contains(b) {
                    let e = (self.index()[a] as nat, self.index()[b] as nat);
                    if a == id@ || b == id@ {
                        if pre.edges().count(e) > 0 {
                            assert(pre.nodes().contains_key(e.0) && pre.nodes().contains_key(e.1));
                        }
                    }
                }
            }
            assert forall|e: (nat, nat)| #[trigger] self.edges().count(e) > 0 implies pre.edges().count(e) > 0
                && e.0 != i as nat && e.1 != i as nat by {
                assert(pre.edges().count(e) > 0);
            }
            assert forall|x: Seq<char>| #[trigger]
                pre.index().contains_key(x) && pre.index()[x] as nat != i implies self.index().contains_key(x)
                && self.index()[x] == pre.index()[x] by {
                assert(x != id@);
            }
            lemma_change_at_node(&pre, self, i as nat);
            assert(self.nodes().contains_key(i as nat));
            assert(self.wf());
            assert forall|s: Seq<Seq<char>>| #[trigger]
                pre.lists_in_storage_order(s) && pre.no_vacancy() implies self.lists_in_storage_order(
                s.push(id@),
            ) by {
                let t = s.push(id@);
                assert(!s.contains(id@)) by {
                    assert(!s.to_set().contains(id@));
                }
                assert forall|j: int, l: int| 0 <= j < t.len() && 0 <= l < t.len() && j != l implies t[j]
                    != t[l] by {
                    if l == s.len() {
                        assert(s.contains(s[j]));
                    } else if j == s.len() {
                        assert(s.contains(s[l]));
                    }
                }
                s.lemma_push_to_set_commute(id@);
                assert forall|j: int, l: int|
                    0 <= j < l < t.len() implies self.index()[#[trigger] t[j]] < self.index()[#[trigger] t[l]] by {
                    assert(s.to_set().contains(s[j]));
                    if l == s.len() {
                        assert(pre.nodes().contains_key(pre.index()[s[j]] as nat));
                    } else {
                        assert(s.to_set().contains(s[l]));
                        assert(s[l] != id@);
                    }
                }
            }
        }
    }

    /// Removes a task and every dependency from or to it. If the id is unknown, nothing
    /// changes.
    pub fn remove_task(&mut self, id: &str)
        requires
            old(self).wf(),
        ensures
            final(self).removed_from(old(self), id@),
    {
        let ghost pre = *self;
        match self.get_node_index(id) {
            Some(i) => {
                self.task_id_to_index.remove(id);
                let _ = graph_remove_node(&mut self.tasks, i);
                proof {
                    assert(self.nodes().dom() =~= pre.nodes().dom().remove(i as nat));
                    assert(self.index().dom() =~= pre.index().dom().remove(id@));
                    assert forall|a: Seq<char>, b: Seq<char>| #[trigger]
                        self.edge_count(a, b) == if a == id@ || b == id@ {
                            0
                        } else {
                            pre.edge_count(a, b)
                        } by {
                        if self.ids().contains(a) && self.ids().contains(b) {
                            let e = (self.index()[a] as nat, self.index()[b] as nat);
                            assert(e.0 != i as nat && e.1 != i as nat);
                        }
                    }
                    assert forall|x: Seq<char>| #[trigger]
                        pre.index().contains_key(x) && pre.index()[x] as nat != i implies self.index().contains_key(
                        x,
                    ) && self.index()[x] == pre.index()[x] by {
                        assert(x != id@);
                    }
                    lemma_change_at_node(&pre, self, i as nat);
                }
            },
            None => {
                proof {
                    assert(self.index().dom() =~= pre.index().dom().remove(id@));
                }
            },
        }
    }

    /// Records that task `from` depends on task `to`. Both ids must be known; `from` is
    /// checked first. Repeated and circular dependencies are accepted.
    pub fn add_dependency(&mut self, from: &str, to: &str) -> (r: Result<(), DatabaseError>)
        requires
            old(self).wf(),
            old(self).dependency_total() < u32::MAX,
        ensures
            final(self).wf(),
            r is Ok <==> old(self).ids().contains(from@) && old(self).ids().contains(to@),
            r matches Err(DatabaseError::UnknownTaskId(bad)) ==> {
                &&& *final(self) == *old(self)
                &&& bad@ == if !old(self).ids().contains(from@) { from@ } else { to@ }
            },
            r is Ok ==> final(self).dependency_added_from(old(self), from@, to@),
    {
        let ghost pre = *self;
        let from_index = match self.get_node_index(from) {
            Some(i) => i,
            None => {
                return Err(DatabaseError::UnknownTaskId(String::from_str(from)));
            },
        };
        let to_index = match self.get_node_index(to) {
            Some(i) => i,
            None => {
                return Err(DatabaseError::UnknownTaskId(String::from_str(to)));
            },
        };
        graph_add_edge(&mut self.tasks, from_index, to_index);
        proof {
            assert forall|a: Seq<char>, b: Seq<char>| #[trigger]
                self.edge_count(a, b) == pre.edge_count(a, b) + if a == from@ && b == to@ {
                    1nat
                } else {
                    0nat
                } by {
                if self.ids().contains(a) && self.ids().contains(b) {
                    if self.index()[a] == from_index {
                        assert(self.nodes()[from_index as nat].id == a);
                    }
                    if self.index()[b] == to_index {
                        assert(self.nodes()[to_index as nat].id == b);
                    }
                }
            }
            assert forall|e: (nat, nat)| #[trigger]
                self.edges().count(e) > 0 implies self.nodes().contains_key(e.0) && self.nodes().contains_key(
                e.1,
            ) by {
                if e != (from_index as nat, to_index as nat) {
                    assert(pre.edges().count(e) > 0);
                }
            }
        }
        Ok(())
    }

    /// All tasks, each once, in storage order (which follows insertion order but is not
    /// guaranteed to).
    pub fn get_all_tasks(&self) -> (r: Vec<&Task>)
        requires
            self.wf(),
        ensures
            r@.len() == self.ids().len(),
            self.lists_in_storage_order(ids_of(r@)),
            ids_of(r@).no_duplicates(),
            ids_of(r@).to_set() == self.ids(),
            forall|k: int| 0 <= k < r@.len() ==> (#[trigger] r@[k])@ == self.task(r@[k]@.id),
    {
        let indices = graph_node_indices(&self.tasks);
        let mut r: Vec<&Task> = Vec::new();
        let mut k: usize = 0;
        while k < indices.len()
            invariant
                self.wf(),
                k <= indices@.len(),
                r@.len() == k,
                forall|j: int| 0 <= j < indices@.len() ==> self.nodes().contains_key(
                    #[trigger] indices@[j] as nat,
                ),
                forall|j: int| 0 <= j < k ==> (#[trigger] r@[j])@ == self.nodes()[indices@[j] as nat],
            decreases indices@.len() - k,
        {
            r.push(graph_node(&self.tasks, indices[k]));
            k += 1;
        }
        proof {
            let ids = ids_of(r@);
            assert forall|j: int| 0 <= j < r@.len() implies (#[trigger] r@[j])@ == self.task(
                r@[j]@.id,
            ) by {
                assert(self.nodes().contains_key(indices@[j] as nat));
            }
            assert forall|j: int, l: int| 0 <= j < ids.len() && 0 <= l < ids.len() && j != l implies ids[j]
                != ids[l] by {
                assert(self.nodes().contains_key(indices@[j] as nat));
                assert(self.nodes().contains_key(indices@[l] as nat));
                if j < l {
                    assert(indices@[j] < indices@[l]);
                } else {
                    assert(indices@[l] < indices@[j]);
                }
            }
            assert forall|id: Seq<char>| #[trigger] self.ids().contains(id) implies ids.to_set().contains(id) by {
                let i = self.index()[id] as nat;
                assert(self.nodes().contains_key(i));
                let k = choose|k: int| 0 <= k < indices@.len() && #[trigger] indices@[k] as nat == i;
                assert(ids[k] == id);
            }
            assert forall|id: Seq<char>| ids.to_set().contains(id) implies #[trigger] self.ids().contains(id) by {
                let k = choose|k: int| 0 <= k < ids.len() && ids[k] == id;
                assert(self.nodes().contains_key(indices@[k] as nat));
            }
            assert(ids.to_set() =~= self.ids());
            ids.unique_seq_to_set();
        }
        r
    }

    /// The tasks that `source` depends on, one entry per dependency edge.
    pub fn get_dependencies(&self, source: &str) -> (r: Result<Vec<&Task>, DatabaseError>)
        requires
            self.wf(),
        ensures
            r is Ok <==> self.ids().contains(source@),
            r matches Err(DatabaseError::UnknownTaskId(bad)) ==> bad@ == source@,
            r matches Ok(v) ==> {
                &&& forall|k: int| 0 <= k < v@.len() ==> #[trigger] self.ids().contains(v@[k]@.id)
                    && v@[k]@ == self.task(v@[k]@.id)
                &&& forall|b: Seq<char>| #[trigger]
                    ids_of(v@).to_multiset().count(b) == self.edge_count(source@, b)
            },
    {
        match self.get_node_index(source) {
            Some(i) => Ok(self.neighbor_tasks(i, true)),
            None => Err(DatabaseError::UnknownTaskId(String::from_str(source))),
        }
    }

    /// The tasks that depend on `target`, one entry per dependency edge.
    pub fn get_inverse_dependencies(&self, target: &str) -> (r: Result<Vec<&Task>, DatabaseError>)
        requires
            self.wf(),
        ensures
            r is Ok <==> self.ids().contains(target@),
            r matches Err(DatabaseError::UnknownTaskId(bad)) ==> bad@ == target@,
            r matches Ok(v) ==> {
                &&& forall|k: int| 0 <= k < v@.len() ==> #[trigger] self.ids().contains(v@[k]@.id)
                    && v@[k]@ == self.task(v@[k]@.id)
                &&& forall|a: Seq<char>| #[trigger]
                    ids_of(v@).to_multiset().count(a) == self.edge_count(a, target@)
            },
    {
        match self.get_node_index(target) {
            Some(i) => Ok(self.neighbor_tasks(i, false)),
            None => Err(DatabaseError::UnknownTaskId(String::from_str(target))),
        }
    }

    /// The tasks at the other end of the edges out of (`outgoing`) or into node `i`.
    fn neighbor_tasks(&self, i: usize, outgoing: bool) -> (r: Vec<&Task>)
        requires
            self.wf(),
            self.nodes().contains_key(i as nat),
        ensures
            forall|k: int| 0 <= k < r@.len() ==> #[trigger] self.ids().contains(r@[k]@.id)
                && r@[k]@ == self.task(r@[k]@.id),
            forall|b: Seq<char>| #[trigger]
                ids_of(r@).to_multiset().count(b) == if outgoing {
                    self.edge_count(self.nodes()[i as nat].id, b)
                } else {
                    self.edge_count(b, self.nodes()[i as nat].id)
                },
    {
        let others = graph_neighbors(&self.tasks, i, outgoing);
        let ghost pair = |j: nat| if outgoing { (i as nat, j) } else { (j, i as nat) };
        proof {
            assert forall|k: int| 0 <= k < others@.len() implies self.nodes().contains_key(
                #[trigger] others@[k] as nat,
            ) by {
                broadcast use vstd::seq_lib::group_to_multiset_ensures;
                assert(others@.contains(others@[k]));
                assert(others@.to_multiset().count(others@[k]) > 0);
                assert(self.edges().count(pair(others@[k] as nat)) > 0);
            }
        }
        let mut r: Vec<&Task> = Vec::new();
        let mut k: usize = 0;
        proof {
            broadcast use vstd::seq_lib::group_to_multiset_ensures;
            assert(ids_of(r@) =~= Seq::empty());
            assert(others@.take(0) =~= Seq::empty());
        }
        while k < others.len()
            invariant
                self.wf(),
                self.nodes().contains_key(i as nat),
                k <= others@.len(),
                r@.len() == k,
                forall|j: int| 0 <= j < others@.len() ==> self.nodes().contains_key(
                    #[trigger] others@[j] as nat,
                ),
                forall|j: int| 0 <= j < k ==> (#[trigger] r@[j])@ == self.nodes()[others@[j] as nat],
                forall|b: Seq<char>| #[trigger]
                    ids_of(r@).to_multiset().count(b) == if self.ids().contains(b) {
                        others@.take(k as int).to_multiset().count(self.index()[b])
                    } else {
                        0
                    },
            decreases others@.len() - k,
        {
            let t = graph_node(&self.tasks, others[k]);
            let ghost before = r@;
            r.push(t);
            proof {
                broadcast use vstd::seq_lib::group_to_multiset_ensures;
                assert(ids_of(r@) =~= ids_of(before).push(t@.id));
                assert(others@.take(k + 1) =~= others@.take(k as int).push(others@[k as int]));
                assert forall|b: Seq<char>| #[trigger]
                    ids_of(r@).to_multiset().count(b) == if self.ids().contains(b) {
                        others@.take(k + 1).to_multiset().count(self.index()[b])
                    } else {
                        0
                    } by {
                    assert(self.nodes().contains_key(others@[k as int] as nat));
                    if self.ids().contains(b) {
                        assert(self.nodes().contains_key(self.index()[b] as nat));
                    }
                }
            }
            k += 1;
        }
        proof {
            assert(others@.take(others@.len() as int) =~= others@);
            assert forall|j: int| 0 <= j < r@.len() implies #[trigger] self.ids().contains(r@[j]@.id)
                && r@[j]@ == self.task(r@[j]@.id) by {
                assert(self.nodes().contains_key(others@[j] as nat));
            }
        }
        r
    }

    /// The task with this id, if any.
    pub fn get_task(&self, id: &str) -> (r: Option<&Task>)
        requires
            self.wf(),
        ensures
            r is Some <==> self.ids().contains(id@),
            r matches Some(t) ==> t@ == self.task(id@),
    {
        match self.get_node_index(id) {
            Some(i) => Some(graph_node(&self.tasks, i)),
            None => None,
        }
    }

    /// Replaces the stored task that has the id of `task`; its dependencies stay.
    pub fn update_task(&mut self, task: Task) -> (r: Result<(), DatabaseError>)
        requires
            old(self).wf(),
        ensures
            final(self).wf(),
            r is Ok <==> old(self).ids().contains(task@.id),
            r matches Err(DatabaseError::UnknownTaskId(bad)) ==> bad@ == task@.id && *final(self) == *old(
                self,
            ),
            r is Ok ==> {
                &&& final(self).ids() == old(self).ids()
                &&& final(self).task(task@.id) == task@
                &&& forall|id: Seq<char>| #[trigger]
                    old(self).ids().contains(id) && id != task@.id ==> final(self).task(id) == old(
                        self,
                    ).task(id)
                &&& forall|a: Seq<char>, b: Seq<char>| #[trigger]
                    final(self).edge_count(a, b) == old(self).edge_count(a, b)
                &&& final(self).dependency_total() == old(self).dependency_total()
                &&& final(self).no_vacancy() == old(self).no_vacancy()
                &&& forall|s: Seq<Seq<char>>| #[trigger]
                    final(self).lists_in_storage_order(s) == old(self).lists_in_storage_order(s)
            },
    {
        let ghost pre = *self;
        match self.get_node_index(task.id.as_str()) {
            Some(i) => {
                graph_set_node(&mut self.tasks, i, task);
                proof {
                    assert(self.nodes().dom() =~= pre.nodes().dom());
                    assert forall|id: Seq<char>| #[trigger]
                        self.index().contains_key(id) implies {
                        &&& self.nodes().contains_key(self.index()[id] as nat)
                        &&& self.nodes()[self.index()[id] as nat].id == id
                    } by {
                        assert(pre.index().contains_key(id));
                    }
                    lemma_change_at_node(&pre, self, i as nat);
                }
                Ok(())
            },
            None => Err(DatabaseError::UnknownTaskId(task.id)),
        }
    }

    /// Resolves a task id to its node index.
    fn get_node_index(&self, id: &str) -> (r: Option<usize>)
        requires
            self.wf(),
        ensures
            r matches Some(i) ==> self.ids().contains(id@) && i == self.index()[id@],
            r is None ==> !self.ids().contains(id@),
    {
        match self.task_id_to_index.get(id) {
            Some(i) => Some(*i),
            None => None,
        }
    }
}

/// One change of the store, as [`Database::add_task`], [`Database::remove_task`] and
/// [`Database::add_dependency`] make it.
pub ghost enum StoreOp {
    Add(TaskView),
    Remove(Seq<char>),
    Depend(Seq<char>, Seq<char>),
}

/// `op` names ids that are valid in `prev`: a fresh id to add, a known id to remove, known ids
/// to join.
pub open spec fn valid_op(prev: &Database, op: StoreOp) -> bool {
    match op {
        StoreOp::Add(t) => !prev.ids().contains(t.id),
        StoreOp::Remove(id) => prev.ids().contains(id),
        StoreOp::Depend(a, b) => prev.ids().contains(a) && prev.ids().contains(b),
    }
}

/// `next` is what `op` leaves behind when applied to `prev`.
pub open spec fn applied(prev: &Database, op: StoreOp, next: &Database) -> bool {
    match op {
        StoreOp::Add(t) => next.added_from(prev, t),
        StoreOp::Remove(id) => next.removed_from(prev, id),
        StoreOp::Depend(a, b) => next.dependency_added_from(prev, a, b),
    }
}

/// Number of additions minus number of removals in `ops`.
pub open spec fn net_additions(ops: Seq<StoreOp>) -> int
    decreases ops.len(),
{
    if ops.len() == 0 {
        0
    } else {
        net_additions(ops.drop_last()) + match ops.last() {
            StoreOp::Add(_) => 1int,
            StoreOp::Remove(_) => -1int,
            StoreOp::Depend(_, _) => 0int,
        }
    }
}

/// Starting from an empty store, after any run of additions, removals and new dependencies
/// with valid ids, the store holds as many tasks (and [`Database::get_all_tasks`] returns as
/// many) as there were additions minus removals.
pub proof fn lemma_task_count(h: Seq<Database>, ops: Seq<StoreOp>)
    requires
        h.len() == ops.len() + 1,
        h[0].wf(),
        h[0].ids().is_empty(),
        forall|i: int| 0 <= i < ops.len() ==> #[trigger] valid_op(&h[i], ops[i]) && applied(
            &h[i],
            ops[i],
            &h[i + 1],
        ),
    ensures
        h.last().ids().len() == net_additions(ops),
    decreases ops.len(),
{
    if ops.len() == 0 {
        assert(h[0].ids() =~= Set::empty());
    } else {
        let n = ops.len() - 1;
        assert(h.drop_last().len() == ops.drop_last().len() + 1);
        assert forall|i: int| 0 <= i < ops.drop_last().len() implies #[trigger] valid_op(
            &h.drop_last()[i],
            ops.drop_last()[i],
        ) && applied(&h.drop_last()[i], ops.drop_last()[i], &h.drop_last()[i + 1]) by {
            assert(valid_op(&h[i], ops[i]));
        }
        lemma_task_count(h.drop_last(), ops.drop_last());
        assert(valid_op(&h[n], ops[n]) && applied(&h[n], ops[n], &h[n + 1]));
        if n > 0 {
            assert(valid_op(&h[n - 1], ops[n - 1]) && applied(&h[n - 1], ops[n - 1], &h[(n - 1) + 1]));
        }
        lemma_ids_finite(&h[n]);
    }
}

/// A change confined to node `i` keeps every node indexed under its id and every edge between
/// live nodes.
proof fn lemma_change_at_node(pre: &Database, post: &Database, i: nat)
    requires
        pre.wf(),
        pre.slots() <= post.slots(),
        forall|j: nat| j != i ==> (#[trigger] post.nodes().contains_key(j) <==> pre.nodes().contains_key(j)),
        forall|j: nat| j != i && #[trigger] post.nodes().contains_key(j) ==> post.nodes()[j] == pre.nodes()[j],
        forall|id: Seq<char>| #[trigger]
            pre.index().contains_key(id) && pre.index()[id] as nat != i ==> post.index().contains_key(id)
                && post.index()[id] == pre.index()[id],
        post.nodes().contains_key(i) ==> {
            &&& i < u32::MAX
            &&& i < post.slots()
            &&& post.index().contains_key(post.nodes()[i].id)
            &&& post.index()[post.nodes()[i].id] as nat == i
        },
        forall|e: (nat, nat)| #[trigger]
            post.edges().count(e) > 0 ==> pre.edges().count(e) > 0 && (post.nodes().contains_key(i) || (
            e.0 != i && e.1 != i)),
    ensures
        forall|j: nat| #[trigger]
            post.nodes().contains_key(j) ==> {
                &&& j < u32::MAX
                &&& j < post.slots()
                &&& post.index().contains_key(post.nodes()[j].id)
                &&& post.index()[post.nodes()[j].id] as nat == j
            },
        forall|e: (nat, nat)| #[trigger]
            post.edges().count(e) > 0 ==> post.nodes().contains_key(e.0) && post.nodes().contains_key(e.1),
{
    assert forall|j: nat| #[trigger] post.nodes().contains_key(j) implies {
        &&& j < u32::MAX
        &&& j < post.slots()
        &&& post.index().contains_key(post.nodes()[j].id)
        &&& post.index()[post.nodes()[j].id] as nat == j
    } by {
        if j != i {
            assert(pre.nodes().contains_key(j));
            assert(pre.index().contains_key(pre.nodes()[j].id));
        }
    }
    assert forall|e: (nat, nat)| #[trigger] post.edges().count(e) > 0 implies post.nodes().contains_key(e.0)
        && post.nodes().contains_key(e.1) by {
        assert(pre.edges().count(e) > 0);
        if e.0 != i {
            assert(pre.nodes().contains_key(e.0));
        }
        if e.1 != i {
            assert(pre.nodes().contains_key(e.1));
        }
    }
}

/// Storage order is one sequence: two listings of the ids in storage order are equal.
pub proof fn lemma_storage_order_unique(db: &Database, s: Seq<Seq<char>>, t: Seq<Seq<char>>)
    requires
        db.lists_in_storage_order(s),
        db.lists_in_storage_order(t),
    ensures
        s == t,
{
    s.unique_seq_to_set();
    t.unique_seq_to_set();
    if s.len() > 0 {
        lemma_storage_order_prefix(db, s, t, s.len() - 1);
    }
    assert(s =~= t);
}

proof fn lemma_storage_order_prefix(db: &Database, s: Seq<Seq<char>>, t: Seq<Seq<char>>, j: int)
    requires
        db.lists_in_storage_order(s),
        db.lists_in_storage_order(t),
        s.len() == t.len(),
        0 <= j < s.len(),
    ensures
        forall|i: int| 0 <= i <= j ==> s[i] == t[i],
    decreases j,
{
    if j > 0 {
        lemma_storage_order_prefix(db, s, t, j - 1);
    }
    if s[j] != t[j] {
        assert(s.to_set().contains(s[j]));
        assert(t.to_set().contains(s[j]));
        let l = choose|l: int| 0 <= l < t.len() && t[l] == s[j];
        assert(t.to_set().contains(t[j]));
        assert(s.to_set().contains(t[j]));
        let m = choose|m: int| 0 <= m < s.len() && s[m] == t[j];
        if l < j {
            assert(s[l] == t[l]);
        } else if m < j {
            assert(s[m] == t[m]);
        } else {
            assert(db.index()[t[j]] < db.index()[t[l]]);
            assert(db.index()[s[j]] < db.index()[s[m]]);
        }
    }
}

/// A dependency joins two tasks of the store.
pub proof fn lemma_edge_ends_known(db: &Database, a: Seq<char>, b: Seq<char>)
    ensures
        db.edge_count(a, b) > 0 ==> db.ids().contains(a) && db.ids().contains(b),
{
}

/// The ids of a well-formed store form a finite set.
pub proof fn lemma_ids_finite(db: &Database)
    requires
        db.wf(),
    ensures
        db.ids().finite(),
{
}

/// Removing a task removes exactly the dependencies from or to it; every other task keeps its
/// id and content, and every other dependency stays.
pub proof fn lemma_remove_keeps_others(prev: &Database, next: &Database, id: Seq<char>)
    requires
        prev.wf(),
        next.removed_from(prev, id),
    ensures
        !next.ids().contains(id),
        forall|other: Seq<char>| #[trigger]
            prev.ids().contains(other) && other != id ==> next.ids().contains(other) && next.task(other)
                == prev.task(other),
        forall|a: Seq<char>, b: Seq<char>| #[trigger]
            next.edge_count(a, b) == if a == id || b == id {
                0
            } else {
                prev.edge_count(a, b)
            },
{
}

impl Clone for Database {
    /// A copy with the same node indices, tasks and dependencies.
    fn clone(&self) -> (r: Self)
        ensures
            self.wf() ==> r.wf() && r.same_contents(self) && r.dependency_total()
                == self.dependency_total(),
    {
        let tasks = graph_clone(&self.tasks);
        let mut task_id_to_index: StringHashMap<usize> = StringHashMap::new();
        let indices = graph_node_indices(&tasks);
        let mut k: usize = 0;
        while k < indices.len()
            invariant
                graph_nodes(tasks) == self.nodes(),
                k <= indices@.len(),
                forall|j: int| 0 <= j < indices@.len() ==> self.nodes().contains_key(
                    #[trigger] indices@[j] as nat,
                ),
                forall|i: nat| self.nodes().contains_key(i) ==> exists|j: int|
                    0 <= j < indices@.len() && #[trigger] indices@[j] as nat == i,
                forall|id: Seq<char>| #[trigger]
                    task_id_to_index@.contains_key(id) <==> exists|j: int|
                        0 <= j < k && self.nodes()[#[trigger] indices@[j] as nat].id == id,
                forall|id: Seq<char>| #[trigger]
                    task_id_to_index@.contains_key(id) ==> self.nodes().contains_key(
                        task_id_to_index@[id] as nat,
                    ) && self.nodes()[task_id_to_index@[id] as nat].id == id,
            decreases indices@.len() - k,
        {
            let i = indices[k];
            let id = graph_node(&tasks, i).id.clone();
            task_id_to_index.insert(id, i);
            proof {
                assert forall|x: Seq<char>| #[trigger]
                    task_id_to_index@.contains_key(x) implies exists|j: int|
                        0 <= j < k + 1 && self.nodes()[#[trigger] indices@[j] as nat].id == x by {
                    if x == id@ {
                        assert(self.nodes()[indices@[k as int] as nat].id == x);
                    }
                }
            }
            k += 1;
        }
        let r = Database { tasks, task_id_to_index };
        proof {
            if self.wf() {
                assert forall|id: Seq<char>| r.index().contains_key(id) implies self.index().contains_key(id)
                    && r.index()[id] == self.index()[id] by {
                    let j = choose|j: int|
                        0 <= j < k && self.nodes()[#[trigger] indices@[j] as nat].id == id;
                    assert(self.nodes().contains_key(indices@[j] as nat));
                }
                assert forall|id: Seq<char>| self.index().contains_key(id) implies #[trigger] r.index().contains_key(id) by {
                    let i = self.index()[id] as nat;
                    assert(self.nodes().contains_key(i));
                    let j = choose|j: int| 0 <= j < indices@.len() && #[trigger] indices@[j] as nat == i;
                    assert(self.nodes()[indices@[j] as nat].id == id);
                }
                assert(r.index() =~= self.index());
                assert(r.nodes() == self.nodes());
                assert(r.edges() == self.edges());
                assert(r.wf());
                assert(r.same_contents(self));
            }
        }
        r
    }
}

impl Default for Database {
    fn default() -> (r: Self)
        ensures
            r.wf(),
            r.ids() == Set::<Seq<char>>::empty(),
            r.dependency_total() == 0,
    {
        Database::new()
    }
}

} // verus!
