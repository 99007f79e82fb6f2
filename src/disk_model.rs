//! The shape in which the database is stored: a flat list of tasks, each with the ids of the
//! tasks it depends on. Node positions never leave memory.

use vstd::prelude::*;
use vstd::string::StringExecFns;

use crate::database::{ids_of, lemma_edge_ends_known, Database};
use crate::errors::DatabaseReadError;
use crate::task::{Task, TaskView};

verus! {

broadcast use {vstd::set::group_set_axioms, vstd::seq_lib::group_to_multiset_ensures};

/// A stored task and the ids it depends on.
pub ghost struct RecordView {
    pub task: TaskView,
    pub dependencies: Seq<Seq<char>>,
}

/// One task as stored on disk.
#[derive(Debug)]
pub struct TaskDiskModel {
    /// Ids of the tasks the task depends on, one entry per dependency.
    pub dependencies: Vec<String>,
    /// The task itself.
    pub task: Task,
}

impl View for TaskDiskModel {
    type V = RecordView;

    open spec fn view(&self) -> RecordView {
        RecordView { task: self.task@, dependencies: self.dependencies@.map_values(|s: String| s@) }
    }
}

impl TaskDiskModel {
    /// A record for `task` without dependencies.
    pub fn new(task: Task) -> (r: Self)
        ensures
            r@.task == task@,
            r@.dependencies.len() == 0,
    {
        TaskDiskModel { task, dependencies: Vec::new() }
    }
}

/// The database as stored on disk: its tasks in storage order.
#[derive(Debug)]
pub struct DatabaseDiskModel {
    /// One record per task.
    pub tasks: Vec<TaskDiskModel>,
}

impl View for DatabaseDiskModel {
    type V = Seq<RecordView>;

    open spec fn view(&self) -> Seq<RecordView> {
        self.tasks@.map_values(|t: TaskDiskModel| t@)
    }
}

/// The task ids of a list of records, in order.
pub open spec fn record_ids(records: Seq<RecordView>) -> Seq<Seq<char>> {
    records.map_values(|r: RecordView| r.task.id)
}

/// Every dependency of every record names the id of a record.
pub open spec fn dependencies_resolve(records: Seq<RecordView>) -> bool {
    forall|k: int, j: int|
        0 <= k < records.len() && 0 <= j < records[k].dependencies.len() ==> record_ids(
            records,
        ).contains(#[trigger] records[k].dependencies[j])
}

/// Every dependency of record `k` names the id of a record.
pub open spec fn dependencies_resolve_at(records: Seq<RecordView>, k: int) -> bool {
    forall|j: int| 0 <= j < records[k].dependencies.len() ==> record_ids(records).contains(
        #[trigger] records[k].dependencies[j],
    )
}

/// The dependencies of the first `k + 1` records are those of the first `k` and of record `k`,
/// and never more than those of all records.
proof fn lemma_dependency_total_prefix(records: Seq<RecordView>, k: int)
    requires
        0 <= k < records.len(),
    ensures
        dependency_total(records.take(k + 1)) == dependency_total(records.take(k)) + records[k].dependencies.len(),
        dependency_total(records.take(k + 1)) <= dependency_total(records),
    decreases records.len(),
{
    assert(records.take(k + 1).drop_last() =~= records.take(k));
    if k + 1 < records.len() {
        lemma_dependency_total_prefix(records.drop_last(), k);
        assert(records.drop_last().take(k + 1) =~= records.take(k + 1));
    } else {
        assert(records.take(k + 1) =~= records);
    }
}

/// The total number of dependencies over all records.
pub open spec fn dependency_total(records: Seq<RecordView>) -> nat
    decreases records.len(),
{
    if records.len() == 0 {
        0
    } else {
        dependency_total(records.drop_last()) + records.last().dependencies.len()
    }
}

/// `records` lists the tasks of `db` in storage order, each once, each with its dependencies.
pub open spec fn describes(records: Seq<RecordView>, db: &Database) -> bool {
    &&& db.lists_in_storage_order(record_ids(records))
    &&& record_ids(records).no_duplicates()
    &&& record_ids(records).to_set() == db.ids()
    &&& forall|k: int| 0 <= k < records.len() ==> #[trigger] records[k].task == db.task(records[k].task.id)
    &&& forall|k: int, b: Seq<char>|
        0 <= k < records.len() ==> #[trigger] records[k].dependencies.to_multiset().count(b)
            == db.edge_count(records[k].task.id, b)
}

/// `db` holds exactly the records, in record order: their tasks under their ids, and their
/// dependencies.
pub open spec fn loaded_from(db: &Database, records: Seq<RecordView>) -> bool {
    &&& db.wf()
    &&& db.lists_in_storage_order(record_ids(records))
    &&& db.ids() == record_ids(records).to_set()
    &&& forall|k: int| 0 <= k < records.len() ==> db.task(#[trigger] records[k].task.id) == records[k].task
    &&& forall|k: int, b: Seq<char>|
        0 <= k < records.len() ==> #[trigger] db.edge_count(records[k].task.id, b)
            == records[k].dependencies.to_multiset().count(b)
}

/// What [`Database::to_disk_model`] produces is accepted by [`Database::from_disk_model`]:
/// no id occurs twice and every dependency resolves.
pub proof fn lemma_described_loads(db: &Database, records: Seq<RecordView>)
    requires
        describes(records, db),
    ensures
        record_ids(records).no_duplicates(),
        dependencies_resolve(records),
{
    assert forall|k: int, j: int|
        0 <= k < records.len() && 0 <= j < records[k].dependencies.len() implies record_ids(
            records,
        ).contains(#[trigger] records[k].dependencies[j]) by {
        let b = records[k].dependencies[j];
        assert(records[k].dependencies.contains(b));
        assert(records[k].dependencies.to_multiset().count(b) > 0);
        lemma_edge_ends_known(db, records[k].task.id, b);
        assert(record_ids(records).to_set().contains(b));
    }
}

/// Converting a database to its stored shape and back gives a database with the same ids,
/// the same task contents and the same dependencies.
pub proof fn lemma_round_trip(db: &Database, records: Seq<RecordView>, back: &Database)
    requires
        describes(records, db),
        loaded_from(back, records),
    ensures
        back.same_contents(db),
{
    let ids = record_ids(records);
    assert forall|id: Seq<char>| #[trigger] back.ids().contains(id) implies back.task(id) == db.task(id) by {
        assert(ids.to_set().contains(id));
        let k = choose|k: int| 0 <= k < ids.len() && ids[k] == id;
        assert(records[k].task.id == id);
    }
    assert forall|a: Seq<char>, b: Seq<char>| #[trigger] back.edge_count(a, b) == db.edge_count(a, b) by {
        lemma_edge_ends_known(db, a, b);
        lemma_edge_ends_known(back, a, b);
        if ids.contains(a) {
            let k = choose|k: int| 0 <= k < ids.len() && ids[k] == a;
            assert(records[k].task.id == a);
            assert(back.edge_count(records[k].task.id, b) == records[k].dependencies.to_multiset().count(b));
            assert(records[k].dependencies.to_multiset().count(b) == db.edge_count(records[k].task.id, b));
        } else {
            assert(!ids.to_set().contains(a));
        }
    }
}

impl DatabaseDiskModel {
    /// A model holding these records.
    pub fn new(tasks: Vec<TaskDiskModel>) -> (r: Self)
        ensures
            r@ == tasks@.map_values(|t: TaskDiskModel| t@),
    {
        DatabaseDiskModel { tasks }
    }
}

impl Database {
    /// Rebuilds a database from its stored shape: one task per record, in record order, then
    /// one dependency per listed id. Two records with one id, or a dependency on an id that no
    /// record has, make it fail.
    pub fn from_disk_model(model: &DatabaseDiskModel) -> (r: Result<Database, DatabaseReadError>)
        requires
            model@.len() < u32::MAX,
            dependency_total(model@) < u32::MAX,
        ensures
            r is Ok <==> record_ids(model@).no_duplicates() && dependencies_resolve(model@),
            r matches Ok(db) ==> loaded_from(&db, model@),
            r matches Err(DatabaseReadError::DuplicateTaskId(id)) ==> {
                &&& !record_ids(model@).no_duplicates()
                &&& exists|k: int, l: int|
                    0 <= k < l < model@.len() && #[trigger] model@[k].task.id == id@
                        && #[trigger] model@[l].task.id == id@
            },
            r matches Err(DatabaseReadError::UnresolvedDependency(id)) ==> {
                &&& record_ids(model@).no_duplicates()
                &&& !record_ids(model@).contains(id@)
                &&& exists|k: int, j: int|
                    0 <= k < model@.len() && 0 <= j < model@[k].dependencies.len()
                        && #[trigger] model@[k].dependencies[j] == id@
            },
            r is Err ==> r matches Err(DatabaseReadError::DuplicateTaskId(_))
                || r matches Err(DatabaseReadError::UnresolvedDependency(_)),
    {
        let ghost records = model@;
        let mut db = Database::new();
        proof {
            assert(record_ids(records).take(0) =~= Seq::<Seq<char>>::empty());
        }
        let mut k: usize = 0;
        // store nodes
        while k < model.tasks.len()
            invariant
                records == model@,
                records.len() < u32::MAX,
                k <= records.len(),
                db.wf(),
                db.no_vacancy(),
                db.lists_in_storage_order(record_ids(records).take(k as int)),
                db.dependency_total() == 0,
                db.ids() == record_ids(records).take(k as int).to_set(),
                record_ids(records).take(k as int).no_duplicates(),
                forall|j: int| 0 <= j < k ==> db.task(#[trigger] records[j].task.id) == records[j].task,
                forall|a: Seq<char>, b: Seq<char>| #[trigger] db.edge_count(a, b) == 0,
            decreases records.len() - k,
        {
            let record = &model.tasks[k];
            proof {
                assert(records[k as int] == record@);
                assert(record_ids(records).take(k as int).to_set().len() == k) by {
                    record_ids(records).take(k as int).unique_seq_to_set();
                }
            }
            if db.contains(record.task.id.as_str()) {
                proof {
                    let ids = record_ids(records);
                    assert(ids.take(k as int).to_set().contains(record@.task.id));
                    let l = choose|l: int| 0 <= l < k && ids.take(k as int)[l] == record@.task.id;
                    assert(ids[l] == ids[k as int]);
                    assert(records[l].task.id == record@.task.id);
                }
                return Err(DatabaseReadError::DuplicateTaskId(record.task.id.clone()));
            }
            let ghost pre = db;
            db.add_task(record.task.clone());
            proof {
                let ids = record_ids(records);
                assert(ids.take(k + 1) =~= ids.take(k as int).push(ids[k as int]));
                ids.take(k as int).lemma_push_to_set_commute(ids[k as int]);
                assert forall|j: int| 0 <= j < k + 1 implies db.task(#[trigger] records[j].task.id)
                    == records[j].task by {
                    if j < k {
                        assert(ids.take(k as int)[j] == records[j].task.id);
                        assert(pre.ids().contains(records[j].task.id));
                    }
                }
            }
            k += 1;
        }
        proof {
            assert(record_ids(records).take(records.len() as int) =~= record_ids(records));
        }
        // store edges
        let ghost ids = record_ids(records);
        let mut k: usize = 0;
        while k < model.tasks.len()
            invariant
                records == model@,
                ids == record_ids(records),
                ids.no_duplicates(),
                dependency_total(records) < u32::MAX,
                k <= records.len(),
                db.wf(),
                db.lists_in_storage_order(ids),
                db.ids() == ids.to_set(),
                db.dependency_total() == dependency_total(records.take(k as int)),
                forall|j: int| 0 <= j < records.len() ==> db.task(#[trigger] records[j].task.id) == records[j].task,
                forall|j: int| 0 <= j < k ==> dependencies_resolve_at(records, j),
                forall|j: int, b: Seq<char>|
                    0 <= j < records.len() ==> #[trigger] db.edge_count(records[j].task.id, b) == if j < k {
                        records[j].dependencies.to_multiset().count(b)
                    } else {
                        0
                    },
            decreases records.len() - k,
        {
            let record = &model.tasks[k];
            let source = record.task.id.as_str();
            let mut d: usize = 0;
            proof {
                assert(records[k as int] == record@);
                lemma_dependency_total_prefix(records, k as int);
            }
            while d < record.dependencies.len()
                invariant
                    records == model@,
                    ids == record_ids(records),
                    ids.no_duplicates(),
                    dependency_total(records) < u32::MAX,
                    k < records.len(),
                    records[k as int] == record@,
                    source@ == record@.task.id,
                    d <= record@.dependencies.len(),
                    dependency_total(records.take(k as int)) + record@.dependencies.len() <= dependency_total(records),
                    db.wf(),
                    db.lists_in_storage_order(ids),
                    db.ids() == ids.to_set(),
                    db.dependency_total() == dependency_total(records.take(k as int)) + d,
                    forall|j: int| 0 <= j < records.len() ==> db.task(#[trigger] records[j].task.id) == records[j].task,
                    forall|i: int| 0 <= i < d ==> ids.contains(#[trigger] record@.dependencies[i]),
                    forall|j: int, b: Seq<char>|
                        0 <= j < records.len() ==> #[trigger] db.edge_count(records[j].task.id, b) == if j < k {
                            records[j].dependencies.to_multiset().count(b)
                        } else if j == k {
                            record@.dependencies.take(d as int).to_multiset().count(b)
                        } else {
                            0
                        },
                decreases record@.dependencies.len() - d,
            {
                let target = record.dependencies[d].as_str();
                proof {
                    assert(target@ == record@.dependencies[d as int]);
                }
                if !db.contains(target) {
                    proof {
                        assert(!ids.contains(target@)) by {
                            if ids.contains(target@) {
                                let l = choose|l: int| 0 <= l < ids.len() && ids[l] == target@;
                                assert(ids.to_set().contains(target@));
                            }
                        }
                    }
                    return Err(DatabaseReadError::UnresolvedDependency(String::from_str(target)));
                }
                proof {
                    assert(ids.contains(source@)) by {
                        assert(ids[k as int] == source@);
                    }
                    assert(ids.to_set().contains(source@));
                }
                let added = db.add_dependency(source, target);
                proof {
                    assert(added is Ok);
                    assert forall|j: int| 0 <= j < records.len() implies db.task(#[trigger] records[j].task.id)
                        == records[j].task by {
                        assert(ids[j] == records[j].task.id);
                        assert(ids.to_set().contains(ids[j]));
                    }
                    let deps = record@.dependencies;
                    assert(deps.take(d + 1) =~= deps.take(d as int).push(deps[d as int]));
                    assert forall|j: int, b: Seq<char>|
                        0 <= j < records.len() implies #[trigger] db.edge_count(records[j].task.id, b) == if j < k {
                            records[j].dependencies.to_multiset().count(b)
                        } else if j == k {
                            deps.take(d + 1).to_multiset().count(b)
                        } else {
                            0
                        } by {
                        if j != k {
                            assert(ids[j] != ids[k as int]);
                        }
                    }
                    assert(ids.contains(target@)) by {
                        assert(ids.to_set().contains(target@));
                    }
                }
                d += 1;
            }
            proof {
                assert(record@.dependencies.take(record@.dependencies.len() as int) =~= record@.dependencies);
                assert(records.take(k + 1).drop_last() =~= records.take(k as int));
            }
            k += 1;
        }
        proof {
            assert(records.take(records.len() as int) =~= records);
            assert(dependencies_resolve(records)) by {
                assert forall|j: int, i: int|
                    0 <= j < records.len() && 0 <= i < records[j].dependencies.len() implies ids.contains(
                        #[trigger] records[j].dependencies[i],
                    ) by {
                    assert(dependencies_resolve_at(records, j));
                }
            }
        }
        Ok(db)
    }

    /// Converts the database to its stored shape: one record per task, in storage order,
    /// listing the ids of the tasks it depends on.
    pub fn to_disk_model(&self) -> (r: DatabaseDiskModel)
        requires
            self.wf(),
        ensures
            describes(r@, self),
    {
        let all = self.get_all_tasks();
        let mut tasks: Vec<TaskDiskModel> = Vec::new();
        let mut k: usize = 0;
        while k < all.len()
            invariant
                self.wf(),
                k <= all@.len(),
                tasks@.len() == k,
                ids_of(all@).no_duplicates(),
                ids_of(all@).to_set() == self.ids(),
                forall|j: int| 0 <= j < all@.len() ==> (#[trigger] all@[j])@ == self.task(all@[j]@.id),
                forall|j: int| 0 <= j < k ==> (#[trigger] tasks@[j])@.task == all@[j]@,
                forall|j: int, b: Seq<char>|
                    0 <= j < k ==> #[trigger] tasks@[j]@.dependencies.to_multiset().count(b)
                        == self.edge_count(all@[j]@.id, b),
            decreases all@.len() - k,
        {
            let t = all[k];
            proof {
                assert(ids_of(all@)[k as int] == t@.id);
            }
            let deps = match self.get_dependencies(t.id.as_str()) {
                Ok(v) => v,
                Err(_) => Vec::new(),
            };
            let mut dependencies: Vec<String> = Vec::new();
            let mut j: usize = 0;
            while j < deps.len()
                invariant
                    j <= deps@.len(),
                    dependencies@.map_values(|s: String| s@) == ids_of(deps@).take(j as int),
                decreases deps@.len() - j,
            {
                let ghost before = dependencies@;
                dependencies.push(deps[j].id.clone());
                proof {
                    assert(dependencies@.map_values(|s: String| s@) =~= before.map_values(
                        |s: String| s@,
                    ).push(deps@[j as int]@.id));
                    assert(ids_of(deps@).take(j + 1) =~= ids_of(deps@).take(j as int).push(
                        deps@[j as int]@.id,
                    ));
                }
                j += 1;
            }
            proof {
                assert(ids_of(deps@).take(deps@.len() as int) =~= ids_of(deps@));
            }
            tasks.push(TaskDiskModel { dependencies, task: t.clone() });
            k += 1;
        }
        let r = DatabaseDiskModel { tasks };
        proof {
            assert(record_ids(r@) =~= ids_of(all@));
        }
        r
    }
}

} // verus!
