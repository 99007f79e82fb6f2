//! Tasks, their timestamps and their identifiers.

use time::OffsetDateTime;
use vstd::prelude::*;
use vstd::string::{StrSliceExecFns, StringExecFns};

verus! {

/// Characters a task id is drawn from: digits and letters, without the easily confused
/// `0`, `1`, `I`, `O` and `l`.
pub const ID_ALPHABET: &'static str = "23456789ABCDEFGHJKLMNPQRSTUVWXYZabcdefghijkmnopqrstuvwxyz";

/// Number of characters in [`ID_ALPHABET`].
pub const ID_ALPHABET_LEN: u64 = 57;

/// Number of characters in a task id.
pub const ID_LEN: usize = 10;

/// The alphabet as a sequence.
pub open spec fn id_alphabet() -> Seq<char> {
    ID_ALPHABET@
}

/// The id made from `seed`: its base-57 digits, least significant first, each written as a
/// character of [`ID_ALPHABET`], for [`ID_LEN`] digits.
pub open spec fn id_from_seed(seed: nat, len: nat) -> Seq<char>
    decreases len,
{
    if len == 0 {
        Seq::empty()
    } else {
        seq![id_alphabet()[(seed % 57) as int]].add(id_from_seed(seed / 57, (len - 1) as nat))
    }
}

/// Builds a task id from a random number; the caller supplies the randomness.
pub fn generate_unique_id(seed: u64) -> (r: String)
    ensures
        r@ == id_from_seed(seed as nat, ID_LEN as nat),
        r@.len() == ID_LEN,
{
    proof {
        reveal_strlit("23456789ABCDEFGHJKLMNPQRSTUVWXYZabcdefghijkmnopqrstuvwxyz");
    }
    let alphabet: &str = ID_ALPHABET;
    let mut r = String::new();
    let mut rest: u64 = seed;
    let mut i: usize = 0;
    while i < ID_LEN
        invariant
            i <= ID_LEN,
            alphabet@ == id_alphabet(),
            alphabet@.len() == 57,
            r@ + id_from_seed(rest as nat, (ID_LEN - i) as nat) == id_from_seed(seed as nat, ID_LEN as nat),
            r@.len() == i,
        decreases ID_LEN - i,
    {
        let d: u64 = rest % ID_ALPHABET_LEN;
        let digit = alphabet.substring_char(d as usize, d as usize + 1);
        let ghost before = r@;
        r.append(digit);
        proof {
            assert(digit@ =~= seq![id_alphabet()[(rest % 57) as int]]);
            assert(r@ + id_from_seed(rest as nat / 57, (ID_LEN - i - 1) as nat) =~= before
                + id_from_seed(rest as nat, (ID_LEN - i) as nat));
        }
        rest = rest / ID_ALPHABET_LEN;
        i = i + 1;
    }
    assert(r@ + id_from_seed(rest as nat, 0) =~= r@);
    r
}

/// A point in time: nanoseconds since the Unix epoch, and the UTC offset it was observed in.
#[derive(Clone, Copy, Debug, PartialEq, Eq, Structural)]
pub struct Timestamp {
    /// Nanoseconds since 1970-01-01T00:00:00Z.
    pub unix_nanos: i128,
    /// Offset from UTC, in seconds.
    pub offset_seconds: i32,
}

/// Relies on `time::OffsetDateTime::now_local`: the current time in the local offset, or
/// nothing where that offset cannot be determined.
#[verifier::external_body]
fn local_now() -> (r: Option<Timestamp>) {
    match OffsetDateTime::now_local() {
        Ok(t) => Some(
            Timestamp { unix_nanos: t.unix_timestamp_nanos(), offset_seconds: t.offset().whole_seconds() },
        ),
        Err(_) => None,
    }
}

/// Relies on `time::OffsetDateTime::now_utc`: the current time, in UTC.
#[verifier::external_body]
fn utc_now() -> (r: Timestamp)
    ensures
        r.offset_seconds == 0,
{
    let t = OffsetDateTime::now_utc();
    Timestamp { unix_nanos: t.unix_timestamp_nanos(), offset_seconds: t.offset().whole_seconds() }
}

/// The current time: in the local offset where it can be determined, else in UTC.
fn current_time() -> (r: Timestamp) {
    match local_now() {
        Some(t) => t,
        None => utc_now(),
    }
}

/// What a task holds, as mathematical values.
pub ghost struct TaskView {
    pub id: Seq<char>,
    pub title: Seq<char>,
    pub time_created: Timestamp,
    pub time_started: Option<Timestamp>,
    pub time_completed: Option<Timestamp>,
    pub tags: Seq<String>,
}

/// A unit of work in the task graph.
#[derive(Debug)]
pub struct Task {
    /// A unique id for the task; it is set once, when the task is created.
    pub id: String,
    /// A short description of the task.
    pub title: String,
    /// When the task has been created.
    pub time_created: Timestamp,
    /// If the task has been started, this is when that happened.
    pub time_started: Option<Timestamp>,
    /// If the task has been completed, this is when that happened.
    pub time_completed: Option<Timestamp>,
    /// A list of tags for the task.
    pub tags: Vec<String>,
}

impl View for Task {
    type V = TaskView;

    open spec fn view(&self) -> TaskView {
        TaskView {
            id: self.id@,
            title: self.title@,
            time_created: self.time_created,
            time_started: self.time_started,
            time_completed: self.time_completed,
            tags: self.tags@,
        }
    }
}

impl Clone for Task {
    fn clone(&self) -> (r: Self)
        ensures
            r@ == self@,
    {
        let tags = self.tags.clone();
        assert(tags@ =~= self.tags@);
        Task {
            id: self.id.clone(),
            title: self.title.clone(),
            time_created: self.time_created,
            time_started: self.time_started,
            time_completed: self.time_completed,
            tags,
        }
    }
}

impl Task {
    /// A task with the given id, title and creation time, not started, not completed and
    /// without tags.
    pub fn new(id: String, title: String, time_created: Timestamp) -> (r: Self)
        ensures
            r@ == (TaskView {
                id: id@,
                title: title@,
                time_created,
                time_started: None,
                time_completed: None,
                tags: Seq::empty(),
            }),
    {
        Task { id, title, time_created, time_started: None, time_completed: None, tags: Vec::new() }
    }

    /// Creates a new task with the given title, created now, with an id built from `seed`
    /// (see [`generate_unique_id`]).
    pub fn create_now(title: String, seed: u64) -> (r: Self)
        ensures
            r@.id == id_from_seed(seed as nat, ID_LEN as nat),
            r@.title == title@,
            r@.time_started is None,
            r@.time_completed is None,
            r@.tags.len() == 0,
    {
        let time_created = current_time();
        Task::new(generate_unique_id(seed), title, time_created)
    }

    /// Gets the id of the task.
    pub fn id(&self) -> (r: &String)
        ensures
            r@ == self@.id,
    {
        &self.id
    }
}

/// The edge payload of the task graph: an edge from `a` to `b` means that `a` depends on `b`.
#[derive(Clone, Copy, Debug, Default, PartialEq, Eq, Structural)]
pub struct TaskDependency {}

impl TaskDependency {
    /// The (only) dependency value.
    pub fn new() -> (r: Self)
        ensures
            r == (TaskDependency {}),
    {
        TaskDependency {}
    }
}

} // verus!
