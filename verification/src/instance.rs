//! The stand's state: whether the measured application is already running, and
//! which database schema the measurement will meet.
//!
//! Both questions go to service files of a foreign format (the single-instance
//! lock `instance.lock`, its record `instance.json`, and the `_migrations`
//! table of `exchanges.db`). The reading itself is done by the caller; this
//! module decides, step by step, what to read next and what the answer is.

use vstd::prelude::*;
use crate::paths::{dir_part, dir_part_of, join, joined, PathStyle};
use crate::text::{int_string, push_signed, same_text};

verus! {

/// What a live instance says about itself in `instance.json`.
#[derive(Debug, Clone, Copy, PartialEq, Eq, Structural)]
pub struct InstanceInfo {
    /// Process id of the live instance; only shown to the user.
    pub pid: u32,
    /// Port of the instance's local HTTP server; absent while it starts.
    pub http_port: Option<u16>,
}

/// The answer to "is the application already running?".
#[derive(Debug)]
pub enum Stand {
    /// No lock file, or the lock is free: the application may be started.
    Free,
    /// A live instance holds the lock; what it said about itself, if it did.
    Busy(Option<InstanceInfo>),
    /// The question could not be asked. This is not "free".
    Unknown(String),
}

// ───────────── service file placement ─────────────

/// The directory that holds the database, or the current directory when the
/// path has none.
pub open spec fn db_dir(style: PathStyle, db_path: Seq<char>) -> Seq<char> {
    match dir_part(style, db_path) {
        Some(d) => d,
        None => "."@,
    }
}

/// A file named `name` beside the database.
pub open spec fn beside_db(style: PathStyle, db_path: Seq<char>, name: Seq<char>) -> Seq<char> {
    join(style, db_dir(style, db_path), name)
}

fn beside(db_path: &str, name: &str, style: PathStyle) -> (r: String)
    ensures
        r@ == beside_db(style, db_path@, name@),
{
    match dir_part_of(db_path, style) {
        Some(d) => joined(d.as_str(), name, style),
        None => joined(".", name, style),
    }
}

/// The single-instance lock, beside the database it protects.
pub fn lock_path(db_path: &str, style: PathStyle) -> (r: String)
    ensures
        r@ == beside_db(style, db_path@, "instance.lock"@),
{
    beside(db_path, "instance.lock", style)
}

/// The live instance's record, beside the database.
pub fn info_path(db_path: &str, style: PathStyle) -> (r: String)
    ensures
        r@ == beside_db(style, db_path@, "instance.json"@),
{
    beside(db_path, "instance.json", style)
}

/// The message of a failed read: the path, a colon, and the error.
pub open spec fn failure_text(path: Seq<char>, error: Seq<char>) -> Seq<char> {
    path + ": "@ + error
}

fn failure(path: &str, error: &str) -> (r: String)
    ensures
        r@ == failure_text(path@, error@),
{
    let mut r = String::from_str(path);
    r.append(": ");
    r.append(error);
    r
}

// ───────────── asking the lock ─────────────

/// What the caller observed on the way to the answer.
pub enum ProbeEvent {
    /// The lock file was opened (read-only, never created).
    LockFileOpened,
    /// There is no lock file.
    LockFileMissing,
    /// The lock file could not be opened for another reason.
    OpenFailed(String),
    /// The exclusive lock was taken (and is released at once by the caller).
    LockTaken,
    /// The lock is held by someone else.
    LockHeld,
    /// Trying the lock failed for another reason.
    LockFailed(String),
    /// The record was read: what it said, or nothing when it was missing or
    /// did not parse.
    RecordRead(Option<InstanceInfo>),
}

/// What the caller should read next.
#[derive(Debug, Clone, Copy, PartialEq, Eq, Structural)]
pub enum ProbeAction {
    /// Try the exclusive lock without blocking.
    TryLock,
    /// Read `instance.json`.
    ReadRecord,
}

/// The statement that counts the tables named `_migrations`.
pub const TABLE_COUNT_SQL: &'static str = "SELECT COUNT(*) FROM sqlite_master WHERE type = 'table' AND name = '_migrations'";

/// The statement that reads how many migrations there are and the one applied
/// last: the row inserted last, by `rowid`, not the greatest version.
pub const LAST_MIGRATION_SQL: &'static str = "SELECT (SELECT COUNT(*) FROM _migrations), version, name FROM _migrations ORDER BY rowid DESC LIMIT 1";

impl SchemaQuery {
    /// The SQL statement of a read; opening the file has none.
    pub fn statement(&self) -> (r: Option<&'static str>)
        ensures
            match *self {
                SchemaQuery::Open => r is None,
                SchemaQuery::CountTable => r == Some(TABLE_COUNT_SQL),
                SchemaQuery::ReadLast => r == Some(LAST_MIGRATION_SQL),
            },
    {
        match self {
            SchemaQuery::Open => None,
            SchemaQuery::CountTable => Some(TABLE_COUNT_SQL),
            SchemaQuery::ReadLast => Some(LAST_MIGRATION_SQL),
        }
    }
}

/// Either the next read, or the answer.
pub enum ProbeStep {
    Next(ProbeAction),
    Done(Stand),
}

/// The next step of asking whether the application runs. The lock alone
/// decides: a missing or free lock is a free stand, a held lock is a busy one
/// whatever the record says, and a failure is neither.
pub fn probe_step(event: ProbeEvent, lock_path: &str) -> (r: ProbeStep)
    ensures
        match event {
            ProbeEvent::LockFileOpened => r == ProbeStep::Next(ProbeAction::TryLock),
            ProbeEvent::LockFileMissing => r matches ProbeStep::Done(Stand::Free),
            ProbeEvent::OpenFailed(e) => r matches ProbeStep::Done(Stand::Unknown(m)) && m@
                == failure_text(lock_path@, e@),
            ProbeEvent::LockTaken => r matches ProbeStep::Done(Stand::Free),
            ProbeEvent::LockHeld => r == ProbeStep::Next(ProbeAction::ReadRecord),
            ProbeEvent::LockFailed(e) => r matches ProbeStep::Done(Stand::Unknown(m)) && m@
                == failure_text(lock_path@, e@),
            ProbeEvent::RecordRead(info) => r == ProbeStep::Done(Stand::Busy(info)),
        },
{
    match event {
        ProbeEvent::LockFileOpened => ProbeStep::Next(ProbeAction::TryLock),
        ProbeEvent::LockFileMissing => ProbeStep::Done(Stand::Free),
        ProbeEvent::OpenFailed(e) => ProbeStep::Done(Stand::Unknown(failure(lock_path, e.as_str()))),
        ProbeEvent::LockTaken => ProbeStep::Done(Stand::Free),
        ProbeEvent::LockHeld => ProbeStep::Next(ProbeAction::ReadRecord),
        ProbeEvent::LockFailed(e) => ProbeStep::Done(Stand::Unknown(failure(lock_path, e.as_str()))),
        ProbeEvent::RecordRead(info) => ProbeStep::Done(Stand::Busy(info)),
    }
}

// ───────────── the database schema ─────────────

/// Which schema the stand is on: what `_migrations` records.
#[derive(Debug, Clone, PartialEq, Eq)]
pub enum Schema {
    /// Migrations were read: how many, and which one was applied last.
    Applied { count: i64, version: String, name: String },
    /// The database exists but records no migration.
    Fresh,
    /// There is no database file.
    Absent,
    /// The question could not be asked. This is not "unchanged".
    Unknown(String),
}

/// A schema state as mathematical values.
pub enum SchemaState {
    Applied { count: int, version: Seq<char>, name: Seq<char> },
    Fresh,
    Absent,
    Unknown(Seq<char>),
}

impl View for Schema {
    type V = SchemaState;

    open spec fn view(&self) -> SchemaState {
        match self {
            Schema::Applied { count, version, name } => SchemaState::Applied {
                count: *count as int,
                version: version@,
                name: name@,
            },
            Schema::Fresh => SchemaState::Fresh,
            Schema::Absent => SchemaState::Absent,
            Schema::Unknown(why) => SchemaState::Unknown(why@),
        }
    }
}

/// The line shown before a measurement.
pub open spec fn schema_text(s: SchemaState) -> Seq<char> {
    match s {
        SchemaState::Applied { count, version, name } => "миграций: "@ + int_string(count)
            + ", последняя "@ + version + " ("@ + name + ")"@,
        SchemaState::Fresh => "миграций нет — терминал эту базу ещё не открывал"@,
        SchemaState::Absent => "базы нет — замер пойдёт с чистого стейта"@,
        SchemaState::Unknown(why) => "прочитать не удалось ("@ + why + ")"@,
    }
}

/// The comparison of two schema states: nothing when either could not be
/// read, otherwise whether they differ.
pub open spec fn schema_difference(a: SchemaState, b: SchemaState) -> Option<bool> {
    if a is Unknown || b is Unknown {
        None
    } else {
        Some(a != b)
    }
}

impl Schema {
    /// One line for the user, printed before the measurement.
    pub fn describe(&self) -> (r: String)
        ensures
            r@ == schema_text(self@),
    {
        match self {
            Schema::Applied { count, version, name } => {
                let mut r = String::from_str("миграций: ");
                push_signed(&mut r, *count);
                r.append(", последняя ");
                r.append(version.as_str());
                r.append(" (");
                r.append(name.as_str());
                r.append(")");
                r
            },
            Schema::Fresh => String::from_str("миграций нет — терминал эту базу ещё не открывал"),
            Schema::Absent => String::from_str("базы нет — замер пойдёт с чистого стейта"),
            Schema::Unknown(why) => {
                let mut r = String::from_str("прочитать не удалось (");
                r.append(why.as_str());
                r.append(")");
                r
            },
        }
    }

    /// Whether two stand states differ. `None` means there is nothing to
    /// compare: at least one state could not be read, and calling that
    /// "unchanged" would invent a fact.
    pub fn differs_from(&self, other: &Schema) -> (r: Option<bool>)
        ensures
            r == schema_difference(self@, other@),
            (self is Unknown || other is Unknown) <==> r is None,
            !(self is Unknown) && !(other is Unknown) ==> r == Some(self@ != other@),
    {
        match (self, other) {
            (Schema::Unknown(_), _) => None,
            (_, Schema::Unknown(_)) => None,
            (
                Schema::Applied { count: c1, version: v1, name: n1 },
                Schema::Applied { count: c2, version: v2, name: n2 },
            ) => {
                let same = *c1 == *c2 && same_text(v1.as_str(), v2.as_str()) && same_text(
                    n1.as_str(),
                    n2.as_str(),
                );
                Some(!same)
            },
            (Schema::Fresh, Schema::Fresh) => Some(false),
            (Schema::Absent, Schema::Absent) => Some(false),
            _ => Some(true),
        }
    }
}

/// An unreadable state is never called equal to anything, itself included.
pub proof fn lemma_unknown_is_never_equal(a: Schema, b: Schema)
    requires
        a is Unknown || b is Unknown,
    ensures
        schema_difference(a@, b@) is None,
{
}

/// The comparison does not depend on which state comes first.
pub proof fn lemma_difference_is_symmetric(a: Schema, b: Schema)
    ensures
        schema_difference(a@, b@) == schema_difference(b@, a@),
{
}

/// A readable state does not differ from itself.
pub proof fn lemma_readable_state_equals_itself(a: Schema)
    requires
        !(a is Unknown),
    ensures
        schema_difference(a@, a@) == Some(false),
{
}

/// Two readable schema states differ exactly when they are not the same
/// state: states of different kinds (no database, a database without
/// migrations, applied migrations) always differ, and two sets of applied
/// migrations differ exactly when their count, last version or last name do.
pub proof fn lemma_readable_states_differ_exactly_when_unequal(a: Schema, b: Schema)
    requires
        !(a is Unknown),
        !(b is Unknown),
    ensures
        schema_difference(a@, b@) is Some,
        ((a is Absent && b is Absent) || (a is Fresh && b is Fresh)) ==> schema_difference(a@, b@)
            == Some(false),
        !((a is Absent && b is Absent) || (a is Fresh && b is Fresh) || (a is Applied
            && b is Applied)) ==> schema_difference(a@, b@) == Some(true),
        (a is Applied && b is Applied) ==> (schema_difference(a@, b@) == Some(true) <==> (a->count
            != b->count || a->version@ != b->version@ || a->name@ != b->name@)),
{
    if a is Applied && b is Applied {
        if a->count == b->count && a->version@ == b->version@ && a->name@ == b->name@ {
            assert(a@ == b@);
        } else {
            assert(a@ != b@) by {
                if a@ == b@ {
                    assert(a@->count == b@->count);
                }
            }
        }
    }
}

/// What the caller observed while reading the schema.
pub enum SchemaEvent {
    /// Whether the database file exists.
    DatabaseFound(bool),
    /// The database was opened read-only.
    Opened,
    /// How many tables named `_migrations` the database has.
    TableCount(i64),
    /// The migration applied last (by insertion order) and how many there are.
    LastMigration { count: i64, version: String, name: String },
    /// The table holds no row.
    NoMigrations,
    /// A read failed; the error's text.
    Failed(String),
}

/// What the caller should read next.
#[derive(Debug, Clone, Copy, PartialEq, Eq, Structural)]
pub enum SchemaQuery {
    /// Open the database read-only.
    Open,
    /// Count the tables named `_migrations`.
    CountTable,
    /// Read the count of migrations and the last applied one.
    ReadLast,
}

/// Either the next read, or the answer.
pub enum SchemaStep {
    Next(SchemaQuery),
    Done(Schema),
}

/// The next step of reading the stand's schema. A missing file is the
/// "absent" answer, a failed read is "unknown", never "fresh" or "absent".
pub fn schema_step(event: SchemaEvent, db_path: &str) -> (r: SchemaStep)
    ensures
        match event {
            SchemaEvent::DatabaseFound(found) => if found {
                r == SchemaStep::Next(SchemaQuery::Open)
            } else {
                r matches SchemaStep::Done(Schema::Absent)
            },
            SchemaEvent::Opened => r == SchemaStep::Next(SchemaQuery::CountTable),
            SchemaEvent::TableCount(n) => if n == 0 {
                r matches SchemaStep::Done(Schema::Fresh)
            } else {
                r == SchemaStep::Next(SchemaQuery::ReadLast)
            },
            SchemaEvent::LastMigration { count, version, name } => r matches SchemaStep::Done(s)
                && s@ == (SchemaState::Applied { count: count as int, version: version@, name: name@ }),
            SchemaEvent::NoMigrations => r matches SchemaStep::Done(Schema::Fresh),
            SchemaEvent::Failed(e) => r matches SchemaStep::Done(Schema::Unknown(m)) && m@
                == failure_text(db_path@, e@),
        },
{
    match event {
        SchemaEvent::DatabaseFound(found) => if found {
            SchemaStep::Next(SchemaQuery::Open)
        } else {
            SchemaStep::Done(Schema::Absent)
        },
        SchemaEvent::Opened => SchemaStep::Next(SchemaQuery::CountTable),
        SchemaEvent::TableCount(n) => if n == 0 {
            SchemaStep::Done(Schema::Fresh)
        } else {
            SchemaStep::Next(SchemaQuery::ReadLast)
        },
        SchemaEvent::LastMigration { count, version, name } => SchemaStep::Done(
            Schema::Applied { count, version, name },
        ),
        SchemaEvent::NoMigrations => SchemaStep::Done(Schema::Fresh),
        SchemaEvent::Failed(e) => SchemaStep::Done(Schema::Unknown(failure(db_path, e.as_str()))),
    }
}

} // verus!
