//! The rules of the append-only event store.

use crate::json;
use crate::json::{Json, JsonView};
use crate::outcome;
use crate::text;
use vstd::prelude::*;
use vstd::utf8::*;

verus! {

/// Current on-disk schema for the append-only event database.
pub const EVENT_DATABASE_SCHEMA_VERSION: i64 = 2;

/// Oldest initialized event database schema that is migrated in place.
pub const MIN_EVENT_DATABASE_SCHEMA_VERSION: i64 = 1;

/// Longest name of a lease's owner, in bytes.
pub const MAX_OWNER_BYTES: usize = 128;

/// Longest duration of a lease, in nanoseconds: thirty days.
pub const MAX_LEASE_NS: u128 = 2592000000000000;

/// Durable event store failure.
#[derive(Debug, PartialEq, Eq)]
#[allow(inconsistent_fields)]
pub enum StoreError {
    Database(String),
    Serialization(String),
    Time(String),
    TimeParse(String),
    State(String),
    Concurrency { expected: u64, actual: u64 },
    LeaseHeld { run_id: String, owner: String, expires_unix_ms: i64 },
    LeaseOwnership { run_id: String },
    InvalidLeaseOwner,
    LeaseTtlRange,
    LeaseClockRange,
    SequenceOverflow(u64),
    InvalidSequence(i64),
    InvalidSchema(i64),
    InvalidRunId(String),
    /// The event schema that cannot read the stored data.
    UnsupportedSchema(u32),
    UnsupportedDatabaseSchema(i64),
}

/// What a [`StoreError`] says.
#[allow(inconsistent_fields)]
pub enum StoreFault {
    Database(Seq<char>),
    Serialization(Seq<char>),
    Time(Seq<char>),
    TimeParse(Seq<char>),
    State(Seq<char>),
    Concurrency { expected: u64, actual: u64 },
    LeaseHeld { run_id: Seq<char>, owner: Seq<char>, expires_unix_ms: i64 },
    LeaseOwnership { run_id: Seq<char> },
    InvalidLeaseOwner,
    LeaseTtlRange,
    LeaseClockRange,
    SequenceOverflow(u64),
    InvalidSequence(i64),
    InvalidSchema(i64),
    InvalidRunId(Seq<char>),
    UnsupportedSchema(u32),
    UnsupportedDatabaseSchema(i64),
}

impl DeepView for StoreError {
    type V = StoreFault;

    open spec fn deep_view(&self) -> StoreFault {
        match self {
            StoreError::Database(m) => StoreFault::Database(m@),
            StoreError::Serialization(m) => StoreFault::Serialization(m@),
            StoreError::Time(m) => StoreFault::Time(m@),
            StoreError::TimeParse(m) => StoreFault::TimeParse(m@),
            StoreError::State(m) => StoreFault::State(m@),
            StoreError::Concurrency { expected, actual } => StoreFault::Concurrency {
                expected: *expected,
                actual: *actual,
            },
            StoreError::LeaseHeld { run_id, owner, expires_unix_ms } => StoreFault::LeaseHeld {
                run_id: run_id@,
                owner: owner@,
                expires_unix_ms: *expires_unix_ms,
            },
            StoreError::LeaseOwnership { run_id } => StoreFault::LeaseOwnership {
                run_id: run_id@,
            },
            StoreError::InvalidLeaseOwner => StoreFault::InvalidLeaseOwner,
            StoreError::LeaseTtlRange => StoreFault::LeaseTtlRange,
            StoreError::LeaseClockRange => StoreFault::LeaseClockRange,
            StoreError::SequenceOverflow(n) => StoreFault::SequenceOverflow(*n),
            StoreError::InvalidSequence(n) => StoreFault::InvalidSequence(*n),
            StoreError::InvalidSchema(n) => StoreFault::InvalidSchema(*n),
            StoreError::InvalidRunId(v) => StoreFault::InvalidRunId(v@),
            StoreError::UnsupportedSchema(n) => StoreFault::UnsupportedSchema(*n),
            StoreError::UnsupportedDatabaseSchema(n) => StoreFault::UnsupportedDatabaseSchema(*n),
        }
    }
}

/// The words of a [`StoreError`].
pub open spec fn store_message(f: StoreFault) -> Seq<char> {
    match f {
        StoreFault::Database(m) => "event database error: "@ + m,
        StoreFault::Serialization(m) => "event serialization failed: "@ + m,
        StoreFault::Time(m) => "event timestamp formatting failed: "@ + m,
        StoreFault::TimeParse(m) => "event timestamp parsing failed: "@ + m,
        StoreFault::State(m) => "event state is invalid: "@ + m,
        StoreFault::Concurrency { expected, actual } => "event append raced: expected sequence "@
            + text::decimal(expected as nat) + ", durable head is "@ + text::decimal(actual as nat),
        StoreFault::LeaseHeld { run_id, owner, expires_unix_ms } => "run "@ + run_id
            + " is already active under owner "@ + owner + "; lease expires at Unix millisecond "@
            + text::signed(expires_unix_ms as int),
        StoreFault::LeaseOwnership { run_id } => "run "@ + run_id
            + " lease ownership changed before release"@,
        StoreFault::InvalidLeaseOwner =>
        "run lease owner must be 1-128 non-whitespace, non-control bytes"@,
        StoreFault::LeaseTtlRange =>
        "run lease duration or clock value is outside the supported range"@,
        StoreFault::LeaseClockRange =>
        "system clock cannot be represented as a run-lease timestamp"@,
        StoreFault::SequenceOverflow(n) => "event sequence "@ + text::decimal(n as nat)
            + " exceeds SQLite's signed integer range"@,
        StoreFault::InvalidSequence(n) => "negative event sequence "@ + text::signed(n as int)
            + " found in storage"@,
        StoreFault::InvalidSchema(n) => "invalid event schema number "@ + text::signed(n as int)
            + " found in storage"@,
        StoreFault::InvalidRunId(v) => "invalid run identifier "@ + text::debug_view(v)
            + " found in event storage"@,
        StoreFault::UnsupportedSchema(n) => "compiled event schema "@ + text::decimal(n as nat)
            + " cannot read stored data"@,
        StoreFault::UnsupportedDatabaseSchema(n) => "event database schema version "@
            + text::signed(n as int) + " is unsupported"@,
    }
}

impl StoreError {
    /// The error in words.
    pub fn message(&self) -> (r: String)
        ensures
            r@ == store_message(self.deep_view()),
    {
        match self {
            StoreError::Database(m) => text::concat2("event database error: ", m.as_str()),
            StoreError::Serialization(m) => text::concat2(
                "event serialization failed: ",
                m.as_str(),
            ),
            StoreError::Time(m) => text::concat2(
                "event timestamp formatting failed: ",
                m.as_str(),
            ),
            StoreError::TimeParse(m) => text::concat2(
                "event timestamp parsing failed: ",
                m.as_str(),
            ),
            StoreError::State(m) => text::concat2("event state is invalid: ", m.as_str()),
            StoreError::Concurrency { expected, actual } => text::concat4(
                "event append raced: expected sequence ",
                text::decimal_text(*expected).as_str(),
                ", durable head is ",
                text::decimal_text(*actual).as_str(),
            ),
            StoreError::LeaseHeld { run_id, owner, expires_unix_ms } => {
                let head = text::concat4(
                    "run ",
                    run_id.as_str(),
                    " is already active under owner ",
                    owner.as_str(),
                );
                text::concat3(
                    head.as_str(),
                    "; lease expires at Unix millisecond ",
                    text::signed_text(*expires_unix_ms).as_str(),
                )
            },
            StoreError::LeaseOwnership { run_id } => text::concat3(
                "run ",
                run_id.as_str(),
                " lease ownership changed before release",
            ),
            StoreError::InvalidLeaseOwner =>
            "run lease owner must be 1-128 non-whitespace, non-control bytes".to_owned(),
            StoreError::LeaseTtlRange =>
            "run lease duration or clock value is outside the supported range".to_owned(),
            StoreError::LeaseClockRange =>
            "system clock cannot be represented as a run-lease timestamp".to_owned(),
            StoreError::SequenceOverflow(n) => text::concat3(
                "event sequence ",
                text::decimal_text(*n).as_str(),
                " exceeds SQLite's signed integer range",
            ),
            StoreError::InvalidSequence(n) => text::concat3(
                "negative event sequence ",
                text::signed_text(*n).as_str(),
                " found in storage",
            ),
            StoreError::InvalidSchema(n) => text::concat3(
                "invalid event schema number ",
                text::signed_text(*n).as_str(),
                " found in storage",
            ),
            StoreError::InvalidRunId(v) => text::concat3(
                "invalid run identifier ",
                text::debug_text(v.as_str()).as_str(),
                " found in event storage",
            ),
            StoreError::UnsupportedSchema(n) => text::concat3(
                "compiled event schema ",
                text::decimal_text(*n as u64).as_str(),
                " cannot read stored data",
            ),
            StoreError::UnsupportedDatabaseSchema(n) => text::concat3(
                "event database schema version ",
                text::signed_text(*n).as_str(),
                " is unsupported",
            ),
        }
    }
}

/// Whether a database is to be migrated, or that it cannot be used.
pub open spec fn schema_spec(version: i64) -> Result<bool, StoreFault> {
    if 0 <= version <= EVENT_DATABASE_SCHEMA_VERSION {
        Ok(version < EVENT_DATABASE_SCHEMA_VERSION)
    } else {
        Err(StoreFault::UnsupportedDatabaseSchema(version))
    }
}

/// Whether a database of the given schema is to be migrated. Schemas of the future are
/// rejected.
pub fn check_database_schema(version: i64) -> (r: Result<bool, StoreError>)
    ensures
        outcome::of(r) == schema_spec(version),
{
    if version < 0 || version > EVENT_DATABASE_SCHEMA_VERSION {
        Err(StoreError::UnsupportedDatabaseSchema(version))
    } else {
        Ok(version < EVENT_DATABASE_SCHEMA_VERSION)
    }
}

/// Exact ownership token for a bounded local run lease.
#[derive(Debug, PartialEq, Eq)]
pub struct RunLease {
    pub run_id: String,
    pub owner: String,
    pub expires_unix_ms: i64,
}

/// A [`RunLease`] by its texts.
pub struct LeaseView {
    pub run_id: Seq<char>,
    pub owner: Seq<char>,
    pub expires_unix_ms: i64,
}

impl DeepView for RunLease {
    type V = LeaseView;

    open spec fn deep_view(&self) -> LeaseView {
        LeaseView {
            run_id: self.run_id@,
            owner: self.owner@,
            expires_unix_ms: self.expires_unix_ms,
        }
    }
}

/// Whether a byte is white space or a control character of ASCII.
pub open spec fn is_blank_byte(b: u8) -> bool {
    b <= 32 || b == 127
}

/// Whether a text can name a lease's owner.
pub open spec fn is_owner(owner: Seq<char>) -> bool {
    let bytes = encode_utf8(owner);
    1 <= bytes.len() <= MAX_OWNER_BYTES && forall|i: int|
        0 <= i < bytes.len() ==> !is_blank_byte(#[trigger] bytes[i])
}

/// Checks the name of a lease's owner.
pub fn validate_lease_owner(owner: &str) -> (r: Result<(), StoreError>)
    ensures
        outcome::of(r) == (if is_owner(owner@) {
            Ok::<(), StoreFault>(())
        } else {
            Err(StoreFault::InvalidLeaseOwner)
        }),
{
    let bytes = owner.as_bytes();
    if bytes.len() == 0 || bytes.len() > MAX_OWNER_BYTES {
        return Err(StoreError::InvalidLeaseOwner);
    }
    let mut i: usize = 0;
    while i < bytes.len()
        invariant
            i <= bytes@.len(),
            bytes@ == encode_utf8(owner@),
            1 <= bytes@.len() <= MAX_OWNER_BYTES,
            forall|k: int| 0 <= k < i ==> !is_blank_byte(#[trigger] bytes@[k]),
        decreases bytes@.len() - i,
    {
        if bytes[i] <= 32 || bytes[i] == 127 {
            assert(is_blank_byte(bytes@[i as int]));
            return Err(StoreError::InvalidLeaseOwner);
        }
        i += 1;
    }
    Ok(())
}

/// When a lease that begins now ends, or why there is none. The duration is in
/// nanoseconds, the times in milliseconds.
pub open spec fn expiry_spec(owner: Seq<char>, ttl_ns: u128, now_unix_ms: i64) -> Result<
    i64,
    StoreFault,
> {
    let ttl_ms = ttl_ns as int / 1000000;
    if !is_owner(owner) {
        Err(StoreFault::InvalidLeaseOwner)
    } else if ttl_ms == 0 || ttl_ns > MAX_LEASE_NS || now_unix_ms < 0 || now_unix_ms + ttl_ms
        > i64::MAX {
        Err(StoreFault::LeaseTtlRange)
    } else {
        Ok((now_unix_ms + ttl_ms) as i64)
    }
}

/// When a lease that begins now ends.
pub fn lease_expiry(owner: &str, ttl_ns: u128, now_unix_ms: i64) -> (r: Result<i64, StoreError>)
    ensures
        outcome::of(r) == expiry_spec(owner@, ttl_ns, now_unix_ms),
{
    validate_lease_owner(owner)?;
    if ttl_ns > MAX_LEASE_NS {
        return Err(StoreError::LeaseTtlRange);
    }
    let ttl_ms: i64 = (ttl_ns / 1000000) as i64;
    if ttl_ms == 0 || now_unix_ms < 0 {
        return Err(StoreError::LeaseTtlRange);
    }
    match now_unix_ms.checked_add(ttl_ms) {
        Some(expires) => Ok(expires),
        None => Err(StoreError::LeaseTtlRange),
    }
}

/// Whether a lease may be taken: none is held, the held one has ended, or the owner is
/// the same.
pub open spec fn may_take(current: Option<LeaseView>, owner: Seq<char>, now_unix_ms: i64) -> bool {
    match current {
        None => true,
        Some(l) => l.expires_unix_ms <= now_unix_ms || l.owner == owner,
    }
}

/// The lease that is taken, or why there is none.
pub open spec fn acquire_spec(
    current: Option<LeaseView>,
    run_id: Seq<char>,
    owner: Seq<char>,
    ttl_ns: u128,
    now_unix_ms: i64,
) -> Result<LeaseView, StoreFault> {
    match expiry_spec(owner, ttl_ns, now_unix_ms) {
        Err(e) => Err(e),
        Ok(expires_unix_ms) => if may_take(current, owner, now_unix_ms) {
            Ok(LeaseView { run_id, owner, expires_unix_ms })
        } else {
            Err(
                StoreFault::LeaseHeld {
                    run_id,
                    owner: current->0.owner,
                    expires_unix_ms: current->0.expires_unix_ms,
                },
            )
        },
    }
}

/// Takes exclusive, expiring ownership of a run's active execution, given the lease
/// that the store holds for the run. What is returned replaces it.
pub fn acquire_run_lease_at(
    current: &Option<RunLease>,
    run_id: &str,
    owner: &str,
    ttl_ns: u128,
    now_unix_ms: i64,
) -> (r: Result<RunLease, StoreError>)
    ensures
        outcome::of(r) == acquire_spec(
            current.deep_view(),
            run_id@,
            owner@,
            ttl_ns,
            now_unix_ms,
        ),
{
    let expires_unix_ms: i64 = lease_expiry(owner, ttl_ns, now_unix_ms)?;
    if let Some(lease) = current {
        if lease.expires_unix_ms > now_unix_ms && !text::same(lease.owner.as_str(), owner) {
            return Err(
                StoreError::LeaseHeld {
                    run_id: run_id.to_owned(),
                    owner: lease.owner.clone(),
                    expires_unix_ms: lease.expires_unix_ms,
                },
            );
        }
    }
    Ok(RunLease { run_id: run_id.to_owned(), owner: owner.to_owned(), expires_unix_ms })
}

/// The clock's time in milliseconds, if a lease can hold it.
pub fn lease_clock(now_ns: i128) -> (r: Result<i64, StoreError>)
    ensures
        outcome::of(r) == (if i64::MIN <= truncated(now_ns as int, 1000000) <= i64::MAX {
            Ok::<i64, StoreFault>(truncated(now_ns as int, 1000000) as i64)
        } else {
            Err(StoreFault::LeaseClockRange)
        }),
{
    let ms: i128 = if now_ns >= 0 {
        now_ns / 1000000
    } else if now_ns == i128::MIN {
        return Err(StoreError::LeaseClockRange);
    } else {
        -((-now_ns) / 1000000)
    };
    if ms < i64::MIN as i128 || ms > i64::MAX as i128 {
        return Err(StoreError::LeaseClockRange);
    }
    Ok(ms as i64)
}

/// A quotient, rounded towards zero.
pub open spec fn truncated(n: int, d: int) -> int {
    if n >= 0 {
        n / d
    } else {
        -((-n) / d)
    }
}

/// Whether the stored lease is to be deleted, given its owner: only its exact owner
/// releases it, and what is gone needs no release.
pub open spec fn release_spec(current: Option<Seq<char>>, lease: LeaseView) -> Result<
    bool,
    StoreFault,
> {
    match current {
        None => Ok(false),
        Some(owner) => if owner == lease.owner {
            Ok(true)
        } else {
            Err(StoreFault::LeaseOwnership { run_id: lease.run_id })
        },
    }
}

/// Releases a lease: whether the stored one is to be deleted.
pub fn release_run_lease(current_owner: &Option<String>, lease: &RunLease) -> (r: Result<
    bool,
    StoreError,
>)
    ensures
        outcome::of(r) == release_spec(current_owner.deep_view(), lease.deep_view()),
{
    match current_owner {
        None => Ok(false),
        Some(owner) => if text::same(owner.as_str(), lease.owner.as_str()) {
            Ok(true)
        } else {
            Err(StoreError::LeaseOwnership { run_id: lease.run_id.clone() })
        },
    }
}

/// While a lease lives, no other owner takes it; once it has ended, any owner may.
pub proof fn law_leases_are_exclusive(
    held: LeaseView,
    run_id: Seq<char>,
    owner: Seq<char>,
    ttl_ns: u128,
    now_unix_ms: i64,
)
    requires
        owner != held.owner,
    ensures
        now_unix_ms < held.expires_unix_ms ==> acquire_spec(
            Some(held),
            run_id,
            owner,
            ttl_ns,
            now_unix_ms,
        ) is Err,
        now_unix_ms >= held.expires_unix_ms && expiry_spec(owner, ttl_ns, now_unix_ms) is Ok
            ==> acquire_spec(Some(held), run_id, owner, ttl_ns, now_unix_ms) is Ok,
{
}

/// A lease that was taken ends later than now, and no later than thirty days from now.
pub proof fn law_leases_are_bounded(
    current: Option<LeaseView>,
    run_id: Seq<char>,
    owner: Seq<char>,
    ttl_ns: u128,
    now_unix_ms: i64,
)
    ensures
        match acquire_spec(current, run_id, owner, ttl_ns, now_unix_ms) {
            Ok(l) => now_unix_ms < l.expires_unix_ms <= now_unix_ms + 2592000000,
            Err(_) => true,
        },
{
    assert(MAX_LEASE_NS as int / 1000000 == 2592000000);
    assert(ttl_ns <= MAX_LEASE_NS ==> ttl_ns as int / 1000000 <= MAX_LEASE_NS as int / 1000000)
        by (nonlinear_arith);
}

/// Who was outlived cannot release the successor's lease.
pub proof fn law_only_the_owner_releases(
    first: LeaseView,
    run_id: Seq<char>,
    owner: Seq<char>,
    ttl_ns: u128,
    now_unix_ms: i64,
)
    requires
        owner != first.owner,
    ensures
        match acquire_spec(Some(first), run_id, owner, ttl_ns, now_unix_ms) {
            Ok(second) => release_spec(Some(second.owner), first) is Err && release_spec(
                Some(second.owner),
                second,
            ) == Ok::<bool, StoreFault>(true) && release_spec(None, second) == Ok::<
                bool,
                StoreFault,
            >(false),
            Err(_) => true,
        },
{
}

/// The last event of a run, as it is stored.
#[derive(Debug, PartialEq, Eq)]
pub struct StoredHead {
    pub sequence: i64,
    pub hash: String,
}

/// A [`StoredHead`] by its text.
pub struct HeadView {
    pub sequence: i64,
    pub hash: Seq<char>,
}

impl DeepView for StoredHead {
    type V = HeadView;

    open spec fn deep_view(&self) -> HeadView {
        HeadView { sequence: self.sequence, hash: self.hash@ }
    }
}

/// Where the next event of a run goes.
#[derive(Debug, PartialEq, Eq)]
pub struct NextEvent {
    pub sequence: i64,
    pub previous_hash: String,
}

/// A [`NextEvent`] by its text.
pub struct NextView {
    pub sequence: i64,
    pub previous_hash: Seq<char>,
}

impl DeepView for NextEvent {
    type V = NextView;

    open spec fn deep_view(&self) -> NextView {
        NextView { sequence: self.sequence, previous_hash: self.previous_hash@ }
    }
}

/// The number of the next event.
pub open spec fn next_sequence(head: Option<HeadView>) -> int {
    match head {
        Some(h) => h.sequence + 1,
        None => 0,
    }
}

/// Where an event goes that expects a number, or why it is not appended. The first
/// event follows the given hash.
pub open spec fn append_spec(
    head: Option<HeadView>,
    expected: u64,
    genesis: Seq<char>,
) -> Result<NextView, StoreFault> {
    if head is Some && head->0.sequence < 0 {
        Err(StoreFault::InvalidSequence(head->0.sequence))
    } else if next_sequence(head) != expected {
        Err(StoreFault::Concurrency { expected, actual: next_sequence(head) as u64 })
    } else if expected > i64::MAX {
        Err(StoreFault::SequenceOverflow(expected))
    } else {
        Ok(
            NextView {
                sequence: expected as i64,
                previous_hash: match head {
                    Some(h) => h.hash,
                    None => genesis,
                },
            },
        )
    }
}

/// Appends one event if `expected_sequence` still matches the durable head: where it
/// goes.
pub fn append(head: &Option<StoredHead>, expected_sequence: u64, genesis: &str) -> (r: Result<
    NextEvent,
    StoreError,
>)
    ensures
        outcome::of(r) == append_spec(head.deep_view(), expected_sequence, genesis@),
{
    let actual: u64 = match head {
        Some(h) => {
            if h.sequence < 0 {
                return Err(StoreError::InvalidSequence(h.sequence));
            }
            h.sequence as u64 + 1
        },
        None => 0,
    };
    if actual != expected_sequence {
        return Err(StoreError::Concurrency { expected: expected_sequence, actual });
    }
    if expected_sequence > i64::MAX as u64 {
        return Err(StoreError::SequenceOverflow(expected_sequence));
    }
    let previous_hash = match head {
        Some(h) => h.hash.clone(),
        None => genesis.to_owned(),
    };
    Ok(NextEvent { sequence: expected_sequence as i64, previous_hash })
}

/// An event of a run's log, as far as its place goes.
pub struct LogEntry {
    pub sequence: i64,
    pub previous_hash: Seq<char>,
    pub hash: Seq<char>,
}

/// The last event of a log.
pub open spec fn head_of(log: Seq<LogEntry>) -> Option<HeadView> {
    if log.len() == 0 {
        None
    } else {
        Some(HeadView { sequence: log.last().sequence, hash: log.last().hash })
    }
}

/// Whether a log counts from zero without a gap and each event names the hash of the
/// one before.
pub open spec fn is_chain(log: Seq<LogEntry>, genesis: Seq<char>) -> bool {
    forall|i: int|
        0 <= i < log.len() ==> (#[trigger] log[i]).sequence == i && log[i].previous_hash == (if i
            == 0 {
            genesis
        } else {
            log[i - 1].hash
        })
}

/// A log stays a hash chain without gaps, whatever is appended to it.
pub proof fn law_logs_are_chains(
    log: Seq<LogEntry>,
    genesis: Seq<char>,
    expected: u64,
    hash: Seq<char>,
)
    requires
        is_chain(log, genesis),
    ensures
        match append_spec(head_of(log), expected, genesis) {
            Ok(next) => is_chain(
                log.push(
                    LogEntry {
                        sequence: next.sequence,
                        previous_hash: next.previous_hash,
                        hash,
                    },
                ),
                genesis,
            ),
            Err(_) => true,
        },
{
    match append_spec(head_of(log), expected, genesis) {
        Ok(next) => {
            let entry = LogEntry {
                sequence: next.sequence,
                previous_hash: next.previous_hash,
                hash,
            };
            let longer = log.push(entry);
            if log.len() > 0 {
                assert(log[log.len() - 1].sequence == log.len() - 1);
            }
            assert forall|i: int| 0 <= i < longer.len() implies (#[trigger] longer[i]).sequence == i
                && longer[i].previous_hash == (if i == 0 {
                genesis
            } else {
                longer[i - 1].hash
            }) by {
                if i < log.len() {
                    assert(longer[i] == log[i]);
                    if i > 0 {
                        assert(longer[i - 1] == log[i - 1]);
                    }
                } else if i > 0 {
                    assert(longer[i - 1] == log[i - 1]);
                }
            }
        },
        Err(_) => {},
    }
}

/// Of two writers that expect the same place, the second is refused: no event is lost.
pub proof fn law_stale_writers_are_refused(
    log: Seq<LogEntry>,
    genesis: Seq<char>,
    expected: u64,
    hash: Seq<char>,
)
    requires
        is_chain(log, genesis),
    ensures
        match append_spec(head_of(log), expected, genesis) {
            Ok(next) => append_spec(
                head_of(
                    log.push(
                        LogEntry {
                            sequence: next.sequence,
                            previous_hash: next.previous_hash,
                            hash,
                        },
                    ),
                ),
                expected,
                genesis,
            ) == Err::<NextView, StoreFault>(
                StoreFault::Concurrency { expected, actual: (expected + 1) as u64 },
            ),
            Err(_) => true,
        },
{
}

/// The text of a time in UTC, given in nanoseconds since the Unix epoch, that the
/// `time` crate writes after RFC 3339, or its message.
pub uninterp spec fn rfc3339_text(ns: i128) -> Result<Seq<char>, Seq<char>>;

/// The time, in nanoseconds since the Unix epoch, that the `time` crate reads from a
/// text after RFC 3339, or its message.
pub uninterp spec fn rfc3339_time(s: Seq<char>) -> Result<i128, Seq<char>>;

/// Whether a text is read as the given time.
pub open spec fn reads_as(s: Seq<char>, ns: i128) -> bool {
    rfc3339_time(s) == Ok::<i128, Seq<char>>(ns)
}

/// Writes a time with `OffsetDateTime::format` after RFC 3339. The result goes by the
/// time alone, and what is written is read as the same time.
#[verifier::external_body]
fn format_time(ns: i128) -> (r: Result<String, String>)
    ensures
        outcome::of(r) == rfc3339_text(ns),
        match r {
            Ok(s) => reads_as(s@, ns),
            Err(_) => true,
        },
{
    time::OffsetDateTime::from_unix_timestamp_nanos(ns)
        .map_err(|error| error.to_string())?
        .format(&time::format_description::well_known::Rfc3339)
        .map_err(|error| error.to_string())
}

/// Reads a time with `OffsetDateTime::parse` after RFC 3339. Named is only that the
/// result goes by the text alone.
#[verifier::external_body]
fn parse_time(s: &str) -> (r: Result<i128, String>)
    ensures
        outcome::of(r) == rfc3339_time(s@),
{
    time::OffsetDateTime::parse(s, &time::format_description::well_known::Rfc3339)
        .map(|time| time.unix_timestamp_nanos())
        .map_err(|error| error.to_string())
}

/// One event as it is stored.
#[derive(Debug, PartialEq, Eq)]
pub struct EventRow {
    pub sequence: i64,
    pub schema_version: i64,
    pub timestamp: String,
    pub previous_hash: String,
    pub event_json: String,
    pub hash: String,
}

/// An [`EventRow`] by its texts.
pub struct RowView {
    pub sequence: i64,
    pub schema_version: i64,
    pub timestamp: Seq<char>,
    pub previous_hash: Seq<char>,
    pub event_json: Seq<char>,
    pub hash: Seq<char>,
}

impl DeepView for EventRow {
    type V = RowView;

    open spec fn deep_view(&self) -> RowView {
        RowView {
            sequence: self.sequence,
            schema_version: self.schema_version,
            timestamp: self.timestamp@,
            previous_hash: self.previous_hash@,
            event_json: self.event_json@,
            hash: self.hash@,
        }
    }
}

impl Clone for EventRow {
    fn clone(&self) -> (r: Self)
        ensures
            r.deep_view() == self.deep_view(),
    {
        EventRow {
            sequence: self.sequence,
            schema_version: self.schema_version,
            timestamp: self.timestamp.clone(),
            previous_hash: self.previous_hash.clone(),
            event_json: self.event_json.clone(),
            hash: self.hash.clone(),
        }
    }
}

/// A stored event with what its content gives: the hash computed anew, and why the run's
/// contract or lifecycle refuses it at its place, if it does.
#[derive(Debug)]
pub struct CheckedRow {
    pub row: EventRow,
    pub hash: String,
    pub refusal: Option<String>,
}

/// A [`CheckedRow`] by its texts.
pub struct CheckedView {
    pub row: RowView,
    pub hash: Seq<char>,
    pub refusal: Option<Seq<char>>,
}

impl DeepView for CheckedRow {
    type V = CheckedView;

    open spec fn deep_view(&self) -> CheckedView {
        CheckedView {
            row: self.row.deep_view(),
            hash: self.hash@,
            refusal: self.refusal.deep_view(),
        }
    }
}

/// A stored event whose content gives the hash that is stored and that nothing refuses.
pub open spec fn intact(row: RowView) -> CheckedView {
    CheckedView { row, hash: row.hash, refusal: None }
}

/// One event as it was recorded. Its time is in nanoseconds since the Unix epoch.
#[derive(Debug)]
pub struct EventEnvelope {
    pub schema_version: u32,
    pub sequence: u64,
    pub timestamp_ns: i128,
    pub previous_hash: String,
    pub event: Json,
    pub hash: String,
}

/// An [`EventEnvelope`] by its texts and its event's value.
pub struct EnvelopeView {
    pub schema_version: u32,
    pub sequence: u64,
    pub timestamp_ns: i128,
    pub previous_hash: Seq<char>,
    pub event: JsonView,
    pub hash: Seq<char>,
}

impl DeepView for EventEnvelope {
    type V = EnvelopeView;

    open spec fn deep_view(&self) -> EnvelopeView {
        EnvelopeView {
            schema_version: self.schema_version,
            sequence: self.sequence,
            timestamp_ns: self.timestamp_ns,
            previous_hash: self.previous_hash@,
            event: self.event.deep_view(),
            hash: self.hash@,
        }
    }
}

/// The event that a row stands for, or why it stands for none. Given are what its
/// timestamp and its event are read as.
pub open spec fn decode_spec(
    row: RowView,
    time: Result<i128, Seq<char>>,
    event: Result<JsonView, Seq<char>>,
) -> Result<EnvelopeView, StoreFault> {
    if row.sequence < 0 {
        Err(StoreFault::InvalidSequence(row.sequence))
    } else if row.schema_version < 0 || row.schema_version > u32::MAX {
        Err(StoreFault::InvalidSchema(row.schema_version))
    } else {
        match time {
            Err(m) => Err(StoreFault::TimeParse(m)),
            Ok(timestamp_ns) => match event {
                Err(m) => Err(StoreFault::Serialization(m)),
                Ok(event) => Ok(
                    EnvelopeView {
                        schema_version: row.schema_version as u32,
                        sequence: row.sequence as u64,
                        timestamp_ns,
                        previous_hash: row.previous_hash,
                        event,
                        hash: row.hash,
                    },
                ),
            },
        }
    }
}

/// The event that a row stands for, given what its timestamp and its event are read
/// as.
pub fn decode_parsed(
    row: EventRow,
    time: Result<i128, String>,
    event: Result<Json, String>,
) -> (r: Result<EventEnvelope, StoreError>)
    ensures
        outcome::of(r) == decode_spec(row.deep_view(), outcome::of(time), outcome::of(event)),
{
    if row.sequence < 0 {
        return Err(StoreError::InvalidSequence(row.sequence));
    }
    if row.schema_version < 0 || row.schema_version > u32::MAX as i64 {
        return Err(StoreError::InvalidSchema(row.schema_version));
    }
    let timestamp_ns: i128 = match time {
        Ok(ns) => ns,
        Err(m) => {
            return Err(StoreError::TimeParse(m));
        },
    };
    let event = match event {
        Ok(event) => event,
        Err(m) => {
            return Err(StoreError::Serialization(m));
        },
    };
    Ok(
        EventEnvelope {
            schema_version: row.schema_version as u32,
            sequence: row.sequence as u64,
            timestamp_ns,
            previous_hash: row.previous_hash,
            event,
            hash: row.hash,
        },
    )
}

/// The event that a row stands for.
pub fn decode_row(row: EventRow) -> (r: Result<EventEnvelope, StoreError>)
    ensures
        outcome::of(r) == decode_spec(
            row.deep_view(),
            rfc3339_time(row.timestamp@),
            json::json_parse(row.event_json@),
        ),
{
    let time = parse_time(row.timestamp.as_str());
    let event = Json::parse(row.event_json.as_str());
    decode_parsed(row, time, event)
}

/// Whether an event takes the place after the previous one, or why it does not. The
/// first event follows the given hash.
pub open spec fn follows_spec(
    previous: Option<EnvelopeView>,
    genesis: Seq<char>,
    e: EnvelopeView,
) -> Result<(), StoreFault> {
    let sequence = match previous {
        Some(p) => p.sequence + 1,
        None => 0,
    };
    let hash = match previous {
        Some(p) => p.hash,
        None => genesis,
    };
    if e.sequence != sequence {
        Err(
            StoreFault::State(
                "event sequence "@ + text::decimal(e.sequence as nat) + " is out of place"@,
            ),
        )
    } else if e.previous_hash != hash {
        Err(
            StoreFault::State(
                "event "@ + text::decimal(e.sequence as nat) + " breaks the hash chain"@,
            ),
        )
    } else {
        Ok(())
    }
}

/// The last of some events.
pub open spec fn last_event(events: Seq<EnvelopeView>) -> Option<EnvelopeView> {
    if events.len() == 0 {
        None
    } else {
        Some(events.last())
    }
}

/// Takes an event up if it has the place after the events that were taken up before.
pub fn take_up(events: &mut Vec<EventEnvelope>, genesis: &str, event: EventEnvelope) -> (r: Result<
    (),
    StoreError,
>)
    ensures
        outcome::of(r) == follows_spec(
            last_event(old(events).deep_view()),
            genesis@,
            event.deep_view(),
        ),
        final(events).deep_view() == (if r is Ok {
            old(events).deep_view().push(event.deep_view())
        } else {
            old(events).deep_view()
        }),
{
    let ghost before = events.deep_view();
    let count: usize = events.len();
    let number = text::decimal_text(event.sequence);
    let (in_place, chained) = if count == 0 {
        (event.sequence == 0, text::same(event.previous_hash.as_str(), genesis))
    } else {
        let last = &events[count - 1];
        assert(before.last() == last.deep_view());
        (
            last.sequence < u64::MAX && event.sequence == last.sequence + 1,
            text::same(event.previous_hash.as_str(), last.hash.as_str()),
        )
    };
    if !in_place {
        return Err(
            StoreError::State(
                text::concat3("event sequence ", number.as_str(), " is out of place"),
            ),
        );
    }
    if !chained {
        return Err(
            StoreError::State(text::concat3("event ", number.as_str(), " breaks the hash chain")),
        );
    }
    events.push(event);
    assert(events.deep_view() =~= before.push(event.deep_view()));
    Ok(())
}

/// The event that a row stands for, as the parsers of its timestamp and its event read
/// them.
pub open spec fn row_spec(row: RowView) -> Result<EnvelopeView, StoreFault> {
    decode_spec(row, rfc3339_time(row.timestamp), json::json_parse(row.event_json))
}

/// Whether an event is refused for its content: its hash must be the one that its content
/// gives, and the run must accept it at its place.
pub open spec fn content_spec(row: CheckedView, e: EnvelopeView) -> Result<(), StoreFault> {
    if row.hash != e.hash {
        Err(
            StoreFault::State(
                "event "@ + text::decimal(e.sequence as nat)
                    + " does not have the hash of its content"@,
            ),
        )
    } else {
        match row.refusal {
            Some(m) => Err(StoreFault::State(m)),
            None => Ok(()),
        }
    }
}

/// Checks the content of an event.
pub fn check_content(row: &CheckedRow, event: &EventEnvelope) -> (r: Result<(), StoreError>)
    ensures
        outcome::of(r) == content_spec(row.deep_view(), event.deep_view()),
{
    if !text::same(row.hash.as_str(), event.hash.as_str()) {
        return Err(
            StoreError::State(
                text::concat3(
                    "event ",
                    text::decimal_text(event.sequence).as_str(),
                    " does not have the hash of its content",
                ),
            ),
        );
    }
    match &row.refusal {
        Some(m) => Err(StoreError::State(m.clone())),
        None => Ok(()),
    }
}

/// The events of a run's rows, or the first fault that is met.
pub open spec fn load_spec(rows: Seq<CheckedView>, genesis: Seq<char>) -> Result<
    Seq<EnvelopeView>,
    StoreFault,
>
    decreases rows.len(),
{
    if rows.len() == 0 {
        Ok(Seq::empty())
    } else {
        match load_spec(rows.drop_last(), genesis) {
            Err(e) => Err(e),
            Ok(events) => match row_spec(rows.last().row) {
                Err(e) => Err(e),
                Ok(event) => match follows_spec(last_event(events), genesis, event) {
                    Err(e) => Err(e),
                    Ok(_) => match content_spec(rows.last(), event) {
                        Err(e) => Err(e),
                        Ok(_) => Ok(events.push(event)),
                    },
                },
            },
        }
    }
}

/// A fault that the first rows give is the fault of all.
proof fn lemma_load_stops(rows: Seq<CheckedView>, genesis: Seq<char>, n: int)
    requires
        0 <= n <= rows.len(),
        load_spec(rows.take(n), genesis) is Err,
    ensures
        load_spec(rows, genesis) == load_spec(rows.take(n), genesis),
    decreases rows.len(),
{
    if n == rows.len() {
        assert(rows.take(n) =~= rows);
    } else {
        assert(rows.drop_last().take(n) =~= rows.take(n));
        lemma_load_stops(rows.drop_last(), genesis, n);
    }
}

/// Loads and checks all events of a run from its rows, given in the order of their
/// numbers: they count from zero without a gap, each names the hash of the one before and
/// has the hash that its content gives, and the run refuses none.
pub fn load(rows: &Vec<CheckedRow>, genesis: &str) -> (r: Result<Vec<EventEnvelope>, StoreError>)
    ensures
        outcome::of(r) == load_spec(rows.deep_view(), genesis@),
{
    let ghost all = rows.deep_view();
    let mut events: Vec<EventEnvelope> = Vec::new();
    let mut i: usize = 0;
    assert(events.deep_view() =~= Seq::<EnvelopeView>::empty());
    assert(all.take(0) =~= Seq::<CheckedView>::empty());
    while i < rows.len()
        invariant
            i <= rows@.len(),
            all == rows.deep_view(),
            all.len() == rows@.len(),
            load_spec(all.take(i as int), genesis@) == Ok::<Seq<EnvelopeView>, StoreFault>(
                events.deep_view(),
            ),
        decreases rows@.len() - i,
    {
        let ghost next = all.take(i + 1);
        let row = &rows[i];
        proof {
            assert(next.drop_last() =~= all.take(i as int));
            assert(next.last() == row.deep_view());
        }
        let event = match decode_row(row.row.clone()) {
            Err(e) => {
                proof {
                    lemma_load_stops(all, genesis@, i + 1);
                }
                return Err(e);
            },
            Ok(event) => event,
        };
        let content = check_content(row, &event);
        if let Err(e) = take_up(&mut events, genesis, event) {
            proof {
                lemma_load_stops(all, genesis@, i + 1);
            }
            return Err(e);
        }
        if let Err(e) = content {
            proof {
                lemma_load_stops(all, genesis@, i + 1);
            }
            return Err(e);
        }
        i += 1;
    }
    assert(all.take(i as int) =~= all);
    Ok(events)
}

/// The place of an event in its run's log.
pub open spec fn entry_of(e: EnvelopeView) -> LogEntry {
    LogEntry { sequence: e.sequence as i64, previous_hash: e.previous_hash, hash: e.hash }
}

/// What is loaded is a hash chain without gaps, in which each event has the hash that its
/// content gives: rows that are missing, exchanged, relinked or altered are never taken
/// for a run's log.
pub proof fn law_loaded_logs_are_chains(rows: Seq<CheckedView>, genesis: Seq<char>)
    ensures
        match load_spec(rows, genesis) {
            Ok(events) => {
                &&& events.len() == rows.len()
                &&& is_chain(Seq::new(events.len(), |i: int| entry_of(events[i])), genesis)
                &&& forall|i: int|
                    0 <= i < events.len() ==> {
                        &&& row_spec((#[trigger] rows[i]).row) == Ok::<EnvelopeView, StoreFault>(
                            events[i],
                        )
                        &&& rows[i].hash == events[i].hash
                        &&& rows[i].refusal is None
                    }
            },
            Err(_) => true,
        },
    decreases rows.len(),
{
    if rows.len() > 0 && load_spec(rows, genesis) is Ok {
        law_loaded_logs_are_chains(rows.drop_last(), genesis);
        let before = load_spec(rows.drop_last(), genesis)->Ok_0;
        let events = load_spec(rows, genesis)->Ok_0;
        let old_log = Seq::new(before.len(), |i: int| entry_of(before[i]));
        let log = Seq::new(events.len(), |i: int| entry_of(events[i]));
        assert(row_spec(rows.last().row) is Ok);
        assert(events.last().sequence == rows.last().row.sequence);
        lemma_numbers_count(rows.drop_last(), genesis);
        assert forall|i: int| 0 <= i < events.len() implies {
            &&& row_spec((#[trigger] rows[i]).row) == Ok::<EnvelopeView, StoreFault>(events[i])
            &&& rows[i].hash == events[i].hash
            &&& rows[i].refusal is None
        } by {
            if i < before.len() {
                assert(rows.drop_last()[i] == rows[i]);
                assert(events[i] == before[i]);
            } else {
                assert(rows[i] == rows.last());
            }
        }
        assert forall|i: int| 0 <= i < log.len() implies (#[trigger] log[i]).sequence == i
            && log[i].previous_hash == (if i == 0 {
            genesis
        } else {
            log[i - 1].hash
        }) by {
            if i < before.len() {
                assert(log[i] == old_log[i]);
                if i > 0 {
                    assert(log[i - 1] == old_log[i - 1]);
                }
            } else if i > 0 {
                assert(events[i - 1] == before[i - 1]);
            }
        }
    }
}

/// Loaded events are numbered by their places.
proof fn lemma_numbers_count(rows: Seq<CheckedView>, genesis: Seq<char>)
    ensures
        match load_spec(rows, genesis) {
            Ok(events) => events.len() == rows.len() && forall|i: int|
                0 <= i < events.len() ==> (#[trigger] events[i]).sequence == i,
            Err(_) => true,
        },
    decreases rows.len(),
{
    if rows.len() > 0 {
        lemma_numbers_count(rows.drop_last(), genesis);
    }
}

/// The place of the last of a run's events.
pub open spec fn head_of_events(events: Seq<EnvelopeView>) -> Option<HeadView> {
    match last_event(events) {
        Some(e) => Some(HeadView { sequence: e.sequence as i64, hash: e.hash }),
        None => None,
    }
}

/// Whether a place is the one behind the events of a run's rows.
pub open spec fn is_next_place(rows: Seq<CheckedView>, genesis: Seq<char>, next: NextView) -> bool {
    match load_spec(rows, genesis) {
        Ok(events) => append_spec(head_of_events(events), rows.len() as u64, genesis) == Ok::<
            NextView,
            StoreFault,
        >(next),
        Err(_) => false,
    }
}

/// The event that is stored at a place.
pub open spec fn event_at(
    next: NextView,
    schema_version: u32,
    timestamp_ns: i128,
    event: JsonView,
    hash: Seq<char>,
) -> EnvelopeView {
    EnvelopeView {
        schema_version,
        sequence: next.sequence as u64,
        timestamp_ns,
        previous_hash: next.previous_hash,
        event,
        hash,
    }
}

/// A run whose rows load refuses every place but the one behind its last event, naming
/// both, so that what is loaded stays as it was. At that place an event gets the number
/// of the events before it and the hash of the last one.
pub proof fn law_only_the_next_place_is_given(
    rows: Seq<CheckedView>,
    genesis: Seq<char>,
    expected: u64,
)
    requires
        load_spec(rows, genesis) is Ok,
    ensures
        ({
            let events = load_spec(rows, genesis)->Ok_0;
            &&& events.len() == rows.len() <= i64::MAX + 1
            &&& expected != rows.len() ==> append_spec(head_of_events(events), expected, genesis)
                == Err::<NextView, StoreFault>(
                StoreFault::Concurrency { expected, actual: rows.len() as u64 },
            )
            &&& expected == rows.len() <= i64::MAX ==> append_spec(
                head_of_events(events),
                expected,
                genesis,
            ) == Ok::<NextView, StoreFault>(
                NextView {
                    sequence: rows.len() as i64,
                    previous_hash: if events.len() == 0 {
                        genesis
                    } else {
                        events.last().hash
                    },
                },
            )
        }),
{
    lemma_numbers_count(rows, genesis);
    if rows.len() > 0 {
        let events = load_spec(rows, genesis)->Ok_0;
        assert(events[events.len() - 1].sequence == rows.len() - 1);
        assert(events.last() == row_spec(rows.last().row)->Ok_0);
    }
}

/// What is appended is loaded again: a row that is read as an event with the place
/// behind the last loaded event is loaded behind it, as long as its content gives the hash
/// that is stored and the run does not refuse it.
pub proof fn law_appended_events_are_loaded(
    rows: Seq<CheckedView>,
    genesis: Seq<char>,
    next: NextView,
    row: RowView,
    e: EnvelopeView,
)
    requires
        is_next_place(rows, genesis, next),
        row_spec(row) == Ok::<EnvelopeView, StoreFault>(e),
        e.sequence == next.sequence,
        e.previous_hash == next.previous_hash,
    ensures
        load_spec(rows.push(intact(row)), genesis) == Ok::<Seq<EnvelopeView>, StoreFault>(
            load_spec(rows, genesis)->Ok_0.push(e),
        ),
{
    lemma_numbers_count(rows, genesis);
    let events = load_spec(rows, genesis)->Ok_0;
    if rows.len() > 0 {
        assert(events[events.len() - 1].sequence == rows.len() - 1);
        assert(events.last() == row_spec(rows.last().row)->Ok_0);
    }
    assert(rows.push(intact(row)).drop_last() =~= rows);
}

/// The row of an event at its place, or that its time cannot be written.
pub open spec fn encode_spec(
    next: NextView,
    schema_version: u32,
    time: Result<Seq<char>, Seq<char>>,
    event: JsonView,
    hash: Seq<char>,
) -> Result<RowView, StoreFault> {
    match time {
        Err(m) => Err(StoreFault::Time(m)),
        Ok(timestamp) => Ok(
            RowView {
                sequence: next.sequence,
                schema_version: schema_version as i64,
                timestamp,
                previous_hash: next.previous_hash,
                event_json: json::json_text(event),
                hash,
            },
        ),
    }
}

/// The row of an event at its place. Where the place is the one behind the events of a
/// run's rows, the row is loaded behind them as this event, with this time and this hash,
/// as long as it stays intact; so it is of every event whose numbers are integers and whose nesting the parser
/// admits.
pub fn encode_row(
    next: NextEvent,
    schema_version: u32,
    timestamp_ns: i128,
    event: &Json,
    hash: &str,
) -> (r: Result<EventRow, StoreError>)
    ensures
        outcome::of(r) == encode_spec(
            next.deep_view(),
            schema_version,
            rfc3339_text(timestamp_ns),
            event.deep_view(),
            hash@,
        ),
        match r {
            Ok(row) => {
                &&& reads_as(row.timestamp@, timestamp_ns)
                &&& json::is_plain(event.deep_view(), json::max_depth()) ==> {
                    &&& json::reads_as(row.event_json@, event.deep_view())
                    &&& forall|rows: Seq<CheckedView>, genesis: Seq<char>|
                        #[trigger] is_next_place(rows, genesis, next.deep_view()) ==> load_spec(
                            rows.push(intact(row.deep_view())),
                            genesis,
                        ) == Ok::<Seq<EnvelopeView>, StoreFault>(
                            load_spec(rows, genesis)->Ok_0.push(
                                event_at(
                                    next.deep_view(),
                                    schema_version,
                                    timestamp_ns,
                                    event.deep_view(),
                                    hash@,
                                ),
                            ),
                        )
                }
            },
            Err(_) => true,
        },
{
    let ghost place = next.deep_view();
    let event_json = event.to_text();
    match format_time(timestamp_ns) {
        Ok(timestamp) => {
            let row = EventRow {
                sequence: next.sequence,
                schema_version: schema_version as i64,
                timestamp,
                previous_hash: next.previous_hash,
                event_json,
                hash: hash.to_owned(),
            };
            proof {
                let e = event_at(place, schema_version, timestamp_ns, event.deep_view(), hash@);
                if json::is_plain(event.deep_view(), json::max_depth()) {
                    assert forall|rows: Seq<CheckedView>, genesis: Seq<char>|
                        #[trigger] is_next_place(rows, genesis, place) implies load_spec(
                        rows.push(intact(row.deep_view())),
                        genesis,
                    ) == Ok::<Seq<EnvelopeView>, StoreFault>(
                        load_spec(rows, genesis)->Ok_0.push(e),
                    ) by {
                        assert(place.sequence >= 0);
                        law_appended_events_are_loaded(rows, genesis, place, row.deep_view(), e);
                    }
                }
            }
            Ok(row)
        },
        Err(m) => Err(StoreError::Time(m)),
    }
}

} // verus!
