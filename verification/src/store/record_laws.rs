//! Laws of records: what is stored of an event, a lease and an artifact, and where.

use crate::digest;
use crate::json;
use crate::json::JsonView;
use crate::store::artifact;
use crate::store::event_store;
use crate::store::event_store::{CheckedView, EnvelopeView, LeaseView, NextView, RowView, StoreFault};
use vstd::prelude::*;

verus! {

/// A lease that was taken is the one that was asked for: of that run, for that owner, and
/// for as many whole milliseconds as were asked for.
pub proof fn law_leases_last_as_asked(
    current: Option<LeaseView>,
    run_id: Seq<char>,
    owner: Seq<char>,
    ttl_ns: u128,
    now_unix_ms: i64,
)
    ensures
        event_store::acquire_spec(current, run_id, owner, ttl_ns, now_unix_ms) matches Ok(l) ==> {
            let lasts = l.expires_unix_ms - now_unix_ms;
            &&& l.run_id == run_id
            &&& l.owner == owner
            &&& lasts > 0
            &&& lasts * 1_000_000 <= ttl_ns < (lasts + 1) * 1_000_000
        },
{
}

/// An owner can take its own lease anew at any time, and nobody else before it ends.
pub proof fn law_leases_can_be_renewed(
    held: LeaseView,
    run_id: Seq<char>,
    owner: Seq<char>,
    ttl_ns: u128,
    now_unix_ms: i64,
)
    requires
        event_store::is_owner(owner),
        1_000_000 <= ttl_ns <= 2_592_000_000_000_000,
        0 <= now_unix_ms <= 4_000_000_000_000_000,
    ensures
        event_store::acquire_spec(Some(held), run_id, owner, ttl_ns, now_unix_ms) is Ok <==> (
        held.owner == owner || held.expires_unix_ms <= now_unix_ms),
        event_store::acquire_spec(None, run_id, owner, ttl_ns, now_unix_ms) is Ok,
{
}

/// The row of an event holds its place, its version, its hashes and its content as JSON.
pub proof fn law_rows_hold_the_event(
    next: NextView,
    schema_version: u32,
    time: Result<Seq<char>, Seq<char>>,
    event: JsonView,
    hash: Seq<char>,
)
    ensures
        match event_store::encode_spec(next, schema_version, time, event, hash) {
            Ok(row) => {
                &&& time == Ok::<Seq<char>, Seq<char>>(row.timestamp)
                &&& row.sequence == next.sequence
                &&& row.schema_version == schema_version
                &&& row.previous_hash == next.previous_hash
                &&& row.hash == hash
                &&& row.event_json == json::json_text(event)
            },
            Err(_) => time is Err,
        },
{
}

/// What is read of a row is what the row holds, each thing from its own column.
pub proof fn law_events_are_read_from_their_columns(row: RowView)
    ensures
        match event_store::row_spec(row) {
            Ok(e) => {
                &&& e.sequence == row.sequence
                &&& e.schema_version == row.schema_version
                &&& e.previous_hash == row.previous_hash
                &&& e.hash == row.hash
                &&& json::json_parse(row.event_json) == Ok::<JsonView, Seq<char>>(e.event)
                &&& event_store::rfc3339_time(row.timestamp) == Ok::<i128, Seq<char>>(
                    e.timestamp_ns,
                )
            },
            Err(_) => row.sequence < 0 || row.schema_version < 0 || row.schema_version > u32::MAX
                || json::json_parse(row.event_json) is Err || event_store::rfc3339_time(
                row.timestamp,
            ) is Err,
        },
{
}

/// A written event is read as itself, if its JSON and its time are.
pub proof fn law_written_events_are_read_back(
    next: NextView,
    schema_version: u32,
    timestamp: Seq<char>,
    timestamp_ns: i128,
    event: JsonView,
    hash: Seq<char>,
)
    requires
        next.sequence >= 0,
        json::json_parse(json::json_text(event)) == Ok::<JsonView, Seq<char>>(event),
        event_store::rfc3339_time(timestamp) == Ok::<i128, Seq<char>>(timestamp_ns),
    ensures
        event_store::encode_spec(next, schema_version, Ok(timestamp), event, hash) matches Ok(row)
            && event_store::row_spec(row) == Ok::<EnvelopeView, StoreFault>(
            EnvelopeView {
                schema_version,
                sequence: next.sequence as u64,
                timestamp_ns,
                previous_hash: next.previous_hash,
                event,
                hash,
            },
        ),
{
}

/// A log whose rows are in order, follow each other by their hashes and have the hashes of
/// their contents is loaded, event by event; a row out of place, with another predecessor
/// or with another hash is refused.
pub proof fn law_logs_are_checked_row_by_row(
    rows: Seq<CheckedView>,
    row: CheckedView,
    genesis: Seq<char>,
)
    requires
        event_store::load_spec(rows, genesis) is Ok,
        event_store::row_spec(row.row) is Ok,
    ensures
        ({
            let events = event_store::load_spec(rows, genesis)->Ok_0;
            let e = event_store::row_spec(row.row)->Ok_0;
            let fits = {
                &&& e.sequence == (if events.len() == 0 {
                    0
                } else {
                    events.last().sequence + 1
                })
                &&& e.previous_hash == (if events.len() == 0 {
                    genesis
                } else {
                    events.last().hash
                })
                &&& row.hash == e.hash
                &&& row.refusal is None
            };
            &&& event_store::load_spec(rows.push(row), genesis) is Ok <==> fits
            &&& fits ==> event_store::load_spec(rows.push(row), genesis)->Ok_0 == events.push(e)
        }),
{
    assert(rows.push(row).drop_last() =~= rows);
}

/// An artifact lies below the root, in a directory named by the first two characters of
/// its digest, in a file named by the whole digest. No two digests share a place.
pub proof fn law_artifacts_lie_under_their_digest(root: Seq<char>, a: Seq<char>, b: Seq<char>)
    requires
        root.len() > 0,
        root.last() != '/',
    ensures
        artifact::place_spec(root, a) matches Ok(p) ==> p == root + seq!['/'] + a.take(2) + seq!['/']
            + a + seq!['.', 'z', 's', 't'],
        artifact::place_spec(root, a) is Ok && artifact::place_spec(root, a)
            == artifact::place_spec(root, b) ==> a == b,
        artifact::place_spec(root, a) is Ok <==> digest::is_digest(a),
{
    reveal_strlit("/");
    reveal_strlit(".zst");
    assert("/"@ =~= seq!['/']);
    assert(".zst"@ =~= seq!['.', 'z', 's', 't']);
    lemma_place(root, a);
    lemma_place(root, b);
    if artifact::place_spec(root, a) is Ok && artifact::place_spec(root, a) == artifact::place_spec(
        root,
        b,
    ) {
        let p = artifact::place_spec(root, a)->Ok_0;
        let at = root.len() as int + 4;
        assert(p.subrange(at, at + 64) =~= a);
        assert(p.subrange(at, at + 64) =~= b);
    }
}

proof fn lemma_place(root: Seq<char>, a: Seq<char>)
    requires
        root.len() > 0,
        root.last() != '/',
    ensures
        digest::is_digest(a) ==> a.len() == 64,
        artifact::place_spec(root, a) matches Ok(p) ==> p == root + seq!['/'] + a.take(2) + seq!['/']
            + a + seq!['.', 'z', 's', 't'],
{
    reveal_strlit("/");
    reveal_strlit(".zst");
    assert("/"@ =~= seq!['/']);
    assert(".zst"@ =~= seq!['.', 'z', 's', 't']);
    if digest::is_digest(a) {
        let directory = root + "/"@ + a.take(2);
        assert(a[0] != '/' && a[1] != '/');
        assert(directory.last() == a[1]);
        assert(directory + "/"@ + (a + ".zst"@) =~= root + seq!['/'] + a.take(2) + seq!['/'] + a
            + seq!['.', 'z', 's', 't']);
    }
}

} // verus!
