//! Artifacts, events and leases.

use pactrail::json::Json;
use pactrail::store::artifact::{accept_content, ArtifactError, ArtifactStore, MAX_ARTIFACT_BYTES};
use pactrail::store::event_store::{
    acquire_run_lease_at, append, check_database_schema, decode_row, encode_row, lease_clock,
    lease_expiry, load, release_run_lease, CheckedRow, EventRow, RunLease, StoreError, StoredHead,
};

const MILLISECOND: u128 = 1_000_000;
const GENESIS: &str = "genesis";

fn artifacts() -> ArtifactStore {
    ArtifactStore {
        root: "/artifacts".to_owned(),
    }
}

#[test]
fn artifacts_round_trip_and_deduplicate() {
    let store = artifacts();
    let first = store
        .put(b"important evidence", None)
        .unwrap_or_else(|error| unreachable!("store artifact: {}", error.message()));
    let frame = first
        .frame
        .unwrap_or_else(|| unreachable!("new artifacts are written"));
    let second = store
        .put(b"important evidence", Some(&frame))
        .unwrap_or_else(|error| unreachable!("store artifact again: {}", error.message()));
    assert_eq!(first.digest, second.digest);
    assert!(second.frame.is_none());
    assert_eq!(
        store.get(&first.digest, &frame).ok(),
        Some(b"important evidence".to_vec())
    );
}

#[test]
fn rejects_path_like_digests() {
    let store = artifacts();
    assert!(matches!(
        store.get("../secret", &[]),
        Err(ArtifactError::InvalidDigest(_))
    ));
    assert!(matches!(
        store.contains(&"A".repeat(64), true),
        Err(ArtifactError::InvalidDigest(_))
    ));
}

#[test]
fn existing_corrupt_artifact_is_never_reported_as_stored() {
    let store = artifacts();
    let artifact = store
        .put(b"durable evidence", None)
        .unwrap_or_else(|error| unreachable!("initial artifact: {}", error.message()));
    assert!(artifact.frame.is_some());
    assert!(store.put(b"durable evidence", Some(b"corrupt")).is_err());
}

#[test]
fn another_artifact_in_its_place_is_not_taken_for_it() {
    let store = artifacts();
    let other = store
        .put(b"other evidence", None)
        .unwrap_or_else(|error| unreachable!("artifact: {}", error.message()));
    let frame = other.frame.unwrap_or_else(|| unreachable!("frame"));
    assert!(matches!(
        store.put(b"durable evidence", Some(&frame)),
        Err(ArtifactError::Integrity { .. })
    ));
}

#[test]
fn artifacts_lie_in_shards_of_their_digests() {
    let (digest, path) = artifacts()
        .address(b"important evidence")
        .unwrap_or_else(|error| unreachable!("address: {}", error.message()));
    assert_eq!(digest.len(), 64);
    assert_eq!(path, format!("/artifacts/{}/{}.zst", &digest[..2], digest));
}

#[test]
fn the_digest_of_nothing_is_known() {
    let (digest, _) = artifacts()
        .address(b"")
        .unwrap_or_else(|error| unreachable!("address: {}", error.message()));
    assert_eq!(
        digest,
        "af1349b9f5f9a1a6a0404dea36dcc9499bcb25c9adc112b7cc9a93cae41f3262"
    );
}

#[test]
fn oversized_content_is_refused() {
    assert!(matches!(
        ArtifactStore::check_frame(128 * 1024 * 1024 + 1),
        Err(ArtifactError::TooLarge { .. })
    ));
    assert!(ArtifactStore::check_frame(128 * 1024 * 1024).is_ok());
    let content = vec![0_u8; MAX_ARTIFACT_BYTES as usize + 1];
    assert!(matches!(
        accept_content("digest", content, "digest".to_owned()),
        Err(ArtifactError::TooLarge { actual, limit }) if actual == limit + 1
    ));
}

fn head_of(row: &EventRow) -> Option<StoredHead> {
    Some(StoredHead {
        sequence: row.sequence,
        hash: row.hash.clone(),
    })
}

fn intact(rows: &[EventRow]) -> Vec<CheckedRow> {
    rows.iter()
        .map(|row| CheckedRow {
            row: row.clone(),
            hash: row.hash.clone(),
            refusal: None,
        })
        .collect()
}

#[test]
fn stored_events_are_read_back() {
    let event = Json::object2(
        "type",
        Json::text("note_recorded"),
        "message",
        Json::text("first \u{1f600} \"note\"\n"),
    );
    let next = append(&None, 0, GENESIS)
        .unwrap_or_else(|error| unreachable!("append: {}", error.message()));
    let first = encode_row(next, 1, 1_700_000_000_123_456_789, &event, "hash-0")
        .unwrap_or_else(|error| unreachable!("row: {}", error.message()));
    assert_eq!(first.timestamp, "2023-11-14T22:13:20.123456789Z");
    let next = append(&head_of(&first), 1, GENESIS)
        .unwrap_or_else(|error| unreachable!("append: {}", error.message()));
    assert_eq!(next.previous_hash, "hash-0");
    let second = encode_row(next, 1, 1_700_000_000_123_456_790, &event, "hash-1")
        .unwrap_or_else(|error| unreachable!("row: {}", error.message()));
    let rows = vec![first.clone(), second.clone()];
    let events = load(&intact(&rows), GENESIS)
        .unwrap_or_else(|error| unreachable!("load: {}", error.message()));
    assert_eq!(events.len(), 2);
    assert_eq!(events[0].hash, events[1].previous_hash);
    let read = decode_row(second)
        .unwrap_or_else(|error| unreachable!("decode: {}", error.message()));
    assert_eq!(read.sequence, 1);
    assert_eq!(read.schema_version, 1);
    assert_eq!(read.timestamp_ns, 1_700_000_000_123_456_790);
    assert_eq!(read.previous_hash, "hash-0");
    assert_eq!(read.hash, "hash-1");
    assert_eq!(read.event.to_text(), event.to_text());
    assert_eq!(
        read.event.get("message").and_then(Json::as_str),
        Some("first \u{1f600} \"note\"\n")
    );
}

#[test]
fn broken_logs_are_never_loaded() {
    let row = |sequence: i64, previous_hash: &str, hash: &str| EventRow {
        sequence,
        schema_version: 1,
        timestamp: "2023-11-14T22:13:20Z".to_owned(),
        previous_hash: previous_hash.to_owned(),
        event_json: "{}".to_owned(),
        hash: hash.to_owned(),
    };
    assert!(load(&intact(&[row(0, GENESIS, "a"), row(1, "a", "b")]), GENESIS).is_ok());
    for rows in [
        vec![row(1, GENESIS, "a")],
        vec![row(0, GENESIS, "a"), row(2, "a", "b")],
        vec![row(0, GENESIS, "a"), row(1, "x", "b")],
        vec![row(0, "x", "a")],
    ] {
        assert!(matches!(load(&intact(&rows), GENESIS), Err(StoreError::State(_))));
    }
}

#[test]
fn unreadable_rows_are_refused() {
    let row = |sequence: i64, schema_version: i64, timestamp: &str, event_json: &str| EventRow {
        sequence,
        schema_version,
        timestamp: timestamp.to_owned(),
        previous_hash: String::new(),
        event_json: event_json.to_owned(),
        hash: String::new(),
    };
    let time = "2023-11-14T22:13:20Z";
    assert!(decode_row(row(0, 1, time, "{}")).is_ok());
    assert!(matches!(
        decode_row(row(-1, 1, time, "{}")),
        Err(StoreError::InvalidSequence(-1))
    ));
    assert!(matches!(
        decode_row(row(0, -1, time, "{}")),
        Err(StoreError::InvalidSchema(-1))
    ));
    assert!(matches!(
        decode_row(row(0, 1, "yesterday", "{}")),
        Err(StoreError::TimeParse(_))
    ));
    assert!(matches!(
        decode_row(row(0, 1, time, "{")),
        Err(StoreError::Serialization(_))
    ));
}

#[test]
fn optimistic_sequence_prevents_lost_events() {
    let next = append(&None, 0, GENESIS)
        .unwrap_or_else(|error| unreachable!("append first: {}", error.message()));
    let head = Some(StoredHead {
        sequence: next.sequence,
        hash: "hash-0".to_owned(),
    });
    assert!(matches!(
        append(&head, 0, GENESIS),
        Err(StoreError::Concurrency {
            expected: 0,
            actual: 1
        })
    ));
}

#[test]
fn sequences_stay_in_the_stored_range() {
    let corrupt = Some(StoredHead {
        sequence: -3,
        hash: String::new(),
    });
    assert!(matches!(
        append(&corrupt, 0, GENESIS),
        Err(StoreError::InvalidSequence(-3))
    ));
    let full = Some(StoredHead {
        sequence: i64::MAX,
        hash: String::new(),
    });
    let beyond = i64::MAX as u64 + 1;
    assert!(matches!(
        append(&full, beyond, GENESIS),
        Err(StoreError::SequenceOverflow(sequence)) if sequence == beyond
    ));
}

#[test]
fn live_lease_excludes_a_second_owner_and_stale_lease_is_replaceable() {
    let first = acquire_run_lease_at(&None, "run", "owner-a", 100 * MILLISECOND, 1_000)
        .unwrap_or_else(|error| unreachable!("first lease: {}", error.message()));
    let held = Some(first);
    assert!(matches!(
        acquire_run_lease_at(&held, "run", "owner-b", 100 * MILLISECOND, 1_099),
        Err(StoreError::LeaseHeld { .. })
    ));
    let second = acquire_run_lease_at(&held, "run", "owner-b", 100 * MILLISECOND, 1_100)
        .unwrap_or_else(|error| unreachable!("replacement lease: {}", error.message()));
    let first = held.unwrap_or_else(|| unreachable!("lease"));
    assert_ne!(first.owner, second.owner);
    let owner = Some(second.owner.clone());
    assert!(matches!(
        release_run_lease(&owner, &first),
        Err(StoreError::LeaseOwnership { .. })
    ));
    let released = release_run_lease(&owner, &second)
        .unwrap_or_else(|error| unreachable!("release: {}", error.message()));
    assert!(released);
    let again = release_run_lease(&None, &second)
        .unwrap_or_else(|error| unreachable!("idempotent release: {}", error.message()));
    assert!(!again);
}

#[test]
fn an_owner_renews_its_own_lease() {
    let held = Some(RunLease {
        run_id: "run".to_owned(),
        owner: "owner-a".to_owned(),
        expires_unix_ms: 5_000,
    });
    let renewed = acquire_run_lease_at(&held, "run", "owner-a", 100 * MILLISECOND, 1_000)
        .unwrap_or_else(|error| unreachable!("renewal: {}", error.message()));
    assert_eq!(renewed.expires_unix_ms, 1_100);
}

#[test]
fn lease_owners_and_durations_are_bounded() {
    for owner in ["", "two words", "tab\t", &"x".repeat(129)] {
        assert!(matches!(
            lease_expiry(owner, 100 * MILLISECOND, 0),
            Err(StoreError::InvalidLeaseOwner)
        ));
    }
    let month = 30 * 24 * 60 * 60 * 1_000 * MILLISECOND;
    assert!(lease_expiry("owner", month, 0).is_ok());
    for (ttl, now) in [(month + 1, 0), (MILLISECOND - 1, 0), (MILLISECOND, -1), (MILLISECOND, i64::MAX)] {
        assert!(matches!(
            lease_expiry("owner", ttl, now),
            Err(StoreError::LeaseTtlRange)
        ));
    }
    assert_eq!(lease_clock(1_999_999).ok(), Some(1));
    assert_eq!(lease_clock(-1_999_999).ok(), Some(-1));
    assert!(matches!(lease_clock(i128::MAX), Err(StoreError::LeaseClockRange)));
}

#[test]
fn future_database_schema_is_rejected() {
    assert!(matches!(
        check_database_schema(99),
        Err(StoreError::UnsupportedDatabaseSchema(99))
    ));
    assert_eq!(check_database_schema(1).ok(), Some(true));
    assert_eq!(check_database_schema(2).ok(), Some(false));
}

#[test]
fn artifact_paths_join_their_root_as_a_directory() {
    let digest = "ab".repeat(32);
    for (root, expected) in [
        ("", format!("ab/{digest}.zst")),
        ("/", format!("/ab/{digest}.zst")),
        ("artifacts", format!("artifacts/ab/{digest}.zst")),
        ("/artifacts/", format!("/artifacts/ab/{digest}.zst")),
    ] {
        let store = ArtifactStore { root: root.to_owned() };
        assert_eq!(store.path_for(&digest).ok(), Some(expected));
    }
}

#[test]
fn stored_content_of_any_kind_is_read_back() {
    let noise: Vec<u8> = (0..100_000_u32).map(|n| (n.wrapping_mul(2_654_435_761) >> 24) as u8).collect();
    for content in [Vec::new(), vec![0_u8; 1_000_000], noise] {
        let placement = artifacts()
            .put(&content, None)
            .unwrap_or_else(|error| unreachable!("store artifact: {}", error.message()));
        assert_eq!(placement.uncompressed_bytes, content.len() as u64);
        let frame = placement.frame.unwrap_or_else(|| unreachable!("frame"));
        assert_ne!(frame, content);
        assert!(frame.len() <= content.len() + content.len() / 2 + 1024);
        assert_eq!(artifacts().get(&placement.digest, &frame).ok(), Some(content));
    }
}

#[test]
fn only_the_next_place_is_given_and_what_is_appended_is_loaded() {
    let event = Json::object1("count", Json::number(7));
    let mut rows: Vec<EventRow> = Vec::new();
    for place in 0..3_u64 {
        let head = rows.last().and_then(head_of);
        for expected in (0..5).filter(|expected| *expected != place) {
            assert!(matches!(
                append(&head, expected, GENESIS),
                Err(StoreError::Concurrency { expected: asked, actual })
                    if asked == expected && actual == place
            ));
        }
        let next = append(&head, place, GENESIS)
            .unwrap_or_else(|error| unreachable!("append: {}", error.message()));
        let row = encode_row(next, 1, i128::from(place), &event, &format!("hash-{place}"))
            .unwrap_or_else(|error| unreachable!("row: {}", error.message()));
        rows.push(row);
        let events = load(&intact(&rows), GENESIS)
            .unwrap_or_else(|error| unreachable!("load: {}", error.message()));
        assert_eq!(events.len() as u64, place + 1);
        let last = &events[place as usize];
        assert_eq!((last.sequence, last.timestamp_ns), (place, i128::from(place)));
        assert_eq!(last.hash, format!("hash-{place}"));
        assert_eq!(last.event.to_text(), event.to_text());
    }
}

#[test]
fn altered_and_refused_events_are_never_loaded() {
    let row = EventRow {
        sequence: 0,
        schema_version: 1,
        timestamp: "2023-11-14T22:13:20Z".to_owned(),
        previous_hash: GENESIS.to_owned(),
        event_json: "{}".to_owned(),
        hash: "stored".to_owned(),
    };
    let check = |hash: &str, refusal: Option<&str>| {
        let rows = vec![CheckedRow {
            row: row.clone(),
            hash: hash.to_owned(),
            refusal: refusal.map(str::to_owned),
        }];
        load(&rows, GENESIS)
    };
    assert!(check("stored", None).is_ok());
    assert!(matches!(
        check("computed", None),
        Err(StoreError::State(message)) if message == "event 0 does not have the hash of its content"
    ));
    assert!(matches!(
        check("stored", Some("run has ended")),
        Err(StoreError::State(message)) if message == "run has ended"
    ));
}
