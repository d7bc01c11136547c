use coldchain::checker::{verify, BreakReason, VerificationResult};
use coldchain::decimal::{i64_to_string, u64_to_string};
use coldchain::facade::{fetch_lineage, fetch_lineage_verified};
use coldchain::payload::Payload;
use coldchain::producer::{resume, resume_from_lookup, step};
use coldchain::record::{compute_record_digest, genesis_sentinel, ChainRecord};
use coldchain::store::LedgerStore;
use sha2::{Digest, Sha256};

fn sha256_hex_of(s: &str) -> String {
    let mut hasher = Sha256::new();
    hasher.update(s.as_bytes());
    format!("{:x}", hasher.finalize())
}

fn make_payload(tenths: i64) -> Payload {
    Payload {
        measurement_tenths: tenths,
        container_no: "CONT-0001".to_string(),
        batch_no: "VAC-000123".to_string(),
        vaccine_name: "Covishield".to_string(),
        manufacture_name: "Serum Institute".to_string(),
        shipment_name: "BlueDart".to_string(),
        current_location: "Mumbai".to_string(),
        timestamp: "2024-01-01T00:00:00Z".to_string(),
    }
}

fn make_record(index: u64, lineage: &str, payload_digest: &str, previous: &str) -> ChainRecord {
    ChainRecord {
        sequence_index: index,
        lineage_id: lineage.to_string(),
        payload_digest: payload_digest.to_string(),
        previous_digest: previous.to_string(),
        record_digest: compute_record_digest(index, payload_digest, previous),
        flag: false,
        created_at: 0,
    }
}

#[test]
fn decimal_rendering() {
    assert_eq!(u64_to_string(0), "0");
    assert_eq!(u64_to_string(7), "7");
    assert_eq!(u64_to_string(12345), "12345");
    assert_eq!(u64_to_string(u64::MAX), "18446744073709551615");
    assert_eq!(i64_to_string(85), "85");
    assert_eq!(i64_to_string(-85), "-85");
    assert_eq!(i64_to_string(0), "0");
    assert_eq!(i64_to_string(i64::MIN), "-9223372036854775808");
}

#[test]
fn genesis_sentinel_is_zero() {
    assert_eq!(genesis_sentinel(), "0");
}

#[test]
fn payload_encoding_is_fields_joined() {
    let p = make_payload(85);
    assert_eq!(
        p.encode(),
        "85|CONT-0001|VAC-000123|Covishield|Serum Institute|BlueDart|Mumbai|2024-01-01T00:00:00Z"
    );
}

#[test]
fn payload_digest_matches_direct_hash() {
    let p = make_payload(53);
    let encoded = p.encode();
    assert_eq!(p.digest(), sha256_hex_of(&encoded));
    assert_ne!(p.digest(), encoded);
}

#[test]
fn record_digest_matches_direct_hash() {
    let d = compute_record_digest(1, "p1", "0");
    assert_eq!(d, sha256_hex_of("1|p1|0"));
    assert_eq!(d.len(), 64);
}

#[test]
fn flag_rule_range_in_tenths() {
    let hot = make_payload(85);
    assert!(hot.out_of_range(20, 80));
    let fine = make_payload(50);
    assert!(!fine.out_of_range(20, 80));
    let cold = make_payload(15);
    assert!(cold.out_of_range(20, 80));
    let low_edge = make_payload(20);
    assert!(!low_edge.out_of_range(20, 80));
    let high_edge = make_payload(80);
    assert!(!high_edge.out_of_range(20, 80));
}

#[test]
fn two_record_scenario_verifies_and_breaks_on_bad_link() {
    let d1 = compute_record_digest(1, "p1", "0");
    assert_eq!(d1, sha256_hex_of("1|p1|0"));
    let d2 = compute_record_digest(2, "p2", &d1);
    assert_eq!(d2, sha256_hex_of(&format!("2|p2|{}", d1)));

    let r1 = make_record(1, "L", "p1", "0");
    let r2 = make_record(2, "L", "p2", &d1);
    assert_eq!(verify(&vec![r1.clone(), r2.clone()]), VerificationResult::Valid);

    let mut bad = r2.clone();
    bad.previous_digest = "not-the-first-digest".to_string();
    assert_eq!(
        verify(&vec![r1, bad]),
        VerificationResult::Broken { at_index: 2, reason: BreakReason::PreviousLinkMismatch }
    );
}

#[test]
fn verify_empty_chain_is_valid() {
    assert_eq!(verify(&Vec::new()), VerificationResult::Valid);
}

#[test]
fn verify_reports_digest_mismatch() {
    let r1 = make_record(1, "L", "p1", "0");
    let mut r2 = make_record(2, "L", "p2", &r1.record_digest);
    r2.record_digest = sha256_hex_of("something else");
    assert_eq!(
        verify(&vec![r1.clone(), r2]),
        VerificationResult::Broken { at_index: 2, reason: BreakReason::DigestMismatch }
    );

    let mut tampered_payload = make_record(2, "L", "p2", &r1.record_digest);
    tampered_payload.payload_digest = "p2-tampered".to_string();
    assert_eq!(
        verify(&vec![r1, tampered_payload]),
        VerificationResult::Broken { at_index: 2, reason: BreakReason::DigestMismatch }
    );
}

#[test]
fn verify_reports_sequence_gap() {
    let r1 = make_record(1, "L", "p1", "0");
    let r3 = make_record(3, "L", "p3", &r1.record_digest);
    assert_eq!(
        verify(&vec![r1, r3]),
        VerificationResult::Broken { at_index: 2, reason: BreakReason::SequenceGap }
    );
}

#[test]
fn produced_chain_verifies_valid() {
    let lineage = "VAC-000123".to_string();
    let mut store = LedgerStore::new();
    let mut state = resume(&store, &lineage);
    assert_eq!(state.next_index, 1);
    assert_eq!(state.previous_digest, "0");

    let temps: [i64; 4] = [45, 85, 12, 60];
    for (i, t) in temps.iter().enumerate() {
        let (next, appended) = step(state, &mut store, &make_payload(*t), 20, 80, i as u64);
        assert!(appended);
        state = next;
    }

    let (records, verdict) = fetch_lineage_verified(&store, &lineage);
    assert_eq!(verdict, VerificationResult::Valid);
    assert_eq!(records.len(), 4);
    assert_eq!(records[0].sequence_index, 1);
    assert_eq!(records[0].previous_digest, "0");
    assert!(!records[0].flag);
    assert!(records[1].flag);
    assert!(records[2].flag);
    assert!(!records[3].flag);
    for i in 1..records.len() {
        assert_eq!(records[i].previous_digest, records[i - 1].record_digest);
    }
}

#[test]
fn step_is_idempotent_per_position() {
    let lineage = "VAC-000123".to_string();
    let mut store = LedgerStore::new();
    let state = resume(&store, &lineage);
    let payload = make_payload(50);

    let (_, appended_first) = step(state.clone(), &mut store, &payload, 20, 80, 1);
    assert!(appended_first);
    let (_, appended_second) = step(state, &mut store, &payload, 20, 80, 2);
    assert!(!appended_second);

    let records = fetch_lineage(&store, &lineage);
    assert_eq!(records.len(), 1);
    assert_eq!(records[0].sequence_index, 1);
    assert_eq!(records[0].created_at, 1);
}

#[test]
fn resume_continues_one_chain() {
    let lineage = "VAC-000123".to_string();
    let mut store = LedgerStore::new();
    let mut state = resume(&store, &lineage);
    for i in 0..3u64 {
        let (next, _) = step(state, &mut store, &make_payload(40 + i as i64), 20, 80, i);
        state = next;
    }
    let last_digest = state.previous_digest.clone();
    drop(state);

    let resumed = resume(&store, &lineage);
    assert_eq!(resumed.next_index, 4);
    assert_eq!(resumed.previous_digest, last_digest);
    let head = store.last_record(&lineage).unwrap();
    assert_eq!(head.0, 3);
    assert_eq!(head.1, resumed.previous_digest);

    let mut state = resumed;
    for i in 3..5u64 {
        let (next, appended) = step(state, &mut store, &make_payload(40 + i as i64), 20, 80, i);
        assert!(appended);
        state = next;
    }

    let (records, verdict) = fetch_lineage_verified(&store, &lineage);
    assert_eq!(verdict, VerificationResult::Valid);
    assert_eq!(records.len(), 5);
}

#[test]
fn resume_from_lookup_cold_start() {
    let st = resume_from_lookup("L".to_string(), None);
    assert_eq!(st.next_index, 1);
    assert_eq!(st.previous_digest, "0");

    let st = resume_from_lookup("L".to_string(), Some((7, "abc".to_string())));
    assert_eq!(st.next_index, 8);
    assert_eq!(st.previous_digest, "abc");
}

#[test]
fn prune_keeps_earliest_duplicate() {
    let lineage = "L".to_string();
    let mut store = LedgerStore::new();
    let first = make_record(1, "L", "p-early", "0");
    let second = make_record(1, "L", "p-late", "0");
    let other = make_record(1, "M", "p-other", "0");
    store.append(first);
    store.append(second);
    store.append(other);

    let removed = store.prune_duplicates(&lineage);
    assert_eq!(removed, 1);

    let records = fetch_lineage(&store, &lineage);
    assert_eq!(records.len(), 1);
    assert_eq!(records[0].payload_digest, "p-early");

    let others = fetch_lineage(&store, &"M".to_string());
    assert_eq!(others.len(), 1);

    let removed_again = store.prune_duplicates(&lineage);
    assert_eq!(removed_again, 0);
}

#[test]
fn exists_at_sees_only_occupied_positions() {
    let lineage = "L".to_string();
    let mut store = LedgerStore::new();
    assert!(!store.exists_at(&lineage, 1));
    store.append(make_record(1, "L", "p1", "0"));
    assert!(store.exists_at(&lineage, 1));
    assert!(!store.exists_at(&lineage, 2));
    assert!(!store.exists_at(&"M".to_string(), 1));
}

#[test]
fn last_record_empty_lineage_is_none() {
    let store = LedgerStore::new();
    assert!(store.last_record(&"L".to_string()).is_none());
}

#[test]
fn list_ordered_sorts_by_sequence_index() {
    let lineage = "L".to_string();
    let mut store = LedgerStore::new();
    store.append(make_record(3, "L", "p3", "x"));
    store.append(make_record(1, "L", "p1", "0"));
    store.append(make_record(2, "L", "p2", "y"));
    let records = fetch_lineage(&store, &lineage);
    assert_eq!(records.len(), 3);
    assert_eq!(records[0].sequence_index, 1);
    assert_eq!(records[1].sequence_index, 2);
    assert_eq!(records[2].sequence_index, 3);
}
