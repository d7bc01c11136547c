use vstd::prelude::*;
use crate::hashing::digest_of;
use crate::payload::{payload_encoding, spec_out_of_range, Payload};
use crate::record::{
    digest_input, genesis_seq, genesis_sentinel, compute_record_digest, well_formed_chain,
    ChainRecord,
};
use crate::store::{
    contains_at, count_at, last_record_spec, lineage_of, lemma_count_at_witness,
    lemma_lineage_member, LedgerStore,
};

verus! {

/// The producer's whole mutable state for one lineage: the position the next
/// record will take and the digest it will link to.
pub struct ProducerState {
    pub lineage_id: String,
    pub next_index: u64,
    pub previous_digest: String,
}

/// The record one step lays down from a state and a payload: it takes the
/// state's next position, links to the state's previous digest, and carries
/// the payload's digest, the alert flag for the range [lo, hi], and the
/// creation time.
pub open spec fn produced_record(
    r: ChainRecord,
    st: ProducerState,
    p: Payload,
    lo: i64,
    hi: i64,
    t: u64,
) -> bool {
    r.sequence_index == st.next_index && r.lineage_id@ == st.lineage_id@ && r.payload_digest@
        == digest_of(payload_encoding(p)) && r.previous_digest@ == st.previous_digest@
        && r.record_digest@ == digest_of(
        digest_input(st.next_index, digest_of(payload_encoding(p)), st.previous_digest@),
    ) && r.flag == spec_out_of_range(p.measurement_tenths, lo, hi) && r.created_at == t
}

/// What one producer step does to the store: nothing when the position is
/// already taken, otherwise it appends exactly the produced record.
pub open spec fn step_effect(
    pre: Seq<ChainRecord>,
    post: Seq<ChainRecord>,
    st: ProducerState,
    p: Payload,
    lo: i64,
    hi: i64,
    t: u64,
) -> bool {
    if contains_at(pre, st.lineage_id@, st.next_index) {
        post == pre
    } else {
        post.len() == pre.len() + 1 && post.drop_last() == pre && produced_record(
            post.last(),
            st,
            p,
            lo,
            hi,
            t,
        )
    }
}

/// The producer's local view agrees with a chain: the next index is one past
/// the chain's length, and the previous digest is the last record's digest
/// (the genesis sentinel for an empty chain).
pub open spec fn producer_consistent(st: ProducerState, c: Seq<ChainRecord>) -> bool {
    st.next_index == c.len() + 1 && st.previous_digest@ == (if c.len() == 0 {
        genesis_seq()
    } else {
        c.last().record_digest@
    })
}

/// Builds the producer state from the stored lineage head, as the resume
/// lookup reports it: an empty lineage starts at index 1 from the genesis
/// sentinel; otherwise production continues right after the highest stored
/// record. A failed lookup is not an input here: the caller must fail hard
/// rather than fall back to genesis.
pub fn resume_from_lookup(lineage_id: String, lookup: Option<(u64, String)>) -> (st: ProducerState)
    requires
        match lookup {
            None => true,
            Some((i, _)) => i < u64::MAX,
        },
    ensures
        st.lineage_id@ == lineage_id@,
        match lookup {
            None => st.next_index == 1 && st.previous_digest@ == genesis_seq(),
            Some((i, d)) => st.next_index == i + 1 && st.previous_digest@ == d@,
        },
{
    match lookup {
        None => ProducerState {
            lineage_id,
            next_index: 1,
            previous_digest: genesis_sentinel(),
        },
        Some((i, d)) => ProducerState { lineage_id, next_index: i + 1, previous_digest: d },
    }
}

/// Cold start against a store: looks the lineage head up and resumes after
/// it.
pub fn resume(store: &LedgerStore, lineage_id: &String) -> (st: ProducerState)
    requires
        match last_record_spec(store@, lineage_id@) {
            None => true,
            Some((i, _)) => i < u64::MAX,
        },
    ensures
        st.lineage_id@ == lineage_id@,
        match last_record_spec(store@, lineage_id@) {
            None => st.next_index == 1 && st.previous_digest@ == genesis_seq(),
            Some((i, d)) => st.next_index == i + 1 && st.previous_digest@ == d,
        },
{
    let lookup = store.last_record(lineage_id);
    resume_from_lookup(lineage_id.clone(), lookup)
}

/// One iteration of the steady loop: derive the payload digest, link the new
/// record to the previous digest, evaluate the alert flag against [lo, hi],
/// append unless the position is already taken, and advance the local state
/// either way.
pub fn step(
    state: ProducerState,
    store: &mut LedgerStore,
    payload: &Payload,
    lo: i64,
    hi: i64,
    created_at: u64,
) -> (res: (ProducerState, bool))
    requires
        state.next_index < u64::MAX,
    ensures
        step_effect(old(store)@, final(store)@, state, *payload, lo, hi, created_at),
        res.1 == !contains_at(old(store)@, state.lineage_id@, state.next_index),
        res.0.lineage_id@ == state.lineage_id@,
        res.0.next_index == state.next_index + 1,
        res.0.previous_digest@ == digest_of(
            digest_input(
                state.next_index,
                digest_of(payload_encoding(*payload)),
                state.previous_digest@,
            ),
        ),
{
    let payload_digest = payload.digest();
    let record_digest = compute_record_digest(
        state.next_index,
        payload_digest.as_str(),
        state.previous_digest.as_str(),
    );
    let appended = if store.exists_at(&state.lineage_id, state.next_index) {
        false
    } else {
        let rec = ChainRecord {
            sequence_index: state.next_index,
            lineage_id: state.lineage_id.clone(),
            payload_digest,
            previous_digest: state.previous_digest.clone(),
            record_digest: record_digest.clone(),
            flag: payload.out_of_range(lo, hi),
            created_at,
        };
        store.append(rec);
        proof {
            assert(store@.drop_last() =~= old(store)@);
        }
        true
    };
    let next = ProducerState {
        lineage_id: state.lineage_id,
        next_index: state.next_index + 1,
        previous_digest: record_digest,
    };
    (next, appended)
}

impl Clone for ProducerState {
    fn clone(&self) -> (r: Self)
        ensures
            r == *self,
    {
        ProducerState {
            lineage_id: self.lineage_id.clone(),
            next_index: self.next_index,
            previous_digest: self.previous_digest.clone(),
        }
    }
}

/// A consistent producer never finds its next position taken: every record
/// of a well-formed lineage sits at an index no higher than the chain's
/// length.
pub proof fn lemma_next_position_free(s: Seq<ChainRecord>, st: ProducerState)
    requires
        well_formed_chain(lineage_of(s, st.lineage_id@)),
        producer_consistent(st, lineage_of(s, st.lineage_id@)),
    ensures
        !contains_at(s, st.lineage_id@, st.next_index),
{
    let lin = st.lineage_id@;
    let c = lineage_of(s, lin);
    if contains_at(s, lin, st.next_index) {
        lemma_count_at_witness(s, lin, st.next_index);
        let j = choose|j: int|
            0 <= j < s.len() && s[j].lineage_id@ == lin && s[j].sequence_index == st.next_index;
        lemma_lineage_member(s, lin, j);
        let w = choose|w: int| 0 <= w < c.len() && c[w] == s[j];
        assert(c[w].sequence_index == w + 1);
        assert(false);
    }
}

/// Chain growth law: a step taken from a state consistent with a well-formed
/// lineage appends one record and leaves the lineage a well-formed chain one
/// longer, with the new state consistent with it.
pub proof fn lemma_step_extends_chain(
    pre: Seq<ChainRecord>,
    post: Seq<ChainRecord>,
    st: ProducerState,
    st2: ProducerState,
    p: Payload,
    lo: i64,
    hi: i64,
    t: u64,
)
    requires
        well_formed_chain(lineage_of(pre, st.lineage_id@)),
        producer_consistent(st, lineage_of(pre, st.lineage_id@)),
        step_effect(pre, post, st, p, lo, hi, t),
        st2.lineage_id@ == st.lineage_id@,
        st2.next_index == st.next_index + 1,
        st2.previous_digest@ == digest_of(
            digest_input(st.next_index, digest_of(payload_encoding(p)), st.previous_digest@),
        ),
    ensures
        well_formed_chain(lineage_of(post, st.lineage_id@)),
        lineage_of(post, st.lineage_id@) == lineage_of(pre, st.lineage_id@).push(post.last()),
        producer_consistent(st2, lineage_of(post, st.lineage_id@)),
{
    let lin = st.lineage_id@;
    let c = lineage_of(pre, lin);
    lemma_next_position_free(pre, st);
    let r = post.last();
    assert(post.drop_last() == pre);
    assert(lineage_of(post, lin) =~= c.push(r));
    let c2 = c.push(r);
    assert forall|i: int| 0 <= i < c2.len() implies (c2[i].sequence_index == i + 1
        && c2[i].previous_digest@ == (if i == 0 {
        genesis_seq()
    } else {
        c2[i - 1].record_digest@
    }) && crate::record::record_digest_ok(c2[i])) by {
        if i < c.len() {
            assert(c2[i] == c[i]);
            if i > 0 {
                assert(c2[i - 1] == c[i - 1]);
            }
        } else {
            assert(c2[i] == r);
            if c.len() > 0 {
                assert(c2[i - 1] == c.last());
            }
        }
    }
}

/// Idempotence law: two step invocations from the same state against the
/// same lineage position leave exactly one record there, however the second
/// call's payload, range or clock read may differ.
pub proof fn lemma_step_idempotent(
    s0: Seq<ChainRecord>,
    s1: Seq<ChainRecord>,
    s2: Seq<ChainRecord>,
    st: ProducerState,
    p1: Payload,
    p2: Payload,
    lo1: i64,
    hi1: i64,
    lo2: i64,
    hi2: i64,
    t1: u64,
    t2: u64,
)
    requires
        !contains_at(s0, st.lineage_id@, st.next_index),
        step_effect(s0, s1, st, p1, lo1, hi1, t1),
        step_effect(s1, s2, st, p2, lo2, hi2, t2),
    ensures
        count_at(s2, st.lineage_id@, st.next_index) == 1,
        s2 == s1,
{
    let lin = st.lineage_id@;
    let idx = st.next_index;
    assert(s1.drop_last() == s0);
    assert(count_at(s1, lin, idx) == count_at(s0, lin, idx) + 1nat);
    assert(count_at(s0, lin, idx) == 0);
    assert(contains_at(s1, lin, idx));
}

/// Resume law: against a store whose lineage is a well-formed chain of N
/// records, the resume lookup reports exactly (N, record N's digest), and
/// the resumed state carries next_index == N + 1 and record N's digest --
/// the state a producer that never stopped would hold.
pub proof fn lemma_resume_consistent(s: Seq<ChainRecord>, lin: Seq<char>, st: ProducerState)
    requires
        well_formed_chain(lineage_of(s, lin)),
        st.lineage_id@ == lin,
        match last_record_spec(s, lin) {
            None => st.next_index == 1 && st.previous_digest@ == genesis_seq(),
            Some((i, d)) => st.next_index == i + 1 && st.previous_digest@ == d,
        },
    ensures
        producer_consistent(st, lineage_of(s, lin)),
        lineage_of(s, lin).len() > 0 ==> last_record_spec(s, lin) == Some(
            (
                lineage_of(s, lin).len() as u64,
                lineage_of(s, lin).last().record_digest@,
            ),
        ),
{
    lemma_last_record_of_chain(s, lin);
}

/// Resume continuity law: a record produced from a resumed state extends
/// the stored lineage to one continuous well-formed chain -- the new record
/// concatenated with the original records still checks out as Valid, and
/// the advanced state is consistent with the longer chain.
pub proof fn lemma_resume_extends_one_chain(
    s: Seq<ChainRecord>,
    post: Seq<ChainRecord>,
    st: ProducerState,
    st2: ProducerState,
    p: Payload,
    lo: i64,
    hi: i64,
    t: u64,
)
    requires
        well_formed_chain(lineage_of(s, st.lineage_id@)),
        match last_record_spec(s, st.lineage_id@) {
            None => st.next_index == 1 && st.previous_digest@ == genesis_seq(),
            Some((i, d)) => st.next_index == i + 1 && st.previous_digest@ == d,
        },
        step_effect(s, post, st, p, lo, hi, t),
        st2.lineage_id@ == st.lineage_id@,
        st2.next_index == st.next_index + 1,
        st2.previous_digest@ == digest_of(
            digest_input(st.next_index, digest_of(payload_encoding(p)), st.previous_digest@),
        ),
    ensures
        lineage_of(post, st.lineage_id@) == lineage_of(s, st.lineage_id@).push(post.last()),
        well_formed_chain(lineage_of(post, st.lineage_id@)),
        crate::checker::spec_verify(lineage_of(post, st.lineage_id@))
            == crate::checker::VerificationResult::Valid,
        producer_consistent(st2, lineage_of(post, st.lineage_id@)),
{
    lemma_resume_consistent(s, st.lineage_id@, st);
    lemma_step_extends_chain(s, post, st, st2, p, lo, hi, t);
    crate::checker::lemma_valid_iff_well_formed(lineage_of(post, st.lineage_id@));
}

/// On a store whose lineage forms a well-formed chain, the head lookup
/// reports the chain's length and its last record's digest.
proof fn lemma_last_record_of_chain(s: Seq<ChainRecord>, lin: Seq<char>)
    requires
        well_formed_chain(lineage_of(s, lin)),
    ensures
        lineage_of(s, lin).len() == 0 ==> last_record_spec(s, lin) is None,
        lineage_of(s, lin).len() > 0 ==> last_record_spec(s, lin) == Some(
            (
                lineage_of(s, lin).len() as u64,
                lineage_of(s, lin).last().record_digest@,
            ),
        ),
    decreases s.len(),
{
    if s.len() == 0 {
    } else {
        let c = lineage_of(s, lin);
        let cp = lineage_of(s.drop_last(), lin);
        let r = s.last();
        if r.lineage_id@ == lin {
            assert(c =~= cp.push(r));
            assert(cp =~= c.drop_last());
            assert(well_formed_chain(cp)) by {
                assert forall|i: int| 0 <= i < cp.len() implies (cp[i].sequence_index == i + 1
                    && cp[i].previous_digest@ == (if i == 0 {
                    genesis_seq()
                } else {
                    cp[i - 1].record_digest@
                }) && crate::record::record_digest_ok(cp[i])) by {
                    assert(cp[i] == c[i]);
                    if i > 0 {
                        assert(cp[i - 1] == c[i - 1]);
                    }
                }
            }
            lemma_last_record_of_chain(s.drop_last(), lin);
            assert(c[c.len() - 1] == r);
            assert(r.sequence_index == c.len());
        } else {
            assert(c =~= cp);
            lemma_last_record_of_chain(s.drop_last(), lin);
        }
    }
}

} // verus!
