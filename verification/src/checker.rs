use vstd::prelude::*;
use crate::record::{
    compute_record_digest, digest_input, genesis_seq, genesis_sentinel, record_digest_ok,
    well_formed_chain, ChainRecord,
};
use crate::hashing::digest_of;

verus! {

/// Why a chain failed verification.
#[derive(Clone, Copy, Debug, PartialEq, Eq, Structural)]
pub enum BreakReason {
    /// A record digest does not match what its stored fields hash to.
    DigestMismatch,
    /// A record does not sit at the next expected sequence index.
    SequenceGap,
    /// A record's previous digest is not its predecessor's record digest.
    PreviousLinkMismatch,
}

/// The outcome of checking a chain: Valid, or the first break with its
/// position and reason.
#[derive(Clone, Copy, Debug, PartialEq, Eq, Structural)]
pub enum VerificationResult {
    Valid,
    Broken { at_index: u64, reason: BreakReason },
}

/// The checks one record must pass, in the order the chain checker applies them:
/// its position, then its link to the predecessor, then its own digest.
pub open spec fn break_at(c: Seq<ChainRecord>, i: int) -> Option<BreakReason> {
    if c[i].sequence_index != i + 1 {
        Some(BreakReason::SequenceGap)
    } else if c[i].previous_digest@ != (if i == 0 {
        genesis_seq()
    } else {
        c[i - 1].record_digest@
    }) {
        Some(BreakReason::PreviousLinkMismatch)
    } else if !record_digest_ok(c[i]) {
        Some(BreakReason::DigestMismatch)
    } else {
        None
    }
}

/// The verdict on the records from position i on, given that all earlier
/// positions passed.
pub open spec fn verify_from(c: Seq<ChainRecord>, i: int) -> VerificationResult
    decreases c.len() - i,
{
    if i < 0 || i >= c.len() {
        VerificationResult::Valid
    } else {
        match break_at(c, i) {
            Some(r) => VerificationResult::Broken { at_index: (i + 1) as u64, reason: r },
            None => verify_from(c, i + 1),
        }
    }
}

/// The verdict on a whole chain: Valid when every record passes, otherwise
/// the first break, with its position and reason.
pub open spec fn spec_verify(c: Seq<ChainRecord>) -> VerificationResult {
    verify_from(c, 0)
}

/// Walks the records in order and checks each: position contiguous from 1,
/// previous digest equal to the predecessor's record digest (the genesis
/// sentinel at the front), and the record digest recomputable from the
/// stored fields. The first violation short-circuits; a read-only pass.
pub fn verify(records: &Vec<ChainRecord>) -> (res: VerificationResult)
    ensures
        res == spec_verify(records@),
{
    let genesis = genesis_sentinel();
    let n = records.len();
    for i in 0..n
        invariant
            n == records@.len(),
            genesis@ == genesis_seq(),
            spec_verify(records@) == verify_from(records@, i as int),
    {
        let r = &records[i];
        let expected: u64 = (i as u64) + 1;
        if r.sequence_index != expected {
            return VerificationResult::Broken {
                at_index: expected,
                reason: BreakReason::SequenceGap,
            };
        }
        let link_ok = if i == 0 {
            r.previous_digest == genesis
        } else {
            r.previous_digest == records[i - 1].record_digest
        };
        if !link_ok {
            return VerificationResult::Broken {
                at_index: expected,
                reason: BreakReason::PreviousLinkMismatch,
            };
        }
        let recomputed = compute_record_digest(
            r.sequence_index,
            r.payload_digest.as_str(),
            r.previous_digest.as_str(),
        );
        if !(r.record_digest == recomputed) {
            return VerificationResult::Broken {
                at_index: expected,
                reason: BreakReason::DigestMismatch,
            };
        }
        proof {
            assert(break_at(records@, i as int) is None);
        }
    }
    VerificationResult::Valid
}

/// A Valid verdict from position i on means no break at any later position.
proof fn lemma_verify_from_valid(c: Seq<ChainRecord>, i: int)
    requires
        0 <= i <= c.len(),
    ensures
        verify_from(c, i) == VerificationResult::Valid <==> (forall|j: int|
            i <= j < c.len() ==> break_at(c, j) is None),
    decreases c.len() - i,
{
    if i < c.len() {
        lemma_verify_from_valid(c, i + 1);
    }
}

/// When every position before i passes, the verdict is decided from i on.
proof fn lemma_verify_from_skip(c: Seq<ChainRecord>, i: int)
    requires
        0 <= i <= c.len(),
        forall|j: int| 0 <= j < i ==> break_at(c, j) is None,
    ensures
        spec_verify(c) == verify_from(c, i),
    decreases i,
{
    if i > 0 {
        lemma_verify_from_skip(c, i - 1);
    }
}

/// Soundness and completeness of chain checking: a chain checks out as
/// Valid exactly when it is well-formed. In particular, every chain the
/// producer lays down checks out as Valid.
pub proof fn lemma_valid_iff_well_formed(c: Seq<ChainRecord>)
    ensures
        spec_verify(c) == VerificationResult::Valid <==> well_formed_chain(c),
{
    lemma_verify_from_valid(c, 0);
    if forall|j: int| 0 <= j < c.len() ==> break_at(c, j) is None {
        assert forall|i: int| #![trigger c[i]] 0 <= i < c.len() implies (c[i].sequence_index == i
            + 1 && c[i].previous_digest@ == (if i == 0 {
            genesis_seq()
        } else {
            c[i - 1].record_digest@
        }) && record_digest_ok(c[i])) by {
            assert(break_at(c, i) is None);
        }
    }
    if well_formed_chain(c) {
        assert forall|j: int| 0 <= j < c.len() implies break_at(c, j) is None by {
            assert(c[j].sequence_index == j + 1);
        }
    }
}

/// Tamper evidence for the chain link: altering a stored record's previous
/// digest (at any position past the first) makes verification break at that
/// record with PreviousLinkMismatch.
pub proof fn lemma_tamper_previous_digest(c: Seq<ChainRecord>, n: int, r2: ChainRecord)
    requires
        well_formed_chain(c),
        1 <= n < c.len(),
        r2.sequence_index == c[n].sequence_index,
        r2.previous_digest@ != c[n].previous_digest@,
    ensures
        spec_verify(c.update(n, r2)) == (VerificationResult::Broken {
            at_index: c[n].sequence_index,
            reason: BreakReason::PreviousLinkMismatch,
        }),
{
    let c2 = c.update(n, r2);
    lemma_prefix_passes(c, c2, n);
    lemma_verify_from_skip(c2, n);
    assert(c2[n - 1] == c[n - 1]);
    assert(break_at(c2, n) == Some(BreakReason::PreviousLinkMismatch));
}

/// Tamper evidence for the record digest: altering a stored record's record
/// digest makes verification break at that record with DigestMismatch.
pub proof fn lemma_tamper_record_digest(c: Seq<ChainRecord>, n: int, r2: ChainRecord)
    requires
        well_formed_chain(c),
        0 <= n < c.len(),
        r2.sequence_index == c[n].sequence_index,
        r2.payload_digest@ == c[n].payload_digest@,
        r2.previous_digest@ == c[n].previous_digest@,
        r2.record_digest@ != c[n].record_digest@,
    ensures
        spec_verify(c.update(n, r2)) == (VerificationResult::Broken {
            at_index: c[n].sequence_index,
            reason: BreakReason::DigestMismatch,
        }),
{
    let c2 = c.update(n, r2);
    lemma_prefix_passes(c, c2, n);
    lemma_verify_from_skip(c2, n);
    if n > 0 {
        assert(c2[n - 1] == c[n - 1]);
    }
    assert(break_at(c2, n) == Some(BreakReason::DigestMismatch));
}

/// Tamper evidence for the payload digest: altering a stored record's
/// payload digest makes verification break at that record with
/// DigestMismatch, provided the altered fields do not hash back to the
/// stored record digest (a digest collision, which the digest function is
/// relied upon not to yield in practice).
pub proof fn lemma_tamper_payload_digest(c: Seq<ChainRecord>, n: int, r2: ChainRecord)
    requires
        well_formed_chain(c),
        0 <= n < c.len(),
        r2.sequence_index == c[n].sequence_index,
        r2.payload_digest@ != c[n].payload_digest@,
        r2.previous_digest@ == c[n].previous_digest@,
        r2.record_digest@ == c[n].record_digest@,
        digest_of(digest_input(r2.sequence_index, r2.payload_digest@, r2.previous_digest@))
            != c[n].record_digest@,
    ensures
        spec_verify(c.update(n, r2)) == (VerificationResult::Broken {
            at_index: c[n].sequence_index,
            reason: BreakReason::DigestMismatch,
        }),
{
    let c2 = c.update(n, r2);
    lemma_prefix_passes(c, c2, n);
    lemma_verify_from_skip(c2, n);
    if n > 0 {
        assert(c2[n - 1] == c[n - 1]);
    }
    assert(break_at(c2, n) == Some(BreakReason::DigestMismatch));
}

/// Records before an altered position still pass their checks.
proof fn lemma_prefix_passes(c: Seq<ChainRecord>, c2: Seq<ChainRecord>, n: int)
    requires
        well_formed_chain(c),
        0 <= n < c.len(),
        c2.len() == c.len(),
        forall|j: int| 0 <= j < c.len() && j != n ==> c2[j] == c[j],
    ensures
        forall|j: int| 0 <= j < n ==> break_at(c2, j) is None,
{
    assert forall|j: int| 0 <= j < n implies break_at(c2, j) is None by {
        assert(c2[j] == c[j]);
        assert(c[j].sequence_index == j + 1);
        if j > 0 {
            assert(c2[j - 1] == c[j - 1]);
        }
    }
}

} // verus!
