use vstd::prelude::*;
use vstd::string::StringExecFns;
use crate::decimal::{dec_of, u64_to_string};
use crate::hashing::{digest_of, sha256_hex};

verus! {

/// One link of a lineage's hash chain. Created once by the producer and
/// immutable thereafter; only the deduplication pass ever deletes one.
pub struct ChainRecord {
    /// Position in the lineage, starting at 1 and contiguous.
    pub sequence_index: u64,
    /// Which independent chain this record belongs to.
    pub lineage_id: String,
    /// Digest of the serialized payload.
    pub payload_digest: String,
    /// Record digest of the predecessor, or the genesis sentinel at index 1.
    pub previous_digest: String,
    /// Digest binding (sequence_index, payload_digest, previous_digest).
    pub record_digest: String,
    /// Alert flag evaluated from the payload at creation time.
    pub flag: bool,
    /// Creation time, assigned at insert.
    pub created_at: u64,
}

/// The genesis sentinel: the previous_digest of a lineage's first record.
pub open spec fn genesis_seq() -> Seq<char> {
    seq!['0']
}

/// The exact byte string whose digest is a record's record_digest:
/// sequence index, payload digest and previous digest, '|'-separated.
pub open spec fn digest_input(index: u64, payload_digest: Seq<char>, previous: Seq<char>) -> Seq<
    char,
> {
    dec_of(index as nat) + seq!['|'] + payload_digest + seq!['|'] + previous
}

/// The record digest a record with these fields must carry.
pub open spec fn expected_record_digest(r: ChainRecord) -> Seq<char> {
    digest_of(digest_input(r.sequence_index, r.payload_digest@, r.previous_digest@))
}

/// Tamper evidence for one record: recomputing the record digest from the
/// stored fields reproduces the stored value.
pub open spec fn record_digest_ok(r: ChainRecord) -> bool {
    r.record_digest@ == expected_record_digest(r)
}

/// A well-formed chain, as the producer lays it down: sequence indices
/// contiguous from 1, each record linked to its predecessor's record digest
/// (to the genesis sentinel at index 1), and every record digest
/// recomputable from the record's stored fields.
pub open spec fn well_formed_chain(c: Seq<ChainRecord>) -> bool {
    forall|i: int|
        #![trigger c[i]]
        0 <= i < c.len() ==> (c[i].sequence_index == i + 1 && c[i].previous_digest@ == (if i == 0 {
            genesis_seq()
        } else {
            c[i - 1].record_digest@
        }) && record_digest_ok(c[i]))
}

/// The genesis sentinel as a value.
pub fn genesis_sentinel() -> (r: String)
    ensures
        r@ == genesis_seq(),
{
    let r = "0".to_owned();
    proof {
        reveal_strlit("0");
        assert(r@ =~= genesis_seq());
    }
    r
}

/// Computes the digest that links a record to its position, payload and
/// predecessor.
pub fn compute_record_digest(index: u64, payload_digest: &str, previous: &str) -> (r: String)
    ensures
        r@ == digest_of(digest_input(index, payload_digest@, previous@)),
        r@.len() == 64,
{
    let mut s = u64_to_string(index);
    s.append("|");
    s.append(payload_digest);
    s.append("|");
    s.append(previous);
    proof {
        reveal_strlit("|");
        assert(s@ =~= digest_input(index, payload_digest@, previous@));
    }
    sha256_hex(s.as_str())
}

impl Clone for ChainRecord {
    fn clone(&self) -> (r: Self)
        ensures
            r == *self,
    {
        ChainRecord {
            sequence_index: self.sequence_index,
            lineage_id: self.lineage_id.clone(),
            payload_digest: self.payload_digest.clone(),
            previous_digest: self.previous_digest.clone(),
            record_digest: self.record_digest.clone(),
            flag: self.flag,
            created_at: self.created_at,
        }
    }
}

} // verus!
