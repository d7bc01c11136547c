use vstd::prelude::*;
use crate::record::{well_formed_chain, ChainRecord};

verus! {

/// How many records of a lineage occupy a given sequence position.
pub open spec fn count_at(s: Seq<ChainRecord>, lin: Seq<char>, index: u64) -> nat
    decreases s.len(),
{
    if s.len() == 0 {
        0
    } else {
        count_at(s.drop_last(), lin, index) + if s.last().lineage_id@ == lin
            && s.last().sequence_index == index {
            1nat
        } else {
            0nat
        }
    }
}

/// Whether some record of the lineage occupies the given sequence position.
pub open spec fn contains_at(s: Seq<ChainRecord>, lin: Seq<char>, index: u64) -> bool {
    count_at(s, lin, index) > 0
}

/// The records of one lineage, in insertion order.
pub open spec fn lineage_of(s: Seq<ChainRecord>, lin: Seq<char>) -> Seq<ChainRecord>
    decreases s.len(),
{
    if s.len() == 0 {
        Seq::empty()
    } else {
        lineage_of(s.drop_last(), lin) + if s.last().lineage_id@ == lin {
            seq![s.last()]
        } else {
            Seq::empty()
        }
    }
}

/// The highest sequence index of a lineage together with the record digest
/// of the earliest-inserted record carrying it; None when the lineage is
/// empty.
pub open spec fn last_record_spec(s: Seq<ChainRecord>, lin: Seq<char>) -> Option<(u64, Seq<char>)>
    decreases s.len(),
{
    if s.len() == 0 {
        None
    } else {
        let rest = last_record_spec(s.drop_last(), lin);
        let r = s.last();
        if r.lineage_id@ == lin {
            match rest {
                None => Some((r.sequence_index, r.record_digest@)),
                Some((i, d)) => if r.sequence_index > i {
                    Some((r.sequence_index, r.record_digest@))
                } else {
                    Some((i, d))
                },
            }
        } else {
            rest
        }
    }
}

/// The store's contents after removing, within one lineage, every record
/// whose sequence position an earlier-inserted record of that lineage
/// already occupies. Other lineages are untouched.
pub open spec fn dedup_spec(s: Seq<ChainRecord>, lin: Seq<char>) -> Seq<ChainRecord>
    decreases s.len(),
{
    if s.len() == 0 {
        Seq::empty()
    } else {
        let pre = dedup_spec(s.drop_last(), lin);
        let r = s.last();
        if r.lineage_id@ == lin && contains_at(s.drop_last(), lin, r.sequence_index) {
            pre
        } else {
            pre.push(r)
        }
    }
}

/// Nondecreasing sequence indices.
pub open spec fn sorted_by_index(s: Seq<ChainRecord>) -> bool {
    forall|i: int, j: int|
        0 <= i < j < s.len() ==> s[i].sequence_index <= s[j].sequence_index
}

/// A record seen at one position makes the lineage's count at its sequence
/// position positive.
pub proof fn lemma_count_at_positive(s: Seq<ChainRecord>, lin: Seq<char>, index: u64, j: int)
    requires
        0 <= j < s.len(),
        s[j].lineage_id@ == lin,
        s[j].sequence_index == index,
    ensures
        count_at(s, lin, index) > 0,
    decreases s.len(),
{
    if j == s.len() - 1 {
    } else {
        assert(s.drop_last()[j] == s[j]);
        lemma_count_at_positive(s.drop_last(), lin, index, j);
    }
}

/// A positive count names a concrete occupant of the position.
pub proof fn lemma_count_at_witness(s: Seq<ChainRecord>, lin: Seq<char>, index: u64)
    requires
        count_at(s, lin, index) > 0,
    ensures
        exists|j: int|
            0 <= j < s.len() && s[j].lineage_id@ == lin && s[j].sequence_index == index,
    decreases s.len(),
{
    if s.last().lineage_id@ == lin && s.last().sequence_index == index {
        assert(s[s.len() - 1] == s.last());
    } else {
        lemma_count_at_witness(s.drop_last(), lin, index);
        let j = choose|j: int|
            0 <= j < s.drop_last().len() && s.drop_last()[j].lineage_id@ == lin
                && s.drop_last()[j].sequence_index == index;
        assert(s[j] == s.drop_last()[j]);
    }
}

/// A record of the lineage is among the lineage's records.
pub proof fn lemma_lineage_member(s: Seq<ChainRecord>, lin: Seq<char>, j: int)
    requires
        0 <= j < s.len(),
        s[j].lineage_id@ == lin,
    ensures
        lineage_of(s, lin).contains(s[j]),
    decreases s.len(),
{
    if j == s.len() - 1 {
        let pre = lineage_of(s.drop_last(), lin);
        assert(lineage_of(s, lin)[pre.len() as int] == s[j]);
    } else {
        assert(s.drop_last()[j] == s[j]);
        lemma_lineage_member(s.drop_last(), lin, j);
        let pre = lineage_of(s.drop_last(), lin);
        let w = choose|w: int| 0 <= w < pre.len() && pre[w] == s[j];
        assert(lineage_of(s, lin)[w] == pre[w]);
    }
}

/// Deduplication preserves which sequence positions of the lineage are
/// occupied.
pub proof fn lemma_dedup_contains(s: Seq<ChainRecord>, lin: Seq<char>, index: u64)
    ensures
        contains_at(dedup_spec(s, lin), lin, index) == contains_at(s, lin, index),
    decreases s.len(),
{
    if s.len() == 0 {
    } else {
        let pre = dedup_spec(s.drop_last(), lin);
        let r = s.last();
        lemma_dedup_contains(s.drop_last(), lin, index);
        if r.lineage_id@ == lin && contains_at(s.drop_last(), lin, r.sequence_index) {
            if r.sequence_index == index {
                assert(contains_at(s, lin, index));
            }
        } else {
            assert(pre.push(r).drop_last() =~= pre);
            assert(count_at(pre.push(r), lin, index) == count_at(pre, lin, index) + if r.lineage_id@
                == lin && r.sequence_index == index {
                1nat
            } else {
                0nat
            });
        }
    }
}

/// The in-memory ledger: the single source of truth for persisted records,
/// held in insertion order.
pub struct LedgerStore {
    records: Vec<ChainRecord>,
}

impl View for LedgerStore {
    type V = Seq<ChainRecord>;

    closed spec fn view(&self) -> Seq<ChainRecord> {
        self.records@
    }
}

fn vec_has_at(records: &Vec<ChainRecord>, lineage: &String, index: u64) -> (r: bool)
    ensures
        r == contains_at(records@, lineage@, index),
{
    let n = records.len();
    for i in 0..n
        invariant
            n == records@.len(),
            count_at(records@.take(i as int), lineage@, index) == 0,
    {
        if records[i].lineage_id == *lineage && records[i].sequence_index == index {
            proof {
                lemma_count_at_positive(records@, lineage@, index, i as int);
            }
            return true;
        }
        proof {
            assert(records@.take(i + 1 as int).drop_last() =~= records@.take(i as int));
        }
    }
    proof {
        assert(records@.take(n as int) =~= records@);
    }
    false
}

impl LedgerStore {
    /// An empty store.
    pub fn new() -> (r: LedgerStore)
        ensures
            r@ == Seq::<ChainRecord>::empty(),
    {
        LedgerStore { records: Vec::new() }
    }

    /// Appends one record; atomic single-row insert.
    pub fn append(&mut self, r: ChainRecord)
        ensures
            final(self)@ == old(self)@.push(r),
    {
        self.records.push(r);
    }

    /// Whether a record of the lineage already occupies the sequence
    /// position.
    pub fn exists_at(&self, lineage: &String, index: u64) -> (r: bool)
        ensures
            r == contains_at(self@, lineage@, index),
    {
        vec_has_at(&self.records, lineage, index)
    }

    /// The highest sequence index of the lineage and its record digest,
    /// or None when the store holds no record of the lineage.
    pub fn last_record(&self, lineage: &String) -> (res: Option<(u64, String)>)
        ensures
            ({
                let s = last_record_spec(self@, lineage@);
                match res {
                    None => s is None,
                    Some((i, d)) => s == Some((i, d@)),
                }
            }),
    {
        let mut best: Option<(u64, String)> = None;
        let n = self.records.len();
        for idx in 0..n
            invariant
                n == self@.len(),
                ({
                    let s = last_record_spec(self@.take(idx as int), lineage@);
                    match best {
                        None => s is None,
                        Some((i, d)) => s == Some((i, d@)),
                    }
                }),
        {
            let r = &self.records[idx];
            if r.lineage_id == *lineage {
                let replace = match &best {
                    None => true,
                    Some(pair) => r.sequence_index > pair.0,
                };
                if replace {
                    best = Some((r.sequence_index, r.record_digest.clone()));
                }
            }
            proof {
                assert(self@.take(idx + 1 as int).drop_last() =~= self@.take(idx as int));
            }
        }
        proof {
            assert(self@.take(n as int) =~= self@);
        }
        best
    }

    /// Removes every record of the lineage whose sequence position an
    /// earlier-inserted record of the lineage already occupies, keeping the
    /// earliest copy; returns how many records were removed.
    pub fn prune_duplicates(&mut self, lineage: &String) -> (removed: u64)
        ensures
            final(self)@ == dedup_spec(old(self)@, lineage@),
            final(self)@.len() + removed == old(self)@.len(),
    {
        let ghost orig = self@;
        let mut kept: Vec<ChainRecord> = Vec::new();
        let n = self.records.len();
        for i in 0..n
            invariant
                n == orig.len(),
                self@ == orig,
                kept@ == dedup_spec(orig.take(i as int), lineage@),
                kept@.len() <= i,
        {
            let r = &self.records[i];
            let duplicate = r.lineage_id == *lineage && vec_has_at(&kept, lineage, r.sequence_index);
            proof {
                lemma_dedup_contains(orig.take(i as int), lineage@, self@[i as int].sequence_index);
                assert(orig.take(i + 1 as int).drop_last() =~= orig.take(i as int));
            }
            if !duplicate {
                kept.push(r.clone());
            }
        }
        proof {
            assert(orig.take(n as int) =~= orig);
        }
        let removed = n - kept.len();
        self.records = kept;
        removed as u64
    }

    /// The records of the lineage, ordered by ascending sequence index.
    pub fn list_ordered(&self, lineage: &String) -> (res: Vec<ChainRecord>)
        ensures
            sorted_by_index(res@),
            res@.to_multiset() == lineage_of(self@, lineage@).to_multiset(),
    {
        let mut res: Vec<ChainRecord> = Vec::new();
        let n = self.records.len();
        for i in 0..n
            invariant
                n == self@.len(),
                sorted_by_index(res@),
                res@.to_multiset() == lineage_of(self@.take(i as int), lineage@).to_multiset(),
        {
            let r = &self.records[i];
            proof {
                broadcast use vstd::seq_lib::group_to_multiset_ensures;

                assert(self@.take(i + 1 as int).drop_last() =~= self@.take(i as int));
                let pre = lineage_of(self@.take(i as int), lineage@);
                if self@[i as int].lineage_id@ == lineage@ {
                    assert(pre + seq![self@[i as int]] =~= pre.push(self@[i as int]));
                } else {
                    assert(pre + Seq::<ChainRecord>::empty() =~= pre);
                }
            }
            if r.lineage_id == *lineage {
                insert_sorted(&mut res, r.clone());
            }
        }
        proof {
            assert(self@.take(n as int) =~= self@);
        }
        res
    }
}

fn insert_sorted(v: &mut Vec<ChainRecord>, r: ChainRecord)
    requires
        sorted_by_index(old(v)@),
    ensures
        sorted_by_index(final(v)@),
        final(v)@.to_multiset() == old(v)@.to_multiset().insert(r),
{
    let mut i: usize = 0;
    while i < v.len() && v[i].sequence_index <= r.sequence_index
        invariant
            i <= v@.len(),
            sorted_by_index(v@),
            v@ == old(v)@,
            forall|j: int| 0 <= j < i ==> v@[j].sequence_index <= r.sequence_index,
        decreases v@.len() - i,
    {
        i += 1;
    }
    let ghost s0 = v@;
    v.insert(i, r);
    proof {
        broadcast use vstd::seq_lib::group_to_multiset_ensures;
        broadcast use vstd::multiset::group_multiset_axioms;

        let a = s0.subrange(0, i as int);
        let b = s0.subrange(i as int, s0.len() as int);
        assert(v@ == a.push(r) + b);
        vstd::seq_lib::lemma_multiset_commutative(a.push(r), b);
        vstd::seq_lib::lemma_multiset_commutative(a, b);
        assert(a + b =~= s0);
        assert(v@.to_multiset() =~= s0.to_multiset().insert(r));
        assert forall|p: int, q: int| 0 <= p < q < v@.len() implies v@[p].sequence_index
            <= v@[q].sequence_index by {
            if q <= i {
            } else if p < i && q > i {
                assert(v@[q] == s0[q - 1]);
            } else if p == i && q > i {
                assert(v@[q] == s0[q - 1]);
                assert(s0[q - 1].sequence_index > r.sequence_index || i == s0.len());
            } else {
                assert(v@[p] == s0[p - 1] && v@[q] == s0[q - 1]);
            }
        }
    }
}

/// An ordered listing of a well-formed lineage is the chain itself: a
/// sequence sorted by index that holds the same records as a well-formed
/// chain equals that chain.
pub proof fn lemma_sorted_listing_is_chain(a: Seq<ChainRecord>, c: Seq<ChainRecord>)
    requires
        sorted_by_index(a),
        well_formed_chain(c),
        a.to_multiset() == c.to_multiset(),
    ensures
        a == c,
    decreases c.len(),
{
    broadcast use vstd::seq_lib::group_to_multiset_ensures;
    broadcast use vstd::multiset::group_multiset_axioms;

    a.to_multiset_ensures();
    c.to_multiset_ensures();
    assert(a.len() == c.len());
    if c.len() == 0 {
        assert(a =~= c);
    } else {
        let la = a.last();
        let lc = c.last();
        assert(a.contains(la));
        assert(c.to_multiset().count(la) > 0);
        assert(c.contains(la));
        let k = choose|k: int| 0 <= k < c.len() && c[k] == la;
        assert(la.sequence_index == k + 1);
        assert(a.to_multiset().count(lc) > 0);
        assert(a.contains(lc));
        let m = choose|m: int| 0 <= m < a.len() && a[m] == lc;
        assert(lc.sequence_index == c.len());
        if m < a.len() - 1 {
            assert(a[m].sequence_index <= la.sequence_index);
        }
        assert(la.sequence_index == c.len());
        assert(k == c.len() - 1);
        assert(la == lc);
        assert(a.drop_last() =~= a.remove(a.len() - 1));
        assert(c.drop_last() =~= c.remove(c.len() - 1));
        assert(a.drop_last().to_multiset() =~= c.drop_last().to_multiset());
        assert(sorted_by_index(a.drop_last())) by {
            assert(forall|i: int| 0 <= i < a.len() - 1 ==> a.drop_last()[i] == a[i]);
        }
        assert(well_formed_chain(c.drop_last())) by {
            assert forall|i: int|
                #![trigger c.drop_last()[i]]
                0 <= i < c.len() - 1 implies (c.drop_last()[i].sequence_index == i + 1
                && c.drop_last()[i].previous_digest@ == (if i == 0 {
                crate::record::genesis_seq()
            } else {
                c.drop_last()[i - 1].record_digest@
            }) && crate::record::record_digest_ok(c.drop_last()[i])) by {
                assert(c.drop_last()[i] == c[i]);
                if i > 0 {
                    assert(c.drop_last()[i - 1] == c[i - 1]);
                }
            }
        }
        lemma_sorted_listing_is_chain(a.drop_last(), c.drop_last());
        assert(a =~= a.drop_last().push(la));
        assert(c =~= c.drop_last().push(lc));
    }
}

/// Deduplication law: when some records of a lineage share a sequence
/// position, pruning leaves exactly one record there, the earliest-inserted
/// one; positions a lineage does not occupy stay unoccupied.
pub proof fn lemma_prune_keeps_earliest(s: Seq<ChainRecord>, lin: Seq<char>, index: u64)
    ensures
        contains_at(s, lin, index) ==> count_at(dedup_spec(s, lin), lin, index) == 1,
        !contains_at(s, lin, index) ==> count_at(dedup_spec(s, lin), lin, index) == 0,
        contains_at(s, lin, index) ==> exists|j: int|
            0 <= j < s.len() && s[j].lineage_id@ == lin && s[j].sequence_index == index && (forall|
                k: int,
            |
                0 <= k < j ==> !(s[k].lineage_id@ == lin && s[k].sequence_index == index))
                && dedup_spec(s, lin).contains(s[j]),
    decreases s.len(),
{
    lemma_dedup_contains(s, lin, index);
    if s.len() == 0 {
    } else {
        let pre = dedup_spec(s.drop_last(), lin);
        let r = s.last();
        lemma_prune_keeps_earliest(s.drop_last(), lin, index);
        if !(r.lineage_id@ == lin && contains_at(s.drop_last(), lin, r.sequence_index)) {
            assert(pre.push(r).drop_last() =~= pre);
            assert(count_at(pre.push(r), lin, index) == count_at(pre, lin, index) + if r.lineage_id@
                == lin && r.sequence_index == index {
                1nat
            } else {
                0nat
            });
        }
        if contains_at(s, lin, index) {
            if contains_at(s.drop_last(), lin, index) {
                let j = choose|j: int|
                    0 <= j < s.drop_last().len() && s.drop_last()[j].lineage_id@ == lin
                        && s.drop_last()[j].sequence_index == index && (forall|k: int|
                        0 <= k < j ==> !(s.drop_last()[k].lineage_id@ == lin
                            && s.drop_last()[k].sequence_index == index)) && dedup_spec(
                        s.drop_last(),
                        lin,
                    ).contains(s.drop_last()[j]);
                assert(s[j] == s.drop_last()[j]);
                assert(forall|k: int| 0 <= k < j ==> s[k] == s.drop_last()[k]);
                if r.lineage_id@ == lin && contains_at(s.drop_last(), lin, r.sequence_index) {
                    assert(dedup_spec(s, lin) == pre);
                } else {
                    let w = choose|w: int| 0 <= w < pre.len() && pre[w] == s.drop_last()[j];
                    assert(pre.push(r)[w] == pre[w]);
                    assert(dedup_spec(s, lin).contains(s[j]));
                }
                assert(0 <= j < s.len() && s[j].lineage_id@ == lin && s[j].sequence_index == index
                    && (forall|k: int|
                    0 <= k < j ==> !(s[k].lineage_id@ == lin && s[k].sequence_index == index))
                    && dedup_spec(s, lin).contains(s[j]));
            } else {
                let j = s.len() - 1;
                assert(r.lineage_id@ == lin && r.sequence_index == index);
                assert(!contains_at(s.drop_last(), lin, r.sequence_index));
                assert(dedup_spec(s, lin) == pre.push(r));
                assert(pre.push(r)[pre.len() as int] == r);
                assert(dedup_spec(s, lin).contains(r));
                assert forall|k: int| 0 <= k < j implies !(s[k].lineage_id@ == lin
                    && s[k].sequence_index == index) by {
                    if s[k].lineage_id@ == lin && s[k].sequence_index == index {
                        lemma_count_at_positive(s.drop_last(), lin, index, k);
                    }
                }
            }
        }
    }
}

} // verus!
