use vstd::prelude::*;
use crate::checker::{spec_verify, verify, VerificationResult};
use crate::record::{well_formed_chain, ChainRecord};
use crate::store::{
    lineage_of, lemma_sorted_listing_is_chain, sorted_by_index, LedgerStore,
};

verus! {

/// The read path: the lineage's records ordered by sequence index. A lineage
/// the store does not know yields an empty listing, not an error; when the
/// stored lineage forms a well-formed chain, the listing is exactly that
/// chain.
pub fn fetch_lineage(store: &LedgerStore, lineage: &String) -> (res: Vec<ChainRecord>)
    ensures
        sorted_by_index(res@),
        res@.to_multiset() == lineage_of(store@, lineage@).to_multiset(),
        well_formed_chain(lineage_of(store@, lineage@)) ==> res@ == lineage_of(store@, lineage@),
{
    let res = store.list_ordered(lineage);
    proof {
        if well_formed_chain(lineage_of(store@, lineage@)) {
            lemma_sorted_listing_is_chain(res@, lineage_of(store@, lineage@));
        }
    }
    res
}

/// The read path with an integrity inspection: the ordered listing together
/// with the chain checker's verdict on it.
pub fn fetch_lineage_verified(store: &LedgerStore, lineage: &String) -> (res: (
    Vec<ChainRecord>,
    VerificationResult,
))
    ensures
        sorted_by_index(res.0@),
        res.0@.to_multiset() == lineage_of(store@, lineage@).to_multiset(),
        well_formed_chain(lineage_of(store@, lineage@)) ==> res.0@ == lineage_of(store@, lineage@),
        res.1 == spec_verify(res.0@),
{
    let records = fetch_lineage(store, lineage);
    let verdict = verify(&records);
    (records, verdict)
}

} // verus!
