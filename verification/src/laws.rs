//! The ledger's laws: properties of whole event sequences and of the reads,
//! proved over the model that every executable contract is stated against.

use vstd::prelude::*;

use crate::ledger::{limit_of, start_of, Contract};
use crate::model::{
    accepted, amount_of, credited, distinct_keys, donors, has_key, key_index, lemma_step_effects,
    page, records, run, step, Entry, Event, STORAGE_COST,
};

verus! {

/// Law: over any sequence of contribution events, an identity's recorded
/// balance grows by exactly the sum of the net amounts (attachment minus the
/// fixed fee) of the accepted contributions by that identity; rejected
/// contributions add nothing.
pub proof fn lemma_balance_is_sum_of_accepted_nets(s: Seq<Entry>, evs: Seq<Event>, id: Seq<char>)
    requires
        distinct_keys(s),
    ensures
        amount_of(run(s, evs), id) == amount_of(s, id) + credited(s, evs, id),
    decreases evs.len(),
{
    if evs.len() > 0 {
        let donor = evs[0].0;
        let attached = evs[0].1;
        lemma_step_effects(s, donor, attached);
        lemma_balance_is_sum_of_accepted_nets(step(s, donor, attached), evs.drop_first(), id);
    }
}

/// Law: a recorded balance never decreases: there is no debit, so over any
/// sequence of contribution events every identity's balance is monotonically
/// non-decreasing.
pub proof fn lemma_balances_never_decrease(s: Seq<Entry>, evs: Seq<Event>, id: Seq<char>)
    requires
        distinct_keys(s),
    ensures
        amount_of(run(s, evs), id) >= amount_of(s, id),
    decreases evs.len(),
{
    if evs.len() > 0 {
        let donor = evs[0].0;
        let attached = evs[0].1;
        lemma_step_effects(s, donor, attached);
        lemma_balances_never_decrease(step(s, donor, attached), evs.drop_first(), id);
    }
}

/// Law: a run keeps contributor identities distinct, and it records an
/// identity exactly when that identity was already recorded or some
/// contribution by it is accepted along the run. The entry count therefore
/// equals the cardinality of the set of identities ever successfully
/// recorded.
pub proof fn lemma_count_counts_distinct_donors(s: Seq<Entry>, evs: Seq<Event>)
    requires
        distinct_keys(s),
    ensures
        distinct_keys(run(s, evs)),
        forall|id: Seq<char>|
            #[trigger] has_key(run(s, evs), id) <==> has_key(s, id) || records(s, evs, id),
        run(s, evs).len() == donors(run(s, evs)).to_set().len(),
        forall|id: Seq<char>|
            #[trigger] donors(run(s, evs)).to_set().contains(id) <==> has_key(s, id) || records(
                s,
                evs,
                id,
            ),
    decreases evs.len(),
{
    if evs.len() > 0 {
        let donor = evs[0].0;
        let attached = evs[0].1;
        lemma_step_effects(s, donor, attached);
        lemma_count_counts_distinct_donors(step(s, donor, attached), evs.drop_first());
    }
    let recorded = run(s, evs);
    let ids = donors(recorded);
    assert(ids.no_duplicates()) by {
        assert forall|i: int, j: int|
            0 <= i < ids.len() && 0 <= j < ids.len() && i != j implies ids[i] != ids[j] by {
            if i < j {
                assert(recorded[i].0 != recorded[j].0);
            } else {
                assert(recorded[j].0 != recorded[i].0);
            }
        }
    }
    ids.unique_seq_to_set();
    assert forall|id: Seq<char>| #[trigger]
        ids.to_set().contains(id) <==> has_key(recorded, id) by {
        if ids.to_set().contains(id) {
            let i = choose|i: int| 0 <= i < ids.len() && ids[i] == id;
            assert(recorded[i].0 == id);
        }
        if has_key(recorded, id) {
            let i = key_index(recorded, id);
            assert(ids[i] == id);
            assert(ids.contains(id));
        }
    }
}

/// Law: a page holds at most `limit` entries; adjacent pages concatenate
/// without gap or overlap; and the page that starts at the beginning and
/// spans the full length reproduces every entry exactly once, in the stable
/// enumeration order.
pub proof fn lemma_pagination_concat(s: Seq<Entry>, start: int, limit: int)
    requires
        0 <= start,
        0 <= limit,
    ensures
        page(s, start, limit).len() <= limit,
        page(s, 0, start) + page(s, start, limit) == page(s, 0, start + limit),
        page(s, 0, s.len() as int) == s,
{
    assert(page(s, 0, start) + page(s, start, limit) =~= page(s, 0, start + limit));
    assert(page(s, 0, s.len() as int) =~= s);
}

/// Law: a page whose start is at or past the end is empty; an out-of-range
/// start degrades to the empty page, it never fails.
pub proof fn lemma_page_past_end_is_empty(s: Seq<Entry>, start: int, limit: int)
    requires
        s.len() <= start,
        0 <= limit,
    ensures
        page(s, start, limit) == Seq::<Entry>::empty(),
{
    assert(page(s, start, limit) =~= Seq::<Entry>::empty());
}

/// Law: the reads are idempotent. Each read's result is a function of the
/// ledger state alone, so any two results that the reads' contracts allow on
/// one unchanged ledger are equal: repeated lookups, counts and pages agree.
pub proof fn lemma_reads_idempotent(
    contract: Contract,
    id: Seq<char>,
    from_index: Option<u128>,
    limit: Option<u64>,
    first_amount: u128,
    second_amount: u128,
    first_count: int,
    second_count: int,
    first_page: Seq<Entry>,
    second_page: Seq<Entry>,
)
    requires
        first_amount == contract.spec_lookup(id),
        second_amount == contract.spec_lookup(id),
        first_count == contract.entries().len(),
        second_count == contract.entries().len(),
        first_page == page(contract.entries(), start_of(from_index), limit_of(limit)),
        second_page == page(contract.entries(), start_of(from_index), limit_of(limit)),
    ensures
        first_amount == second_amount,
        first_count == second_count,
        first_page == second_page,
{
}

} // verus!
