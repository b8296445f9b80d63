//! The mathematical model of the ledger: a sequence of entries, one per
//! contributor, and the transition that one contribution event applies to it.
//! The executable ledger's contracts are stated over this model, and the laws
//! about whole event sequences are proved on it.

use vstd::prelude::*;

verus! {

/// The fixed fee charged on every contribution, in minor units: the minimum
/// a call must attach for the ledger to record it.
pub const STORAGE_COST: u128 = 1_000_000_000_000_000_000_000;

/// One recorded entry: a contributor identity and its accumulated net amount.
pub type Entry = (Seq<char>, u128);

/// One contribution event as the host reports it: the calling identity and
/// the amount of value attached to the call.
pub type Event = (Seq<char>, u128);

/// No two entries share an identity.
pub open spec fn distinct_keys(s: Seq<Entry>) -> bool {
    forall|i: int, j: int| 0 <= i < j < s.len() ==> s[i].0 != s[j].0
}

/// Some entry carries the identity `id`.
pub open spec fn has_key(s: Seq<Entry>, id: Seq<char>) -> bool {
    exists|i: int| 0 <= i < s.len() && s[i].0 == id
}

/// An index of an entry carrying `id`; with `distinct_keys` it is the only one.
pub open spec fn key_index(s: Seq<Entry>, id: Seq<char>) -> int {
    choose|i: int| 0 <= i < s.len() && s[i].0 == id
}

/// The accumulated net amount recorded for `id`, zero when `id` was never
/// recorded.
pub open spec fn amount_of(s: Seq<Entry>, id: Seq<char>) -> u128 {
    if has_key(s, id) {
        s[key_index(s, id)].1
    } else {
        0
    }
}

/// The contributor identities of the entries, in entry order.
pub open spec fn donors(s: Seq<Entry>) -> Seq<Seq<char>> {
    s.map_values(|e: Entry| e.0)
}

/// A contribution is accepted when the attachment covers the fee and the
/// donor's balance can absorb the net amount without overflow.
pub open spec fn accepted(s: Seq<Entry>, donor: Seq<char>, attached: u128) -> bool {
    &&& attached >= STORAGE_COST
    &&& amount_of(s, donor) + (attached - STORAGE_COST) <= u128::MAX
}

/// The state after one contribution event: unchanged when the event is not
/// accepted; otherwise the donor's entry is credited in place, or appended
/// when the donor is new.
pub open spec fn step(s: Seq<Entry>, donor: Seq<char>, attached: u128) -> Seq<Entry> {
    if !accepted(s, donor, attached) {
        s
    } else {
        let new_balance = (amount_of(s, donor) + (attached - STORAGE_COST)) as u128;
        if has_key(s, donor) {
            s.update(key_index(s, donor), (donor, new_balance))
        } else {
            s.push((donor, new_balance))
        }
    }
}

/// The state after a whole sequence of contribution events.
pub open spec fn run(s: Seq<Entry>, evs: Seq<Event>) -> Seq<Entry>
    decreases evs.len(),
{
    if evs.len() == 0 {
        s
    } else {
        run(step(s, evs[0].0, evs[0].1), evs.drop_first())
    }
}

/// The sum of the net amounts of the events in `evs` that are by `id` and are
/// accepted at the state they meet, starting from `s`.
pub open spec fn credited(s: Seq<Entry>, evs: Seq<Event>, id: Seq<char>) -> int
    decreases evs.len(),
{
    if evs.len() == 0 {
        0
    } else {
        let here: int = if evs[0].0 == id && accepted(s, evs[0].0, evs[0].1) {
            evs[0].1 - STORAGE_COST
        } else {
            0
        };
        here + credited(step(s, evs[0].0, evs[0].1), evs.drop_first(), id)
    }
}

/// Whether some event in `evs` by `id` is accepted at the state it meets,
/// starting from `s`: whether the run ever records `id`.
pub open spec fn records(s: Seq<Entry>, evs: Seq<Event>, id: Seq<char>) -> bool
    decreases evs.len(),
{
    if evs.len() == 0 {
        false
    } else {
        ||| evs[0].0 == id && accepted(s, evs[0].0, evs[0].1)
        ||| records(step(s, evs[0].0, evs[0].1), evs.drop_first(), id)
    }
}

/// With distinct keys, the entry at `i` is the one its identity selects:
/// `key_index` finds `i` and `amount_of` reads the amount stored there.
pub proof fn lemma_amount_at(s: Seq<Entry>, i: int)
    requires
        distinct_keys(s),
        0 <= i < s.len(),
    ensures
        has_key(s, s[i].0),
        key_index(s, s[i].0) == i,
        amount_of(s, s[i].0) == s[i].1,
{
    assert(0 <= i < s.len() && s[i].0 == s[i].0);
    let k = key_index(s, s[i].0);
    if k < i {
        assert(s[k].0 != s[i].0);
    } else if k > i {
        assert(s[i].0 != s[k].0);
    }
}

/// What one step does, stated for every identity: distinctness is kept, a
/// rejected event changes nothing, an accepted event credits exactly its
/// donor with exactly the net amount, and an identity is recorded afterwards
/// exactly when it was before or is the accepted donor.
pub proof fn lemma_step_effects(s: Seq<Entry>, donor: Seq<char>, attached: u128)
    requires
        distinct_keys(s),
    ensures
        distinct_keys(step(s, donor, attached)),
        !accepted(s, donor, attached) ==> step(s, donor, attached) == s,
        accepted(s, donor, attached) ==> amount_of(step(s, donor, attached), donor) == amount_of(
            s,
            donor,
        ) + (attached - STORAGE_COST),
        forall|id: Seq<char>|
            id != donor ==> #[trigger] amount_of(step(s, donor, attached), id) == amount_of(s, id),
        forall|id: Seq<char>|
            #[trigger] has_key(step(s, donor, attached), id) <==> has_key(s, id) || (id == donor
                && accepted(s, donor, attached)),
        step(s, donor, attached).len() == s.len() + (if accepted(s, donor, attached) && !has_key(
            s,
            donor,
        ) {
            1int
        } else {
            0int
        }),
{
    let post = step(s, donor, attached);
    if accepted(s, donor, attached) {
        let net = (attached - STORAGE_COST) as u128;
        if has_key(s, donor) {
            let k = key_index(s, donor);
            assert(0 <= k < s.len() && s[k].0 == donor);
            lemma_amount_at(s, k);
            assert forall|p: int, q: int| 0 <= p < q < post.len() implies post[p].0
                != post[q].0 by {
                assert(s[p].0 != s[q].0);
            }
            lemma_amount_at(post, k);
            assert forall|id: Seq<char>|
                id != donor implies #[trigger] amount_of(post, id) == amount_of(s, id) by {
                if has_key(s, id) {
                    let m = key_index(s, id);
                    assert(0 <= m < s.len() && s[m].0 == id);
                    lemma_amount_at(s, m);
                    assert(post[m] == s[m]);
                    lemma_amount_at(post, m);
                } else {
                    if has_key(post, id) {
                        let m = key_index(post, id);
                        assert(0 <= m < post.len() && post[m].0 == id);
                        assert(s[m].0 == id);
                        assert(false);
                    }
                }
            }
            assert forall|id: Seq<char>|
                #[trigger] has_key(post, id) <==> has_key(s, id) || (id == donor && accepted(
                    s,
                    donor,
                    attached,
                )) by {
                if has_key(s, id) {
                    let m = key_index(s, id);
                    assert(post[m].0 == id);
                }
                if has_key(post, id) {
                    let m = key_index(post, id);
                    assert(s[m].0 == id || (m == k && id == donor));
                    assert(has_key(s, id) || id == donor);
                }
            }
        } else {
            let k = s.len() as int;
            assert(post == s.push((donor, net)));
            assert forall|p: int, q: int| 0 <= p < q < post.len() implies post[p].0
                != post[q].0 by {
                if q < k {
                    assert(s[p].0 != s[q].0);
                } else {
                    assert(post[q].0 == donor);
                    assert(!(0 <= p < s.len() && s[p].0 == donor));
                }
            }
            assert(post[k].0 == donor && post[k].1 == net);
            lemma_amount_at(post, k);
            assert forall|id: Seq<char>|
                id != donor implies #[trigger] amount_of(post, id) == amount_of(s, id) by {
                if has_key(s, id) {
                    let m = key_index(s, id);
                    assert(0 <= m < s.len() && s[m].0 == id);
                    lemma_amount_at(s, m);
                    assert(post[m] == s[m]);
                    lemma_amount_at(post, m);
                } else {
                    if has_key(post, id) {
                        let m = key_index(post, id);
                        assert(0 <= m < post.len() && post[m].0 == id);
                        assert(m != k);
                        assert(s[m].0 == id);
                        assert(false);
                    }
                }
            }
            assert forall|id: Seq<char>|
                #[trigger] has_key(post, id) <==> has_key(s, id) || (id == donor && accepted(
                    s,
                    donor,
                    attached,
                )) by {
                if has_key(s, id) {
                    let m = key_index(s, id);
                    assert(post[m].0 == id);
                }
                if id == donor {
                    assert(post[k].0 == id);
                }
                if has_key(post, id) {
                    let m = key_index(post, id);
                    if m < k {
                        assert(s[m].0 == id);
                    } else {
                        assert(id == donor);
                    }
                }
            }
        }
    }
}

/// The smaller of two integers.
pub open spec fn spec_min(a: int, b: int) -> int {
    if a < b {
        a
    } else {
        b
    }
}

/// The page of at most `limit` entries beginning at the `start`-th entry;
/// a start at or past the end gives the empty page.
pub open spec fn page(s: Seq<Entry>, start: int, limit: int) -> Seq<Entry>
    recommends
        0 <= start,
        0 <= limit,
{
    let from = spec_min(start, s.len() as int);
    s.subrange(from, from + spec_min(limit, s.len() - from))
}

} // verus!
