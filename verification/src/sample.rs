//! Random draws of bookmarks: a draw is a list of picks, each taken modulo
//! the number of bookmarks left, so that every outcome of the random
//! numbers gives a selection without repeats.
use vstd::prelude::*;
use crate::bookmark::BookmarkView;
use std::collections::hash_map::RandomState;

verus! {

broadcast use vstd::seq_lib::group_to_multiset_ensures;

/// The bookmarks that `picks` draws from `s`, in the order drawn: each
/// pick, taken modulo the number of bookmarks left, takes the bookmark at
/// that place out of those left, until the picks or the bookmarks run out.
pub open spec fn random_pick(s: Seq<BookmarkView>, picks: Seq<u64>) -> Seq<BookmarkView>
    decreases picks.len(),
{
    if picks.len() == 0 || s.len() == 0 {
        Seq::empty()
    } else {
        let i = picks[0] as int % s.len() as int;
        seq![s[i]] + random_pick(s.remove(i), picks.drop_first())
    }
}

/// A draw takes one bookmark per pick while any are left, and takes each
/// stored bookmark at most as often as it is stored.
pub proof fn lemma_random_pick_draws(s: Seq<BookmarkView>, picks: Seq<u64>)
    ensures
        random_pick(s, picks).len() == if picks.len() < s.len() {
            picks.len()
        } else {
            s.len()
        },
        random_pick(s, picks).to_multiset().subset_of(s.to_multiset()),
    decreases picks.len(),
{
    broadcast use vstd::multiset::group_multiset_axioms;

    if picks.len() == 0 || s.len() == 0 {
        assert(random_pick(s, picks) =~= Seq::<BookmarkView>::empty());
    } else {
        let i = picks[0] as int % s.len() as int;
        let rest = s.remove(i);
        let tail = random_pick(rest, picks.drop_first());
        lemma_random_pick_draws(rest, picks.drop_first());
        vstd::seq_lib::lemma_multiset_commutative(seq![s[i]], tail);
        vstd::seq_lib::to_multiset_remove(s, i);
        assert(seq![s[i]].to_multiset() =~= vstd::multiset::Multiset::empty().insert(s[i])) by {
            assert(seq![s[i]] =~= Seq::<BookmarkView>::empty().push(s[i]));
            vstd::seq_lib::to_multiset_build(Seq::<BookmarkView>::empty(), s[i]);
        }
        assert(s.to_multiset().count(s[i]) > 0);
        assert forall|x: BookmarkView|
            random_pick(s, picks).to_multiset().count(x) <= s.to_multiset().count(x) by {
            assert(tail.to_multiset().count(x) <= rest.to_multiset().count(x));
        }
    }
}

/// `std::collections::hash_map::RandomState::new`: a hash builder whose
/// keys change from one call to the next; nothing is stated of them.
#[verifier::external_body]
fn new_random_state() -> (r: RandomState) {
    RandomState::new()
}

/// `std::hash::BuildHasher::hash_one` of `state` on the number 0: a number
/// that depends on the random keys of `state`; nothing is stated of it.
#[verifier::external_body]
fn hash_zero(state: &RandomState) -> (r: u64) {
    std::hash::BuildHasher::hash_one(state, 0u64)
}

/// `count` random numbers, one per fresh hash builder.
pub(crate) fn random_picks(count: usize) -> (r: Vec<u64>)
    ensures
        r@.len() == count,
{
    let mut r: Vec<u64> = Vec::new();
    let mut i: usize = 0;
    while i < count
        invariant
            i <= count,
            r@.len() == i,
        decreases count - i,
    {
        let state = new_random_state();
        r.push(hash_zero(&state));
        i = i + 1;
    }
    r
}

} // verus!
