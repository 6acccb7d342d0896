//! Which cookies of the backend are stale.
//!
//! The backend takes another port at every start and names its cookie after it, so every start
//! leaves one behind. They are all sent with every request, until the head of the request is
//! too long for the backend to take. Before its address is known, none of them is in use.

use vstd::prelude::*;

use crate::text;

verus! {

/// What the names of the backend's cookies begin with.
pub const COOKIE_PREFIX: &'static str = "dsh-auth-";

/// The places of the names that begin with the prefix.
pub open spec fn stale(names: Seq<Seq<char>>) -> Seq<int>
    decreases names.len(),
{
    if names.len() == 0 {
        seq![]
    } else if text::starts(names.last(), COOKIE_PREFIX@) {
        stale(names.drop_last()).push(names.len() - 1)
    } else {
        stale(names.drop_last())
    }
}

/// Places as numbers.
pub open spec fn places(v: Seq<usize>) -> Seq<int> {
    v.map_values(|i: usize| i as int)
}

/// Whether a cookie is one of the backend's.
pub fn is_auth(name: &str) -> (r: bool)
    ensures
        r == text::starts(name@, COOKIE_PREFIX@),
{
    let n = text::chars(name);
    let p = text::chars(COOKIE_PREFIX);
    text::starts_with(n.as_slice(), p.as_slice())
}

/// The places of the cookies to delete.
pub fn purge_stale(names: &Vec<String>) -> (r: Vec<usize>)
    ensures
        places(r@) == stale(text::texts(names@)),
{
    let mut v: Vec<usize> = Vec::new();
    let mut i: usize = 0;
    let ghost all = text::texts(names@);
    assert(places(v@) =~= stale(all.take(0)));
    while i < names.len()
        invariant
            i <= names.len(),
            all == text::texts(names@),
            places(v@) == stale(all.take(i as int)),
        decreases names.len() - i,
    {
        assert(all.take(i + 1).drop_last() =~= all.take(i as int));
        assert(all.take(i + 1).last() == names@[i as int]@);
        if is_auth(names[i].as_str()) {
            let ghost before = v@;
            v.push(i);
            assert(places(v@) =~= places(before).push(i as int));
        }
        i = i + 1;
    }
    assert(all.take(i as int) =~= all);
    v
}

/// How many of these went well.
pub open spec fn successes(done: Seq<bool>) -> nat
    decreases done.len(),
{
    if done.len() == 0 {
        0
    } else {
        successes(done.drop_last()) + (if done.last() {
            1nat
        } else {
            0
        })
    }
}

/// How many cookies were deleted.
pub fn removed(done: &Vec<bool>) -> (r: usize)
    ensures
        r == successes(done@),
{
    let mut n: usize = 0;
    let mut i: usize = 0;
    while i < done.len()
        invariant
            i <= done.len(),
            n <= i,
            n == successes(done@.take(i as int)),
        decreases done.len() - i,
    {
        assert(done@.take(i + 1).drop_last() =~= done@.take(i as int));
        if done[i] {
            n = n + 1;
        }
        i = i + 1;
    }
    assert(done@.take(i as int) =~= done@);
    n
}

/// All the cookies of the backend are chosen, and no other.
pub proof fn law_only_auth_cookies_are_stale(names: Seq<Seq<char>>, i: int)
    requires
        0 <= i < names.len(),
    ensures
        stale(names).contains(i) <==> text::starts(names[i], COOKIE_PREFIX@),
    decreases names.len(),
{
    lemma_stale_in_range(names);
    let head = names.drop_last();
    let before = stale(head);
    if i < names.len() - 1 {
        law_only_auth_cookies_are_stale(head, i);
        if text::starts(names.last(), COOKIE_PREFIX@) {
            if before.contains(i) {
                let k = before.index_of(i);
                assert(stale(names)[k] == i);
            }
            if stale(names).contains(i) {
                let k = stale(names).index_of(i);
                assert(before[k] == i);
            }
        }
    } else {
        lemma_stale_in_range(head);
        if text::starts(names.last(), COOKIE_PREFIX@) {
            assert(stale(names)[before.len() as int] == i);
        } else if before.contains(i) {
            let k = before.index_of(i);
            assert(before[k] < head.len());
        }
    }
}

proof fn lemma_stale_in_range(names: Seq<Seq<char>>)
    ensures
        forall|k: int|
            0 <= k < stale(names).len() ==> 0 <= #[trigger] stale(names)[k] < names.len(),
    decreases names.len(),
{
    if names.len() > 0 {
        let before = stale(names.drop_last());
        lemma_stale_in_range(names.drop_last());
        assert forall|k: int| 0 <= k < stale(names).len() implies 0 <= #[trigger] stale(names)[k]
            < names.len() by {
            if k < before.len() {
                assert(stale(names)[k] == before[k]);
            }
        }
    }
}

/// The cookies to remove are those whose names begin with `dsh-auth-`, each once and in their
/// order.
pub proof fn law_cookies_are_removed_by_name(names: &Vec<String>, i: int, r: Vec<usize>)
    requires
        call_ensures(purge_stale, (names,), r),
        0 <= i < names@.len(),
    ensures
        places(r@).contains(i) <==> "dsh-auth-"@.is_prefix_of(names@[i]@),
        forall|a: int, b: int| 0 <= a < b < r@.len() ==> #[trigger] r@[a] < #[trigger] r@[b],
{
    let t = text::texts(names@);
    assert(t[i] == names@[i]@);
    law_only_auth_cookies_are_stale(t, i);
    let p = "dsh-auth-"@;
    if p.is_prefix_of(t[i]) {
        assert(t[i].subrange(0, p.len() as int) =~= p);
    }
    if text::starts(t[i], p) {
        assert(p =~= t[i].subrange(0, p.len() as int));
    }
    lemma_stale_ascends(t);
    assert forall|a: int, b: int| 0 <= a < b < r@.len() implies #[trigger] r@[a]
        < #[trigger] r@[b] by {
        assert(places(r@)[a] == r@[a] as int && places(r@)[b] == r@[b] as int);
        assert(stale(t)[a] < stale(t)[b]);
    }
}

proof fn lemma_stale_ascends(names: Seq<Seq<char>>)
    ensures
        forall|a: int, b: int|
            0 <= a < b < stale(names).len() ==> #[trigger] stale(names)[a] < #[trigger] stale(
                names,
            )[b],
    decreases names.len(),
{
    if names.len() > 0 {
        lemma_stale_ascends(names.drop_last());
        lemma_stale_in_range(names.drop_last());
        let less = stale(names.drop_last());
        assert forall|a: int, b: int| 0 <= a < b < stale(names).len() implies #[trigger] stale(
            names,
        )[a] < #[trigger] stale(names)[b] by {
            assert(stale(names)[a] == less[a]);
            if b < less.len() {
                assert(stale(names)[b] == less[b]);
            }
        }
    }
}

/// Each removal that succeeded is counted, and no other.
pub proof fn law_successes_are_counted(done: Seq<bool>, more: bool, name: &str, r: bool)
    requires
        call_ensures(is_auth, (name,), r),
    ensures
        r <==> "dsh-auth-"@.is_prefix_of(name@),
        successes(Seq::<bool>::empty()) == 0,
        successes(done.push(more)) == successes(done) + (if more {
            1nat
        } else {
            0
        }),
{
    assert(done.push(more).drop_last() =~= done);
    let p = "dsh-auth-"@;
    if p.is_prefix_of(name@) {
        assert(name@.subrange(0, p.len() as int) =~= p);
    }
    if text::starts(name@, p) {
        assert(p =~= name@.subrange(0, p.len() as int));
    }
}

} // verus!
