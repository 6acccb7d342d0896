//! Tables: lists of pairs in which each key stands once.

use vstd::prelude::*;

use crate::text;

verus! {

/// The position of the first entry under `key`, from `from` on.
pub open spec fn position_from<T>(v: Seq<(String, T)>, key: Seq<char>, from: int) -> Option<int>
    decreases v.len() - from,
{
    if from < 0 || from >= v.len() {
        None
    } else if v[from].0@ == key {
        Some(from)
    } else {
        position_from(v, key, from + 1)
    }
}

/// What `position_from` means: the least position, if there is one.
pub proof fn lemma_position_from<T>(v: Seq<(String, T)>, key: Seq<char>, from: int)
    requires
        0 <= from,
    ensures
        position_from(v, key, from) matches Some(i) ==> from <= i < v.len() && v[i].0@ == key && (
        forall|j: int| from <= j < i ==> (#[trigger] v[j]).0@ != key),
        position_from(v, key, from) is None ==> forall|j: int|
            from <= j < v.len() ==> (#[trigger] v[j]).0@ != key,
    decreases v.len() - from,
{
    if from < v.len() && v[from].0@ != key {
        lemma_position_from(v, key, from + 1);
    }
}

/// What stands under `key`.
pub open spec fn at<T>(v: Seq<(String, T)>, key: Seq<char>) -> Option<T> {
    match position_from(v, key, 0) {
        Some(i) => Some(v[i].1),
        None => None,
    }
}

/// No key stands twice.
pub open spec fn unique<T>(v: Seq<(String, T)>) -> bool {
    forall|i: int, j: int| 0 <= i < j < v.len() ==> (#[trigger] v[i]).0@ != (#[trigger] v[j]).0@
}

/// The keys, in order.
pub open spec fn keys<T>(v: Seq<(String, T)>) -> Seq<Seq<char>> {
    v.map_values(|e: (String, T)| e.0@)
}

/// The position of the first entry under `key`.
pub fn position<T>(v: &Vec<(String, T)>, key: &str) -> (r: Option<usize>)
    ensures
        r matches Some(i) ==> i < v.len() && position_from(v@, key@, 0) == Some(i as int),
        r is None <==> position_from(v@, key@, 0) is None,
{
    let mut i: usize = 0;
    while i < v.len()
        invariant
            i <= v.len(),
            position_from(v@, key@, 0) == position_from(v@, key@, i as int),
        decreases v.len() - i,
    {
        if text::same(v[i].0.as_str(), key) {
            return Some(i);
        }
        i = i + 1;
    }
    None
}

/// What stands under `key`.
pub fn lookup<'a, T>(v: &'a Vec<(String, T)>, key: &str) -> (r: Option<&'a T>)
    ensures
        r matches Some(x) ==> at(v@, key@) == Some(*x),
        r is None <==> at(v@, key@) is None,
{
    match position(v, key) {
        Some(i) => Some(&v[i].1),
        None => None,
    }
}

/// Puts `value` under `key`: in place of what stood there, or at the end.
pub fn put<T>(v: &mut Vec<(String, T)>, key: String, value: T)
    requires
        unique(old(v)@),
    ensures
        unique(final(v)@),
        forall|k: Seq<char>| #[trigger]
            at(final(v)@, k) == if k == key@ {
                Some(value)
            } else {
                at(old(v)@, k)
            },
        keys(final(v)@) == if at(old(v)@, key@) is Some {
            keys(old(v)@)
        } else {
            keys(old(v)@).push(key@)
        },
{
    let ghost before = v@;
    let ghost name = key@;
    proof {
        lemma_position_from(before, name, 0);
    }
    match position(v, key.as_str()) {
        Some(i) => {
            v.set(i, (key, value));
            assert(keys(v@) =~= keys(before));
            assert forall|k: Seq<char>| #[trigger] at(v@, k) == (if k == name {
                Some(value)
            } else {
                at(before, k)
            }) by {
                lemma_put(before, v@, i as int, k);
            }
        },
        None => {
            v.push((key, value));
            assert(keys(v@) =~= keys(before).push(name));
            assert forall|k: Seq<char>| #[trigger] at(v@, k) == (if k == name {
                Some(value)
            } else {
                at(before, k)
            }) by {
                lemma_put(before, v@, before.len() as int, k);
            }
        },
    }
}

proof fn lemma_put<T>(before: Seq<(String, T)>, after: Seq<(String, T)>, i: int, k: Seq<char>)
    requires
        0 <= i < after.len(),
        before.len() <= after.len() <= before.len() + 1,
        i < before.len() ==> after.len() == before.len() && before[i].0@ == after[i].0@,
        i == before.len() ==> forall|j: int| 0 <= j < before.len() ==> (#[trigger] before[j]).0@ != after[i].0@,
        forall|j: int| 0 <= j < before.len() && j != i ==> after[j] == #[trigger] before[j],
        forall|j: int| 0 <= j < i ==> (#[trigger] after[j]).0@ != after[i].0@,
    ensures
        at(after, k) == (if k == after[i].0@ {
            Some(after[i].1)
        } else {
            at(before, k)
        }),
{
    lemma_position_from(before, k, 0);
    lemma_position_from(after, k, 0);
    match position_from(after, k, 0) {
        Some(q) => {
            if q < before.len() {
                assert(before[q].0@ == after[q].0@);
            }
            match position_from(before, k, 0) {
                Some(p) => {
                    assert(after[p].0@ == before[p].0@);
                },
                None => {},
            }
            if k == after[i].0@ {
                assert(q <= i);
            }
        },
        None => {
            assert(after[i].0@ != k);
            match position_from(before, k, 0) {
                Some(p) => {
                    assert(after[p].0@ == before[p].0@);
                },
                None => {},
            }
        },
    }
}

/// A value is found by its key; a key that is not there has none.
pub proof fn law_values_are_found_by_key<T>(v: Seq<(String, T)>, i: int, key: Seq<char>)
    requires
        unique(v),
    ensures
        0 <= i < v.len() && v[i].0@ == key ==> at(v, key) == Some(v[i].1),
        (forall|j: int| 0 <= j < v.len() ==> (#[trigger] v[j]).0@ != key) ==> at(v, key) is None,
{
    lemma_position_from(v, key, 0);
    if let Some(j) = position_from(v, key, 0) {
        if 0 <= i < v.len() && v[i].0@ == key && i != j {
            if i < j {
                assert(v[i].0@ != v[j].0@);
            } else {
                assert(v[j].0@ != v[i].0@);
            }
        }
    }
}

} // verus!
