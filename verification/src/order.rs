//! The character order of strings, and a sort of character strings by a key.

use vstd::prelude::*;
use vstd::multiset::Multiset;
use vstd::relations::total_ordering;
use vstd::seq_lib::to_multiset_remove;
use crate::paths::{path_key, path_key_exec};
use crate::text::views;

verus! {

/// `a` comes no later than `b` in character order (as `str` ordering: code point by code
/// point, a proper prefix first).
pub open spec fn seq_le(a: Seq<char>, b: Seq<char>) -> bool
    decreases a.len(),
{
    if a.len() == 0 {
        true
    } else if b.len() == 0 {
        false
    } else if a[0] != b[0] {
        a[0] < b[0]
    } else {
        seq_le(a.drop_first(), b.drop_first())
    }
}

pub proof fn lemma_seq_le_reflexive(a: Seq<char>)
    ensures
        seq_le(a, a),
    decreases a.len(),
{
    if a.len() > 0 {
        lemma_seq_le_reflexive(a.drop_first());
    }
}

pub proof fn lemma_seq_le_total(a: Seq<char>, b: Seq<char>)
    ensures
        seq_le(a, b) || seq_le(b, a),
    decreases a.len(),
{
    if a.len() > 0 && b.len() > 0 && a[0] == b[0] {
        lemma_seq_le_total(a.drop_first(), b.drop_first());
    }
}

pub proof fn lemma_seq_le_antisymmetric(a: Seq<char>, b: Seq<char>)
    requires
        seq_le(a, b),
        seq_le(b, a),
    ensures
        a == b,
    decreases a.len(),
{
    if a.len() == 0 {
        assert(b.len() == 0);
        assert(a =~= b);
    } else {
        lemma_seq_le_antisymmetric(a.drop_first(), b.drop_first());
        assert(a =~= seq![a[0]] + a.drop_first());
        assert(b =~= seq![b[0]] + b.drop_first());
    }
}

pub proof fn lemma_seq_le_transitive(a: Seq<char>, b: Seq<char>, c: Seq<char>)
    requires
        seq_le(a, b),
        seq_le(b, c),
    ensures
        seq_le(a, c),
    decreases a.len(),
{
    if a.len() > 0 && b.len() > 0 && c.len() > 0 && a[0] == b[0] && b[0] == c[0] {
        lemma_seq_le_transitive(a.drop_first(), b.drop_first(), c.drop_first());
    }
}

/// Character order is a total order.
pub proof fn lemma_seq_le_total_ordering()
    ensures
        total_ordering(|a: Seq<char>, b: Seq<char>| seq_le(a, b)),
{
    let leq = |a: Seq<char>, b: Seq<char>| seq_le(a, b);
    assert forall|a: Seq<char>| #[trigger] leq(a, a) by {
        lemma_seq_le_reflexive(a);
    }
    assert forall|a: Seq<char>, b: Seq<char>| #[trigger]
        leq(a, b) && #[trigger] leq(b, a) implies a == b by {
        lemma_seq_le_antisymmetric(a, b);
    }
    assert forall|a: Seq<char>, b: Seq<char>, c: Seq<char>| #[trigger]
        leq(a, b) && #[trigger] leq(b, c) implies leq(a, c) by {
        lemma_seq_le_transitive(a, b, c);
    }
    assert forall|a: Seq<char>, b: Seq<char>| #[trigger] leq(a, b) || #[trigger] leq(b, a) by {
        lemma_seq_le_total(a, b);
    }
}

/// Whether `a` comes no later than `b` in character order.
pub fn chars_le(a: &Vec<char>, b: &Vec<char>) -> (r: bool)
    ensures
        r == seq_le(a@, b@),
{
    let mut i: usize = 0;
    assert(a@.skip(0) == a@ && b@.skip(0) == b@);
    while i < a.len() && i < b.len() && a[i] == b[i]
        invariant
            i <= a.len(),
            i <= b.len(),
            seq_le(a@, b@) == seq_le(a@.skip(i as int), b@.skip(i as int)),
        decreases a.len() - i,
    {
        assert(a@.skip(i as int).drop_first() == a@.skip(i + 1));
        assert(b@.skip(i as int).drop_first() == b@.skip(i + 1));
        i += 1;
    }
    if i == a.len() {
        true
    } else if i == b.len() {
        false
    } else {
        assert(a@.skip(i as int)[0] == a@[i as int]);
        assert(b@.skip(i as int)[0] == b@[i as int]);
        a[i] < b[i]
    }
}

/// The key by which a string is sorted: the string itself, or its path key.
pub open spec fn sort_key(x: Seq<char>, by_path: bool) -> Seq<char> {
    if by_path {
        path_key(x)
    } else {
        x
    }
}

/// Every element comes no later than those after it, by key.
pub open spec fn sorted_by_key(s: Seq<Seq<char>>, by_path: bool) -> bool {
    forall|i: int, j: int|
        0 <= i < j < s.len() ==> seq_le(
            sort_key(#[trigger] s[i], by_path),
            sort_key(#[trigger] s[j], by_path),
        )
}

fn key_exec(x: &Vec<char>, by_path: bool) -> (k: Vec<char>)
    ensures
        k@ == sort_key(x@, by_path),
{
    if by_path {
        path_key_exec(x)
    } else {
        x.clone()
    }
}

proof fn lemma_empty_multiset(s: Seq<Seq<char>>)
    requires
        s.len() == 0,
    ensures
        s.to_multiset() =~= Multiset::empty(),
{
    s.to_multiset_ensures();
    vstd::multiset::lemma_multiset_empty_len(s.to_multiset());
}

proof fn lemma_insert_multiset(s: Seq<Seq<char>>, j: int, x: Seq<char>)
    requires
        0 <= j <= s.len(),
    ensures
        s.insert(j, x).to_multiset() == s.to_multiset().insert(x),
{
    broadcast use vstd::multiset::group_multiset_axioms;
    let t = s.insert(j, x);
    assert(t.remove(j) =~= s);
    to_multiset_remove(t, j);
    assert(t[j] == x);
    assert(t.to_multiset() =~= s.to_multiset().insert(x)) by {
        assert(t.contains(x));
        t.to_multiset_ensures();
        assert(t.to_multiset().count(x) > 0);
    }
}

/// The strings sorted by key (themselves, or their path keys), equal keys in any order.
pub fn sort_by_key(v: Vec<Vec<char>>, by_path: bool) -> (res: Vec<Vec<char>>)
    ensures
        views(res@).to_multiset() == views(v@).to_multiset(),
        sorted_by_key(views(res@), by_path),
{
    broadcast use vstd::multiset::group_multiset_axioms;
    let ghost orig = views(v@);
    let mut rest = v;
    let mut res: Vec<Vec<char>> = Vec::new();
    proof {
        lemma_empty_multiset(views(res@));
    }
    while rest.len() > 0
        invariant
            views(res@).to_multiset().add(views(rest@).to_multiset()) == orig.to_multiset(),
            sorted_by_key(views(res@), by_path),
        decreases rest.len(),
    {
        let ghost before = views(rest@);
        let x = rest.pop().unwrap();
        proof {
            assert(before =~= views(rest@).push(x@));
            views(rest@).to_multiset_ensures();
        }
        let kx = key_exec(&x, by_path);
        let mut j: usize = 0;
        while j < res.len() && chars_le(&key_exec(&res[j], by_path), &kx)
            invariant
                j <= res.len(),
                kx@ == sort_key(x@, by_path),
                forall|k: int| 0 <= k < j ==> seq_le(sort_key(#[trigger] res@[k]@, by_path), kx@),
            decreases res.len() - j,
        {
            j += 1;
        }
        let ghost s = views(res@);
        proof {
            if j < res.len() {
                lemma_seq_le_total(kx@, sort_key(s[j as int], by_path));
            }
        }
        res.insert(j, x);
        proof {
            let t = views(res@);
            assert(t =~= s.insert(j as int, x@));
            lemma_insert_multiset(s, j as int, x@);
            assert forall|a: int, b: int| 0 <= a < b < t.len() implies seq_le(
                sort_key(#[trigger] t[a], by_path),
                sort_key(#[trigger] t[b], by_path),
            ) by {
                if b < j {
                    assert(t[a] == s[a] && t[b] == s[b]);
                } else if b == j {
                    assert(t[a] == s[a]);
                } else if a == j {
                    assert(t[b] == s[b - 1]);
                    if b - 1 > j {
                        assert(seq_le(sort_key(s[j as int], by_path), sort_key(s[b - 1], by_path)));
                        lemma_seq_le_transitive(
                            kx@,
                            sort_key(s[j as int], by_path),
                            sort_key(s[b - 1], by_path),
                        );
                    }
                } else if a < j {
                    assert(t[a] == s[a] && t[b] == s[b - 1]);
                    assert(seq_le(sort_key(s[a], by_path), sort_key(s[b - 1], by_path)));
                } else {
                    assert(t[a] == s[a - 1] && t[b] == s[b - 1]);
                    assert(seq_le(sort_key(s[a - 1], by_path), sort_key(s[b - 1], by_path)));
                }
            }
        }
    }
    proof {
        lemma_empty_multiset(views(rest@));
    }
    res
}

} // verus!
