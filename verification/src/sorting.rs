//! Ascending, duplicate-free lists of texts: the order of `String`s and
//! of the keys of a `BTreeMap` or `BTreeSet`.
use crate::model::texts;
use crate::text::{
    chars_eq, chars_lt, chars_of, compare_chars, copy_chars, lemma_chars_lt_irreflexive_asymmetric,
    lemma_chars_lt_transitive, string_of,
};
use crate::util::deep;
use vstd::prelude::*;

verus! {

/// Keys in strictly ascending order.
pub open spec fn strictly_sorted(ks: Seq<Seq<char>>) -> bool {
    forall|i: int, j: int| 0 <= i < j < ks.len() ==> chars_lt(ks[i], ks[j])
}

/// The distinct keys, ascending.
pub fn sorted_distinct(keys: &Vec<Vec<char>>) -> (ks: Vec<Vec<char>>)
    ensures
        strictly_sorted(deep(ks@)),
        forall|k: Seq<char>|
            deep(ks@).contains(k) <==> exists|i: int|
                0 <= i < keys@.len() && #[trigger] keys@[i]@ == k,
{
    let mut ks: Vec<Vec<char>> = Vec::new();
    for i in 0..keys.len()
        invariant
            strictly_sorted(deep(ks@)),
            forall|k: Seq<char>|
                deep(ks@).contains(k) <==> exists|j: int| 0 <= j < i && #[trigger] keys@[j]@ == k,
    {
        let k = &keys[i];
        let mut p: usize = 0;
        let mut c: i8 = 1;
        while p < ks.len()
            invariant
                p <= ks@.len(),
                forall|q: int| 0 <= q < p ==> chars_lt(#[trigger] deep(ks@)[q], k@),
            ensures
                p <= ks@.len(),
                forall|q: int| 0 <= q < p ==> chars_lt(#[trigger] deep(ks@)[q], k@),
                p < ks@.len() ==> (c == 0 && ks@[p as int]@ == k@) || (c > 0 && chars_lt(
                    k@,
                    ks@[p as int]@,
                )),
            decreases ks@.len() - p,
        {
            c = compare_chars(&ks[p], k);
            if c >= 0 {
                break;
            }
            assert(deep(ks@)[p as int] == ks@[p as int]@);
            p = p + 1;
        }
        let ghost old_ks = deep(ks@);
        if p < ks.len() && c == 0 {
            assert(old_ks[p as int] == k@);
            assert forall|x: Seq<char>| old_ks.contains(x) <==> exists|j: int|
                0 <= j < i + 1 && #[trigger] keys@[j]@ == x by {
                if exists|j: int| 0 <= j < i + 1 && #[trigger] keys@[j]@ == x {
                    let j = choose|j: int| 0 <= j < i + 1 && #[trigger] keys@[j]@ == x;
                    if j == i {
                        assert(old_ks[p as int] == x);
                    }
                }
            }
        } else {
            ks.insert(p, copy_chars(k));
            let ghost new_ks = deep(ks@);
            assert(new_ks =~= old_ks.insert(p as int, k@));
            assert forall|a: int, b: int| 0 <= a < b < new_ks.len() implies chars_lt(
                new_ks[a],
                new_ks[b],
            ) by {
                if b < p {
                } else if b == p {
                    assert(new_ks[a] == old_ks[a]);
                } else if a < p {
                    assert(new_ks[b] == old_ks[b - 1]);
                    assert(chars_lt(old_ks[a], old_ks[b - 1]));
                } else if a == p {
                    assert(new_ks[b] == old_ks[b - 1]);
                    assert(old_ks[p as int] == ks@[p as int + 1]@ || true);
                    if b - 1 > p {
                        assert(chars_lt(old_ks[p as int], old_ks[b - 1]));
                        lemma_chars_lt_transitive(k@, old_ks[p as int], old_ks[b - 1]);
                    }
                } else {
                    assert(new_ks[a] == old_ks[a - 1]);
                    assert(new_ks[b] == old_ks[b - 1]);
                }
            }
            assert forall|x: Seq<char>| new_ks.contains(x) <==> exists|j: int|
                0 <= j < i + 1 && #[trigger] keys@[j]@ == x by {
                if new_ks.contains(x) {
                    let t = choose|t: int| 0 <= t < new_ks.len() && new_ks[t] == x;
                    if t < p {
                        assert(old_ks[t] == x);
                        assert(old_ks.contains(x));
                    } else if t > p {
                        assert(old_ks[t - 1] == x);
                        assert(old_ks.contains(x));
                    } else {
                        assert(keys@[i as int]@ == x);
                    }
                }
                if exists|j: int| 0 <= j < i + 1 && #[trigger] keys@[j]@ == x {
                    let j = choose|j: int| 0 <= j < i + 1 && #[trigger] keys@[j]@ == x;
                    if j == i {
                        assert(new_ks[p as int] == x);
                    } else {
                        assert(old_ks.contains(x));
                        let t = choose|t: int| 0 <= t < old_ks.len() && old_ks[t] == x;
                        if t < p {
                            assert(new_ks[t] == x);
                        } else {
                            assert(new_ks[t + 1] == x);
                        }
                    }
                }
            }
        }
    }
    ks
}



/// `sorted` holds exactly the texts of `s`, each once, ascending.
pub open spec fn sorted_set_of(s: Seq<Seq<char>>, sorted: Seq<Seq<char>>) -> bool {
    &&& strictly_sorted(sorted)
    &&& forall|k: Seq<char>| sorted.contains(k) <==> s.contains(k)
}

/// The texts of `s` sorted ascending with duplicates removed (what
/// `sort` followed by `dedup` leaves).
pub open spec fn sort_dedup(s: Seq<Seq<char>>) -> Seq<Seq<char>> {
    choose|sorted: Seq<Seq<char>>| sorted_set_of(s, sorted)
}

/// Two ascending duplicate-free lists of the same texts are equal.
pub proof fn lemma_sorted_set_unique(a: Seq<Seq<char>>, b: Seq<Seq<char>>)
    requires
        strictly_sorted(a),
        strictly_sorted(b),
        forall|k: Seq<char>| a.contains(k) <==> b.contains(k),
    ensures
        a == b,
    decreases a.len(),
{
    if a.len() == 0 {
        if b.len() > 0 {
            assert(b.contains(b[0]));
        }
        assert(a =~= b);
    } else {
        assert(a.contains(a[0]));
        assert(b.len() > 0);
        assert(b.contains(b[0]));
        let j = choose|j: int| 0 <= j < b.len() && b[j] == a[0];
        let i = choose|i: int| 0 <= i < a.len() && a[i] == b[0];
        lemma_chars_lt_irreflexive_asymmetric(a[0], b[0]);
        lemma_chars_lt_irreflexive_asymmetric(b[0], a[0]);
        lemma_chars_lt_irreflexive_asymmetric(a[0], a[0]);
        if j > 0 {
            assert(chars_lt(b[0], b[j]));
            if i > 0 {
                assert(chars_lt(a[0], a[i]));
            }
        }
        assert(a[0] == b[0]);
        let a1 = a.drop_first();
        let b1 = b.drop_first();
        assert forall|x: int, y: int| 0 <= x < y < a1.len() implies chars_lt(a1[x], a1[y]) by {
            assert(a1[x] == a[x + 1]);
            assert(a1[y] == a[y + 1]);
        }
        assert forall|x: int, y: int| 0 <= x < y < b1.len() implies chars_lt(b1[x], b1[y]) by {
            assert(b1[x] == b[x + 1]);
            assert(b1[y] == b[y + 1]);
        }
        assert forall|k: Seq<char>| a1.contains(k) <==> b1.contains(k) by {
            if a1.contains(k) {
                let t = choose|t: int| 0 <= t < a1.len() && a1[t] == k;
                assert(a[t + 1] == k);
                assert(chars_lt(a[0], a[t + 1]));
                lemma_chars_lt_irreflexive_asymmetric(k, k);
                assert(a.contains(k));
                assert(b.contains(k));
                let u = choose|u: int| 0 <= u < b.len() && b[u] == k;
                assert(u != 0);
                assert(b1[u - 1] == k);
            }
            if b1.contains(k) {
                let t = choose|t: int| 0 <= t < b1.len() && b1[t] == k;
                assert(b[t + 1] == k);
                assert(chars_lt(b[0], b[t + 1]));
                lemma_chars_lt_irreflexive_asymmetric(k, k);
                assert(b.contains(k));
                assert(a.contains(k));
                let u = choose|u: int| 0 <= u < a.len() && a[u] == k;
                assert(u != 0);
                assert(a1[u - 1] == k);
            }
        }
        lemma_sorted_set_unique(a1, b1);
        assert(a =~= seq![a[0]] + a1);
        assert(b =~= seq![b[0]] + b1);
    }
}

/// A list that holds the texts of `s` ascending and once is `sort_dedup(s)`.
pub proof fn lemma_sort_dedup(s: Seq<Seq<char>>, sorted: Seq<Seq<char>>)
    requires
        sorted_set_of(s, sorted),
    ensures
        sort_dedup(s) == sorted,
{
    let c = sort_dedup(s);
    assert(sorted_set_of(s, c));
    lemma_sorted_set_unique(c, sorted);
}

/// Sorts texts and removes duplicates.
pub fn sort_unique(values: &Vec<String>) -> (r: Vec<String>)
    ensures
        texts(r@) == sort_dedup(texts(values@)),
        sorted_set_of(texts(values@), texts(r@)),
{
    let mut keys: Vec<Vec<char>> = Vec::new();
    for i in 0..values.len()
        invariant
            keys@.len() == i,
            forall|j: int| 0 <= j < i ==> #[trigger] keys@[j]@ == values@[j]@,
    {
        keys.push(chars_of(values[i].as_str()));
    }
    let ks = sorted_distinct(&keys);
    let mut out: Vec<String> = Vec::new();
    for t in 0..ks.len()
        invariant
            texts(out@) == deep(ks@).take(t as int),
    {
        let ghost before = out@;
        out.push(string_of(&ks[t]));
        assert(texts(out@) =~= texts(before).push(ks@[t as int]@));
        assert(deep(ks@).take(t + 1) =~= deep(ks@).take(t as int).push(ks@[t as int]@));
    }
    assert(deep(ks@).take(ks@.len() as int) =~= deep(ks@));
    let ghost vs = texts(values@);
    assert forall|k: Seq<char>| texts(out@).contains(k) <==> vs.contains(k) by {
        if vs.contains(k) {
            let j = choose|j: int| 0 <= j < vs.len() && vs[j] == k;
            assert(keys@[j]@ == k);
        }
        if texts(out@).contains(k) {
            let i = choose|i: int| 0 <= i < keys@.len() && #[trigger] keys@[i]@ == k;
            assert(vs[i] == k);
        }
    }
    proof {
        lemma_sort_dedup(vs, texts(out@));
    }
    out
}

} // verus!
