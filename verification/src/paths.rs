//! Unix paths as the rules see them: joining, the home directory, absolute
//! paths, equality and the order of `Path` (component by component).
use crate::text::{chars_eq, chars_lt, chars_of, compare_chars, lemma_chars_lt_irreflexive_asymmetric, lemma_chars_lt_transitive, owned, push_str, string_of};
use crate::model::texts;
use crate::util::{components, components_spec, cur_component, deep, parent_component, root_component};
use vstd::prelude::*;

verus! {

/// `PathBuf::join`: an absolute `p` replaces `base`; otherwise `p` follows
/// `base` after a separator unless `base` is empty or already ends with one.
pub open spec fn path_join(base: Seq<char>, p: Seq<char>) -> Seq<char> {
    if p.len() > 0 && p[0] == '/' {
        p
    } else if base.len() > 0 && base.last() != '/' {
        base + seq!['/'] + p
    } else {
        base + p
    }
}

pub fn join_path(base: &str, p: &str) -> (r: String)
    ensures
        r@ == path_join(base@, p@),
{
    let pc = chars_of(p);
    if pc.len() > 0 && pc[0] == '/' {
        return owned(p);
    }
    let bc = chars_of(base);
    let mut out = owned(base);
    if bc.len() > 0 && bc[bc.len() - 1] != '/' {
        push_str(&mut out, "/");
        proof {
            reveal_strlit("/");
        }
    }
    push_str(&mut out, p);
    assert(out@ =~= path_join(base@, p@));
    out
}

/// Whether a path is absolute: it starts at the root.
pub open spec fn is_absolute(p: Seq<char>) -> bool {
    p.len() > 0 && p[0] == '/'
}

/// The home directory: `$HOME`, or the root when it is unset.
pub fn home(value: Option<&str>) -> (r: String)
    ensures
        r@ == match value {
            Some(v) => v@,
            None => "/"@,
        },
{
    match value {
        Some(v) => owned(v),
        None => owned("/"),
    }
}

/// A path made absolute against the current directory (or `.` when that
/// is unknown).
pub open spec fn absolute_spec(path: Seq<char>, current: Option<Seq<char>>) -> Seq<char> {
    if is_absolute(path) {
        path
    } else {
        path_join(
            match current {
                Some(c) => c,
                None => "."@,
            },
            path,
        )
    }
}

pub fn absolute_path(path: &str, current: Option<&str>) -> (r: String)
    ensures
        r@ == absolute_spec(
            path@,
            match current {
                Some(c) => Some(c@),
                None => None,
            },
        ),
{
    let pc = chars_of(path);
    if pc.len() > 0 && pc[0] == '/' {
        owned(path)
    } else {
        match current {
            Some(c) => join_path(c, path),
            None => join_path(".", path),
        }
    }
}

/// Whether two paths have the same components.
pub open spec fn same_path(a: Seq<char>, b: Seq<char>) -> bool {
    components_spec(a) == components_spec(b)
}

pub fn same_path_exec(a: &str, b: &str) -> (r: bool)
    ensures
        r == same_path(a@, b@),
{
    let x = components(a);
    let y = components(b);
    if x.len() != y.len() {
        assert(deep(x@).len() != deep(y@).len());
        return false;
    }
    let mut i: usize = 0;
    while i < x.len()
        invariant
            x@.len() == y@.len(),
            i <= x@.len(),
            forall|j: int| 0 <= j < i ==> deep(x@)[j] == deep(y@)[j],
            deep(x@) == components_spec(a@),
            deep(y@) == components_spec(b@),
        decreases x@.len() - i,
    {
        let xs = &x[i];
        let ys = &y[i];
        if !crate::text::chars_eq(xs.as_slice(), ys.as_slice()) {
            assert(deep(x@)[i as int] == x@[i as int]@);
            assert(deep(y@)[i as int] == y@[i as int]@);
            assert(deep(x@) != deep(y@));
            return false;
        }
        i = i + 1;
    }
    assert(deep(x@) =~= deep(y@));
    true
}

/// The order of one path component: the root, then `.`, then `..`, then
/// names in byte order.
pub open spec fn component_rank(c: Seq<char>) -> int {
    if c == root_component() {
        1
    } else if c == cur_component() {
        2
    } else if c == parent_component() {
        3
    } else {
        4
    }
}

pub open spec fn component_lt(a: Seq<char>, b: Seq<char>) -> bool {
    if component_rank(a) != component_rank(b) {
        component_rank(a) < component_rank(b)
    } else if component_rank(a) == 4 {
        chars_lt(a, b)
    } else {
        false
    }
}

/// The order of `Path`: components compared one by one.
pub open spec fn components_lt(a: Seq<Seq<char>>, b: Seq<Seq<char>>) -> bool
    decreases a.len(),
{
    if a.len() == 0 {
        b.len() > 0
    } else if b.len() == 0 {
        false
    } else if component_lt(a[0], b[0]) {
        true
    } else if a[0] == b[0] {
        components_lt(a.drop_first(), b.drop_first())
    } else {
        false
    }
}

pub open spec fn path_lt(a: Seq<char>, b: Seq<char>) -> bool {
    components_lt(components_spec(a), components_spec(b))
}

proof fn lemma_component_lt(a: Seq<char>, b: Seq<char>, c: Seq<char>)
    ensures
        !component_lt(a, a),
        component_lt(a, b) ==> !component_lt(b, a),
        component_lt(a, b) && component_lt(b, c) ==> component_lt(a, c),
{
    lemma_chars_lt_irreflexive_asymmetric(a, b);
    if component_lt(a, b) && component_lt(b, c) && component_rank(a) == 4 && component_rank(b)
        == 4 && component_rank(c) == 4 {
        lemma_chars_lt_transitive(a, b, c);
    }
}

pub proof fn lemma_components_lt(a: Seq<Seq<char>>, b: Seq<Seq<char>>, c: Seq<Seq<char>>)
    ensures
        !components_lt(a, a),
        components_lt(a, b) ==> !components_lt(b, a),
        components_lt(a, b) && components_lt(b, c) ==> components_lt(a, c),
    decreases a.len(),
{
    if a.len() > 0 && b.len() > 0 {
        lemma_component_lt(a[0], b[0], a[0]);
        lemma_component_lt(b[0], a[0], b[0]);
        lemma_component_lt(a[0], a[0], a[0]);
        if c.len() > 0 {
            lemma_component_lt(a[0], b[0], c[0]);
            lemma_components_lt(a.drop_first(), b.drop_first(), c.drop_first());
        } else {
            lemma_components_lt(a.drop_first(), b.drop_first(), b.drop_first());
        }
    } else if a.len() > 0 {
        lemma_components_lt(a.drop_first(), a.drop_first(), a.drop_first());
        lemma_component_lt(a[0], a[0], a[0]);
    }
}

fn component_rank_of(c: &Vec<char>) -> (r: u8)
    ensures
        r as int == component_rank(c@),
{
    let root = crate::text::one_char('/');
    let dot = crate::text::one_char('.');
    let mut dots = crate::text::one_char('.');
    dots.push('.');
    assert(dots@ =~= parent_component());
    if chars_eq(c, &root) {
        1
    } else if chars_eq(c, &dot) {
        2
    } else if chars_eq(c, &dots) {
        3
    } else {
        4
    }
}

fn compare_component(a: &Vec<char>, b: &Vec<char>) -> (r: i8)
    ensures
        r < 0 ==> component_lt(a@, b@),
        r == 0 ==> a@ == b@,
        r > 0 ==> component_lt(b@, a@),
{
    let x = component_rank_of(a);
    let y = component_rank_of(b);
    if x < y {
        -1
    } else if y < x {
        1
    } else if x == 4 {
        compare_chars(a, b)
    } else {
        0
    }
}

/// Three-way comparison of two paths in `Path` order.
pub fn compare_paths(a: &str, b: &str) -> (r: i8)
    ensures
        r < 0 ==> path_lt(a@, b@),
        r == 0 ==> same_path(a@, b@),
        r > 0 ==> path_lt(b@, a@),
{
    let x = components(a);
    let y = components(b);
    let ghost xs = deep(x@);
    let ghost ys = deep(y@);
    let mut i: usize = 0;
    assert(xs.skip(0) =~= xs);
    assert(ys.skip(0) =~= ys);
    while i < x.len() && i < y.len()
        invariant
            i <= x@.len(),
            i <= y@.len(),
            xs == deep(x@),
            ys == deep(y@),
            xs == components_spec(a@),
            ys == components_spec(b@),
            xs.take(i as int) == ys.take(i as int),
            components_lt(xs, ys) == components_lt(xs.skip(i as int), ys.skip(i as int)),
            components_lt(ys, xs) == components_lt(ys.skip(i as int), xs.skip(i as int)),
        decreases x@.len() - i,
    {
        let c = compare_component(&x[i], &y[i]);
        assert(xs.skip(i as int)[0] == x@[i as int]@);
        assert(ys.skip(i as int)[0] == y@[i as int]@);
        if c < 0 {
            return -1;
        }
        if c > 0 {
            return 1;
        }
        proof {
            lemma_component_lt(x@[i as int]@, x@[i as int]@, x@[i as int]@);
        }
        assert(xs.skip(i as int).drop_first() =~= xs.skip(i + 1));
        assert(ys.skip(i as int).drop_first() =~= ys.skip(i + 1));
        assert(xs.take(i + 1) =~= xs.take(i as int).push(x@[i as int]@));
        assert(ys.take(i + 1) =~= ys.take(i as int).push(y@[i as int]@));
        i = i + 1;
    }
    if x.len() == y.len() {
        assert(xs =~= xs.take(i as int));
        assert(ys =~= ys.take(i as int));
        0
    } else if x.len() < y.len() {
        assert(xs.skip(i as int).len() == 0);
        -1
    } else {
        assert(ys.skip(i as int).len() == 0);
        1
    }
}

/// Paths in strictly ascending `Path` order.
pub open spec fn paths_sorted(v: Seq<Seq<char>>) -> bool {
    forall|i: int, j: int| 0 <= i < j < v.len() ==> path_lt(v[i], v[j])
}

/// Whether `p` is the first of `v` that names its path.
pub open spec fn first_of_its_path(v: Seq<Seq<char>>, p: Seq<char>) -> bool {
    exists|i: int|
        0 <= i < v.len() && v[i] == p && forall|k: int| 0 <= k < i ==> !same_path(#[trigger] v[k], p)
}

/// Whether some entry of `r` names the path `p`.
pub open spec fn path_listed(r: Seq<Seq<char>>, p: Seq<char>) -> bool {
    exists|j: int| 0 <= j < r.len() && same_path(#[trigger] r[j], p)
}

/// What `sort` followed by `dedup` leaves of a list of paths: every path
/// once, by its first spelling, in ascending `Path` order.
pub open spec fn sorted_paths_of(v: Seq<Seq<char>>, r: Seq<Seq<char>>) -> bool {
    &&& paths_sorted(r)
    &&& forall|j: int| 0 <= j < r.len() ==> first_of_its_path(v, #[trigger] r[j])
    &&& forall|i: int| 0 <= i < v.len() ==> path_listed(r, #[trigger] v[i])
}

proof fn lemma_insert_sorted(os: Seq<Seq<char>>, p: int, item: Seq<char>)
    requires
        0 <= p <= os.len(),
        paths_sorted(os),
        forall|q: int| 0 <= q < p ==> path_lt(#[trigger] os[q], item),
        p < os.len() ==> path_lt(item, os[p]),
    ensures
        paths_sorted(os.insert(p, item)),
        forall|q: int| 0 <= q < os.len() ==> !same_path(#[trigger] os[q], item),
{
    let ns = os.insert(p, item);
    assert forall|a: int, b: int| 0 <= a < b < ns.len() implies path_lt(ns[a], ns[b]) by {
        if b < p {
        } else if b == p {
            assert(ns[a] == os[a]);
        } else if a < p {
            assert(ns[b] == os[b - 1]);
            assert(ns[a] == os[a]);
        } else if a == p {
            assert(ns[b] == os[b - 1]);
            if b - 1 > p {
                assert(path_lt(os[p], os[b - 1]));
                lemma_components_lt(
                    components_spec(item),
                    components_spec(os[p]),
                    components_spec(os[b - 1]),
                );
            }
        } else {
            assert(ns[a] == os[a - 1]);
            assert(ns[b] == os[b - 1]);
        }
    }
    assert forall|q: int| 0 <= q < os.len() implies !same_path(#[trigger] os[q], item) by {
        if q < p {
            lemma_components_lt(components_spec(os[q]), components_spec(item), components_spec(os[q]));
        } else {
            if q > p {
                assert(path_lt(os[p], os[q]));
                lemma_components_lt(components_spec(item), components_spec(os[p]), components_spec(os[q]));
            }
            assert(path_lt(item, os[q]));
            lemma_components_lt(components_spec(item), components_spec(os[q]), components_spec(item));
        }
    }
}

proof fn lemma_first_extends(vs: Seq<Seq<char>>, n: int, x: Seq<char>)
    requires
        0 <= n < vs.len(),
        first_of_its_path(vs.take(n), x),
    ensures
        first_of_its_path(vs.take(n + 1), x),
{
    let w = choose|w: int|
        0 <= w < vs.take(n).len() && vs.take(n)[w] == x && forall|k: int|
            0 <= k < w ==> !same_path(#[trigger] vs.take(n)[k], x);
    assert(vs.take(n + 1)[w] == x);
    assert forall|k: int| 0 <= k < w implies !same_path(#[trigger] vs.take(n + 1)[k], x) by {
        assert(vs.take(n + 1)[k] == vs.take(n)[k]);
    }
}

/// What holds of the sorted list after the first `n` paths.
#[verifier::opaque]
pub open spec fn sorted_prefix(vs: Seq<Seq<char>>, n: int, out: Seq<Seq<char>>) -> bool {
    &&& paths_sorted(out)
    &&& forall|j: int| 0 <= j < out.len() ==> first_of_its_path(vs.take(n), #[trigger] out[j])
    &&& forall|k: int| 0 <= k < n ==> path_listed(out, #[trigger] vs[k])
}

proof fn lemma_place_known(vs: Seq<Seq<char>>, n: int, os: Seq<Seq<char>>, p: int)
    requires
        0 <= n < vs.len(),
        0 <= p < os.len(),
        same_path(os[p], vs[n]),
        sorted_prefix(vs, n, os),
    ensures
        sorted_prefix(vs, n + 1, os),
{
    reveal(sorted_prefix);
    assert forall|j: int| 0 <= j < os.len() implies first_of_its_path(
        vs.take(n + 1),
        #[trigger] os[j],
    ) by {
        lemma_first_extends(vs, n, os[j]);
    }
    assert forall|k: int| 0 <= k < n + 1 implies path_listed(os, #[trigger] vs[k]) by {
        if k == n {
            assert(same_path(os[p], vs[k]));
        }
    }
}

#[verifier::rlimit(60)]
proof fn lemma_place_new(vs: Seq<Seq<char>>, n: int, os: Seq<Seq<char>>, p: int)
    requires
        0 <= n < vs.len(),
        0 <= p <= os.len(),
        sorted_prefix(vs, n, os),
        forall|q: int| 0 <= q < p ==> path_lt(#[trigger] os[q], vs[n]),
        p < os.len() ==> path_lt(vs[n], os[p]),
    ensures
        sorted_prefix(vs, n + 1, os.insert(p, vs[n])),
{
    reveal(sorted_prefix);
    let item = vs[n];
    lemma_insert_sorted(os, p, item);
    let ns = os.insert(p, item);
    assert forall|k: int| 0 <= k < n implies !same_path(#[trigger] vs[k], item) by {
        assert(path_listed(os, vs[k]));
        let j = choose|j: int| 0 <= j < os.len() && same_path(#[trigger] os[j], vs[k]);
        assert(!same_path(os[j], item));
    }
    assert forall|j: int| 0 <= j < ns.len() implies first_of_its_path(
        vs.take(n + 1),
        #[trigger] ns[j],
    ) by {
        if j == p {
            assert(vs.take(n + 1)[n] == item);
            assert forall|k: int| 0 <= k < n implies !same_path(#[trigger] vs.take(n + 1)[k], item) by {
                assert(vs.take(n + 1)[k] == vs[k]);
            }
        } else if j < p {
            assert(ns[j] == os[j]);
            lemma_first_extends(vs, n, os[j]);
        } else {
            assert(ns[j] == os[j - 1]);
            lemma_first_extends(vs, n, os[j - 1]);
        }
    }
    assert forall|k: int| 0 <= k < n + 1 implies path_listed(ns, #[trigger] vs[k]) by {
        if k == n {
            assert(ns[p] == item);
            assert(same_path(ns[p], vs[k]));
        } else {
            assert(path_listed(os, vs[k]));
            let j = choose|j: int| 0 <= j < os.len() && same_path(#[trigger] os[j], vs[k]);
            if j < p {
                assert(ns[j] == os[j]);
            } else {
                assert(ns[j + 1] == os[j]);
            }
        }
    }
}

/// Adds the path `vs[n]` to the sorted list unless its path is there.
fn place_path(out: &mut Vec<String>, item: &String, Ghost(vs): Ghost<Seq<Seq<char>>>, n: usize)
    requires
        n < vs.len(),
        vs[n as int] == item@,
        sorted_prefix(vs, n as int, texts(old(out)@)),
    ensures
        sorted_prefix(vs, n + 1, texts(final(out)@)),
{
    let ghost os = texts(out@);
    let mut p: usize = 0;
    let mut c: i8 = 1;
    while p < out.len()
        invariant
            p <= out@.len(),
            os == texts(out@),
            forall|q: int| 0 <= q < p ==> path_lt(#[trigger] os[q], item@),
        ensures
            p <= out@.len(),
            forall|q: int| 0 <= q < p ==> path_lt(#[trigger] os[q], item@),
            p < out@.len() ==> (c == 0 && same_path(os[p as int], item@)) || (c > 0 && path_lt(
                item@,
                os[p as int],
            )),
        decreases out@.len() - p,
    {
        c = compare_paths(out[p].as_str(), item.as_str());
        assert(os[p as int] == out@[p as int]@);
        if c >= 0 {
            break;
        }
        p = p + 1;
    }
    if p < out.len() && c == 0 {
        proof {
            lemma_place_known(vs, n as int, os, p as int);
        }
    } else {
        proof {
            lemma_place_new(vs, n as int, os, p as int);
        }
        out.insert(p, item.clone());
        assert(texts(out@) =~= os.insert(p as int, item@));
    }
}

proof fn lemma_sorted_prefix_done(vs: Seq<Seq<char>>, out: Seq<Seq<char>>)
    requires
        sorted_prefix(vs, vs.len() as int, out),
    ensures
        sorted_paths_of(vs, out),
{
    reveal(sorted_prefix);
    assert(vs.take(vs.len() as int) =~= vs);
}

/// Sorts paths in `Path` order and drops repeated paths.
pub fn sort_paths(v: &Vec<String>) -> (r: Vec<String>)
    ensures
        sorted_paths_of(texts(v@), texts(r@)),
{
    let ghost vs = texts(v@);
    let mut out: Vec<String> = Vec::new();
    assert(texts(out@) =~= Seq::<Seq<char>>::empty());
    assert(sorted_prefix(vs, 0, texts(out@))) by {
        reveal(sorted_prefix);
    }
    for i in 0..v.len()
        invariant
            vs == texts(v@),
            sorted_prefix(vs, i as int, texts(out@)),
    {
        assert(vs[i as int] == v@[i as int]@);
        place_path(&mut out, &v[i], Ghost(vs), i);
    }
    proof {
        lemma_sorted_prefix_done(vs, texts(out@));
    }
    out
}

} // verus!
