//! The orders that make reports deterministic: text in character order (the
//! byte order of UTF-8, as `String` compares) and paths component by component
//! (as `Path` compares: the root before `.`, `.` before `..`, and those before
//! named components, which compare by their text).

use vstd::prelude::*;

use crate::paths::{components_of, path_components};
use crate::text::{chars_of, views_of};

verus! {

/// Lexicographic order on texts by character value, non-strict.
pub open spec fn text_le(a: Seq<char>, b: Seq<char>) -> bool
    decreases a.len(),
{
    if a.len() == 0 {
        true
    } else if b.len() == 0 {
        false
    } else if a[0] != b[0] {
        (a[0] as int) < (b[0] as int)
    } else {
        text_le(a.drop_first(), b.drop_first())
    }
}

/// Any two texts are ordered one way or the other.
pub proof fn lemma_text_le_total(a: Seq<char>, b: Seq<char>)
    ensures
        text_le(a, b) || text_le(b, a),
    decreases a.len(),
{
    if a.len() > 0 && b.len() > 0 && a[0] == b[0] {
        lemma_text_le_total(a.drop_first(), b.drop_first());
    }
}

/// The text order is transitive.
pub proof fn lemma_text_le_transitive(a: Seq<char>, b: Seq<char>, c: Seq<char>)
    requires
        text_le(a, b),
        text_le(b, c),
    ensures
        text_le(a, c),
    decreases a.len(),
{
    if a.len() > 0 && b.len() > 0 && c.len() > 0 && a[0] == b[0] && b[0] == c[0] {
        lemma_text_le_transitive(a.drop_first(), b.drop_first(), c.drop_first());
    }
}

/// Two texts ordered both ways are equal.
pub proof fn lemma_text_le_antisymmetric(a: Seq<char>, b: Seq<char>)
    requires
        text_le(a, b),
        text_le(b, a),
    ensures
        a == b,
    decreases a.len(),
{
    if a.len() > 0 && b.len() > 0 {
        lemma_text_le_antisymmetric(a.drop_first(), b.drop_first());
        assert(a =~= seq![a[0]] + a.drop_first());
        assert(b =~= seq![b[0]] + b.drop_first());
    }
}

/// The rank of a path component: the root, then `.`, then `..`, then names.
pub open spec fn component_rank(part: Seq<char>) -> int {
    if part == "/"@ {
        1
    } else if part == "."@ {
        2
    } else if part == ".."@ {
        3
    } else {
        4
    }
}

/// The order of path components, non-strict.
pub open spec fn component_le(x: Seq<char>, y: Seq<char>) -> bool {
    component_rank(x) < component_rank(y) || (component_rank(x) == component_rank(y) && text_le(x, y))
}

/// Lexicographic order on sequences of components, non-strict.
pub open spec fn components_le(p: Seq<Seq<char>>, q: Seq<Seq<char>>) -> bool
    decreases p.len(),
{
    if p.len() == 0 {
        true
    } else if q.len() == 0 {
        false
    } else if p[0] != q[0] {
        component_le(p[0], q[0])
    } else {
        components_le(p.drop_first(), q.drop_first())
    }
}

/// The order of paths, non-strict: by their components.
pub open spec fn path_le(a: Seq<char>, b: Seq<char>) -> bool {
    components_le(path_components(a), path_components(b))
}

proof fn lemma_component_le_facts(x: Seq<char>, y: Seq<char>, z: Seq<char>)
    ensures
        component_le(x, y) || component_le(y, x),
        component_le(x, y) && component_le(y, z) ==> component_le(x, z),
        component_le(x, y) && component_le(y, x) ==> x == y,
{
    lemma_text_le_total(x, y);
    if component_le(x, y) && component_le(y, z) && component_rank(x) == component_rank(z) {
        lemma_text_le_transitive(x, y, z);
    }
    if component_le(x, y) && component_le(y, x) {
        lemma_text_le_antisymmetric(x, y);
    }
}

/// Any two component sequences are ordered one way or the other.
pub proof fn lemma_components_le_total(p: Seq<Seq<char>>, q: Seq<Seq<char>>)
    ensures
        components_le(p, q) || components_le(q, p),
    decreases p.len(),
{
    if p.len() > 0 && q.len() > 0 {
        if p[0] == q[0] {
            lemma_components_le_total(p.drop_first(), q.drop_first());
        } else {
            lemma_component_le_facts(p[0], q[0], q[0]);
        }
    }
}

/// The component sequence order is transitive.
pub proof fn lemma_components_le_transitive(p: Seq<Seq<char>>, q: Seq<Seq<char>>, r: Seq<Seq<char>>)
    requires
        components_le(p, q),
        components_le(q, r),
    ensures
        components_le(p, r),
    decreases p.len(),
{
    if p.len() > 0 && q.len() > 0 && r.len() > 0 {
        lemma_component_le_facts(p[0], q[0], r[0]);
        lemma_component_le_facts(q[0], r[0], p[0]);
        if p[0] == q[0] && q[0] == r[0] {
            lemma_components_le_transitive(p.drop_first(), q.drop_first(), r.drop_first());
        }
    }
}

/// Two component sequences ordered both ways are equal.
pub proof fn lemma_components_le_antisymmetric(p: Seq<Seq<char>>, q: Seq<Seq<char>>)
    requires
        components_le(p, q),
        components_le(q, p),
    ensures
        p == q,
    decreases p.len(),
{
    if p.len() > 0 && q.len() > 0 {
        lemma_component_le_facts(p[0], q[0], q[0]);
        lemma_components_le_antisymmetric(p.drop_first(), q.drop_first());
        assert(p =~= seq![p[0]] + p.drop_first());
        assert(q =~= seq![q[0]] + q.drop_first());
    }
}

/// Whether `a` comes before `b` or equals it in the text order.
pub fn text_le_exec(a: &[char], b: &[char]) -> (result: bool)
    ensures
        result == text_le(a@, b@),
{
    let mut i: usize = 0;
    assert(a@.subrange(0, a@.len() as int) =~= a@);
    assert(b@.subrange(0, b@.len() as int) =~= b@);
    while i < a.len() && i < b.len()
        invariant
            i <= a@.len(),
            i <= b@.len(),
            text_le(a@, b@) == text_le(a@.subrange(i as int, a@.len() as int), b@.subrange(i as int, b@.len() as int)),
        decreases a@.len() - i,
    {
        let ghost rest_a = a@.subrange(i as int, a@.len() as int);
        let ghost rest_b = b@.subrange(i as int, b@.len() as int);
        assert(rest_a[0] == a@[i as int] && rest_b[0] == b@[i as int]);
        if a[i] != b[i] {
            return a[i] < b[i];
        }
        assert(rest_a.drop_first() =~= a@.subrange(i + 1, a@.len() as int));
        assert(rest_b.drop_first() =~= b@.subrange(i + 1, b@.len() as int));
        i = i + 1;
    }
    i == a.len()
}

/// The rank of a path component.
fn component_rank_exec(part: &[char]) -> (rank: u8)
    ensures
        rank as int == component_rank(part@),
{
    if crate::text::chars_equal(part, chars_of("/").as_slice()) {
        1
    } else if crate::text::chars_equal(part, chars_of(".").as_slice()) {
        2
    } else if crate::text::chars_equal(part, chars_of("..").as_slice()) {
        3
    } else {
        4
    }
}

/// Whether component `x` comes before `y` or equals it.
fn component_le_exec(x: &[char], y: &[char]) -> (result: bool)
    ensures
        result == component_le(x@, y@),
{
    let x_rank = component_rank_exec(x);
    let y_rank = component_rank_exec(y);
    x_rank < y_rank || (x_rank == y_rank && text_le_exec(x, y))
}

/// Whether component sequence `p` comes before `q` or equals it.
fn components_le_exec(p: &Vec<Vec<char>>, q: &Vec<Vec<char>>) -> (result: bool)
    ensures
        result == components_le(views_of(p@), views_of(q@)),
{
    let ghost vp = views_of(p@);
    let ghost vq = views_of(q@);
    let mut i: usize = 0;
    assert(vp.subrange(0, vp.len() as int) =~= vp);
    assert(vq.subrange(0, vq.len() as int) =~= vq);
    while i < p.len() && i < q.len()
        invariant
            i <= p@.len(),
            i <= q@.len(),
            vp == views_of(p@),
            vq == views_of(q@),
            components_le(vp, vq) == components_le(vp.subrange(i as int, vp.len() as int), vq.subrange(i as int, vq.len() as int)),
        decreases p@.len() - i,
    {
        let ghost rest_p = vp.subrange(i as int, vp.len() as int);
        let ghost rest_q = vq.subrange(i as int, vq.len() as int);
        assert(rest_p[0] == p@[i as int]@ && rest_q[0] == q@[i as int]@);
        if !crate::text::chars_equal(p[i].as_slice(), q[i].as_slice()) {
            return component_le_exec(p[i].as_slice(), q[i].as_slice());
        }
        assert(rest_p.drop_first() =~= vp.subrange(i + 1, vp.len() as int));
        assert(rest_q.drop_first() =~= vq.subrange(i + 1, vq.len() as int));
        i = i + 1;
    }
    i == p.len()
}

/// Whether path `a` comes before path `b` or equals it in the path order.
pub fn path_le_exec(a: &str, b: &str) -> (result: bool)
    ensures
        result == path_le(a@, b@),
{
    let p = components_of(chars_of(a).as_slice());
    let q = components_of(chars_of(b).as_slice());
    components_le_exec(&p, &q)
}

/// Whether two paths have the same components.
pub fn same_path_exec(a: &str, b: &str) -> (result: bool)
    ensures
        result == (path_components(a@) == path_components(b@)),
{
    let p = components_of(chars_of(a).as_slice());
    let q = components_of(chars_of(b).as_slice());
    if p.len() != q.len() {
        assert(views_of(p@).len() != views_of(q@).len());
        return false;
    }
    let mut i: usize = 0;
    while i < p.len()
        invariant
            i <= p@.len(),
            p@.len() == q@.len(),
            views_of(p@) == path_components(a@),
            views_of(q@) == path_components(b@),
            forall|k: int| 0 <= k < i ==> views_of(p@)[k] == views_of(q@)[k],
        decreases p@.len() - i,
    {
        if !crate::text::chars_equal(p[i].as_slice(), q[i].as_slice()) {
            assert(views_of(p@)[i as int] != views_of(q@)[i as int]);
            return false;
        }
        i = i + 1;
    }
    assert(views_of(p@) =~= views_of(q@));
    true
}

} // verus!
