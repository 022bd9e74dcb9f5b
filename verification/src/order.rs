//! The orders in which sorted maps keep their keys: strings by their
//! characters (the order of `str`), paths by their components (the order of
//! `Path`).

use crate::paths::{component_views, components, path_components, Component, PathComponent};
use crate::text::chars_of;
use vstd::prelude::*;

verus! {

/// The outcome of comparing two keys.
#[derive(Clone, Copy, Debug, PartialEq, Eq, Structural)]
pub enum Order {
    Less,
    Equal,
    Greater,
}

/// Lexicographic order of character sequences, characters compared by their
/// code points: the order of `str` and `String`.
pub open spec fn chars_lt(a: Seq<char>, b: Seq<char>) -> bool
    decreases a.len(),
{
    if a.len() == 0 {
        b.len() > 0
    } else if b.len() == 0 {
        false
    } else if a[0] != b[0] {
        (a[0] as int) < (b[0] as int)
    } else {
        chars_lt(a.drop_first(), b.drop_first())
    }
}

/// No sequence comes before itself.
pub proof fn lemma_chars_lt_irreflexive(a: Seq<char>)
    ensures
        !chars_lt(a, a),
    decreases a.len(),
{
    if a.len() > 0 {
        lemma_chars_lt_irreflexive(a.drop_first());
    }
}

/// The character order is transitive.
pub proof fn lemma_chars_lt_transitive(a: Seq<char>, b: Seq<char>, c: Seq<char>)
    requires
        chars_lt(a, b),
        chars_lt(b, c),
    ensures
        chars_lt(a, c),
    decreases a.len(),
{
    if a.len() > 0 && b.len() > 0 && c.len() > 0 && a[0] == b[0] && b[0] == c[0] {
        lemma_chars_lt_transitive(a.drop_first(), b.drop_first(), c.drop_first());
    }
}

/// Of two distinct sequences one comes first.
pub proof fn lemma_chars_lt_total(a: Seq<char>, b: Seq<char>)
    requires
        a != b,
    ensures
        chars_lt(a, b) || chars_lt(b, a),
    decreases a.len(),
{
    if a.len() > 0 && b.len() > 0 && a[0] == b[0] {
        if a.drop_first() == b.drop_first() {
            assert(a =~= seq![a[0]] + a.drop_first());
            assert(b =~= seq![b[0]] + b.drop_first());
        }
        lemma_chars_lt_total(a.drop_first(), b.drop_first());
    } else if a.len() > 0 && b.len() > 0 {
        assert((a[0] as int) != (b[0] as int));
    } else if a.len() == 0 && b.len() == 0 {
        assert(a =~= b);
    }
}

/// Two sequences are never each before the other.
pub proof fn lemma_chars_lt_asymmetric(a: Seq<char>, b: Seq<char>)
    requires
        chars_lt(a, b),
    ensures
        !chars_lt(b, a),
{
    if chars_lt(b, a) {
        lemma_chars_lt_transitive(a, b, a);
        lemma_chars_lt_irreflexive(a);
    }
}

/// A common prefix does not change the order.
proof fn lemma_chars_lt_skip(a: Seq<char>, b: Seq<char>, i: int)
    requires
        0 <= i <= a.len(),
        i <= b.len(),
        a.take(i) == b.take(i),
    ensures
        chars_lt(a, b) == chars_lt(a.skip(i), b.skip(i)),
    decreases i,
{
    if i > 0 {
        assert(a[0] == a.take(i)[0]);
        assert(b[0] == b.take(i)[0]);
        assert(a.drop_first().take(i - 1) =~= a.take(i).drop_first());
        assert(b.drop_first().take(i - 1) =~= b.take(i).drop_first());
        lemma_chars_lt_skip(a.drop_first(), b.drop_first(), i - 1);
        assert(a.drop_first().skip(i - 1) =~= a.skip(i));
        assert(b.drop_first().skip(i - 1) =~= b.skip(i));
    } else {
        assert(a.skip(0) =~= a);
        assert(b.skip(0) =~= b);
    }
}

/// Compares two character sequences.
pub fn order_chars(a: &[char], b: &[char]) -> (r: Order)
    ensures
        (r == Order::Less) == chars_lt(a@, b@),
        (r == Order::Equal) == (a@ == b@),
        (r == Order::Greater) == chars_lt(b@, a@),
{
    let mut i: usize = 0;
    while i < a.len() && i < b.len()
        invariant
            i <= a@.len(),
            i <= b@.len(),
            a@.take(i as int) == b@.take(i as int),
        decreases a@.len() - i,
    {
        if a[i] != b[i] {
            proof {
                lemma_chars_lt_skip(a@, b@, i as int);
                lemma_chars_lt_skip(b@, a@, i as int);
                assert(a@.skip(i as int)[0] == a@[i as int]);
                assert(b@.skip(i as int)[0] == b@[i as int]);
                assert(a@[i as int] != b@[i as int]);
            }
            let ca: char = a[i];
            let cb: char = b[i];
            if ca < cb {
                return Order::Less;
            } else {
                return Order::Greater;
            }
        }
        assert(a@.take(i + 1) =~= a@.take(i as int).push(a@[i as int]));
        assert(b@.take(i + 1) =~= b@.take(i as int).push(b@[i as int]));
        i = i + 1;
    }
    proof {
        lemma_chars_lt_skip(a@, b@, i as int);
        lemma_chars_lt_skip(b@, a@, i as int);
        if i == a@.len() && i == b@.len() {
            assert(a@ =~= a@.take(i as int));
            assert(b@ =~= b@.take(i as int));
        }
        if i < b@.len() {
            assert(a@.len() != b@.len());
        }
        if i < a@.len() {
            assert(a@.len() != b@.len());
        }
    }
    if i == a.len() && i == b.len() {
        Order::Equal
    } else if i == a.len() {
        Order::Less
    } else {
        Order::Greater
    }
}

/// Compares two strings.
pub fn order_strs(a: &str, b: &str) -> (r: Order)
    ensures
        (r == Order::Less) == chars_lt(a@, b@),
        (r == Order::Equal) == (a@ == b@),
        (r == Order::Greater) == chars_lt(b@, a@),
{
    let av = chars_of(a);
    let bv = chars_of(b);
    order_chars(av.as_slice(), bv.as_slice())
}

/// Whether two strings are equal.
pub fn same_str(a: &str, b: &str) -> (r: bool)
    ensures
        r == (a@ == b@),
{
    match order_strs(a, b) {
        Order::Equal => true,
        _ => false,
    }
}

/// The rank of a component's kind: roots, then `.`, then `..`, then names.
pub open spec fn component_rank(c: Component) -> int {
    match c {
        Component::RootDir => 0,
        Component::CurDir => 1,
        Component::ParentDir => 2,
        Component::Normal(_) => 3,
    }
}

/// The order of components: by kind, names by their characters.
pub open spec fn component_lt(a: Component, b: Component) -> bool {
    match (a, b) {
        (Component::Normal(x), Component::Normal(y)) => chars_lt(x, y),
        _ => component_rank(a) < component_rank(b),
    }
}

proof fn lemma_component_lt_order(a: Component, b: Component, c: Component)
    ensures
        !component_lt(a, a),
        component_lt(a, b) && component_lt(b, c) ==> component_lt(a, c),
        a != b ==> component_lt(a, b) || component_lt(b, a),
{
    match a {
        Component::Normal(x) => {
            lemma_chars_lt_irreflexive(x);
            match b {
                Component::Normal(y) => {
                    if x != y {
                        lemma_chars_lt_total(x, y);
                    }
                    match c {
                        Component::Normal(z) => {
                            if chars_lt(x, y) && chars_lt(y, z) {
                                lemma_chars_lt_transitive(x, y, z);
                            }
                        },
                        _ => {},
                    }
                },
                _ => {},
            }
        },
        _ => {},
    }
}

/// Lexicographic order of component sequences.
pub open spec fn components_lt(a: Seq<Component>, b: Seq<Component>) -> bool
    decreases a.len(),
{
    if a.len() == 0 {
        b.len() > 0
    } else if b.len() == 0 {
        false
    } else if a[0] != b[0] {
        component_lt(a[0], b[0])
    } else {
        components_lt(a.drop_first(), b.drop_first())
    }
}

proof fn lemma_components_lt_irreflexive(a: Seq<Component>)
    ensures
        !components_lt(a, a),
    decreases a.len(),
{
    if a.len() > 0 {
        lemma_components_lt_irreflexive(a.drop_first());
    }
}

proof fn lemma_components_lt_transitive(a: Seq<Component>, b: Seq<Component>, c: Seq<Component>)
    requires
        components_lt(a, b),
        components_lt(b, c),
    ensures
        components_lt(a, c),
    decreases a.len(),
{
    if a.len() > 0 && b.len() > 0 && c.len() > 0 {
        lemma_component_lt_order(a[0], b[0], c[0]);
        lemma_component_lt_order(b[0], a[0], c[0]);
        lemma_component_lt_order(c[0], b[0], a[0]);
        if a[0] == b[0] && b[0] == c[0] {
            lemma_components_lt_transitive(a.drop_first(), b.drop_first(), c.drop_first());
        }
    }
}

proof fn lemma_components_lt_total(a: Seq<Component>, b: Seq<Component>)
    requires
        a != b,
    ensures
        components_lt(a, b) || components_lt(b, a),
    decreases a.len(),
{
    if a.len() > 0 && b.len() > 0 && a[0] == b[0] {
        if a.drop_first() == b.drop_first() {
            assert(a =~= seq![a[0]] + a.drop_first());
            assert(b =~= seq![b[0]] + b.drop_first());
        }
        lemma_components_lt_total(a.drop_first(), b.drop_first());
    } else if a.len() > 0 && b.len() > 0 {
        lemma_component_lt_order(a[0], b[0], a[0]);
    } else if a.len() == 0 && b.len() == 0 {
        assert(a =~= b);
    }
}

proof fn lemma_components_lt_skip(a: Seq<Component>, b: Seq<Component>, i: int)
    requires
        0 <= i <= a.len(),
        i <= b.len(),
        a.take(i) == b.take(i),
    ensures
        components_lt(a, b) == components_lt(a.skip(i), b.skip(i)),
    decreases i,
{
    if i > 0 {
        assert(a[0] == a.take(i)[0]);
        assert(b[0] == b.take(i)[0]);
        assert(a.drop_first().take(i - 1) =~= a.take(i).drop_first());
        assert(b.drop_first().take(i - 1) =~= b.take(i).drop_first());
        lemma_components_lt_skip(a.drop_first(), b.drop_first(), i - 1);
        assert(a.drop_first().skip(i - 1) =~= a.skip(i));
        assert(b.drop_first().skip(i - 1) =~= b.skip(i));
    } else {
        assert(a.skip(0) =~= a);
        assert(b.skip(0) =~= b);
    }
}

/// The order of paths: by their components, as `Path` orders them.
pub open spec fn path_lt(a: Seq<char>, b: Seq<char>) -> bool {
    components_lt(components(a), components(b))
}

/// Whether two paths name the same path: they have the same components, as
/// `Path` compares them (`a//b` and `a/b/` are `a/b`).
pub open spec fn path_eq(a: Seq<char>, b: Seq<char>) -> bool {
    components(a) == components(b)
}

/// The path order is a strict total order over paths taken by their components.
pub proof fn lemma_path_order(a: Seq<char>, b: Seq<char>, c: Seq<char>)
    ensures
        !path_lt(a, a),
        path_lt(a, b) && path_lt(b, c) ==> path_lt(a, c),
        path_lt(a, b) ==> !path_lt(b, a) && !path_eq(a, b),
        path_eq(a, b) || path_lt(a, b) || path_lt(b, a),
{
    lemma_components_lt_irreflexive(components(a));
    if path_lt(a, b) && path_lt(b, c) {
        lemma_components_lt_transitive(components(a), components(b), components(c));
    }
    if path_lt(a, b) && path_lt(b, a) {
        lemma_components_lt_transitive(components(a), components(b), components(a));
    }
    if !path_eq(a, b) {
        lemma_components_lt_total(components(a), components(b));
    }
}

/// The string order is a strict total order.
pub proof fn lemma_chars_order(a: Seq<char>, b: Seq<char>, c: Seq<char>)
    ensures
        !chars_lt(a, a),
        chars_lt(a, b) && chars_lt(b, c) ==> chars_lt(a, c),
        chars_lt(a, b) ==> !chars_lt(b, a) && a != b,
        a == b || chars_lt(a, b) || chars_lt(b, a),
{
    lemma_chars_lt_irreflexive(a);
    if chars_lt(a, b) && chars_lt(b, c) {
        lemma_chars_lt_transitive(a, b, c);
    }
    if chars_lt(a, b) {
        lemma_chars_lt_asymmetric(a, b);
    }
    if a != b {
        lemma_chars_lt_total(a, b);
    }
}

fn component_rank_exec(c: &PathComponent) -> (r: u8)
    ensures
        r as int == component_rank(c@),
{
    match c {
        PathComponent::RootDir => 0,
        PathComponent::CurDir => 1,
        PathComponent::ParentDir => 2,
        PathComponent::Normal(_) => 3,
    }
}

fn order_component(a: &PathComponent, b: &PathComponent) -> (r: Order)
    ensures
        (r == Order::Less) == component_lt(a@, b@),
        (r == Order::Equal) == (a@ == b@),
        (r == Order::Greater) == component_lt(b@, a@),
{
    proof {
        lemma_component_lt_order(a@, b@, a@);
        lemma_component_lt_order(b@, a@, b@);
    }
    match (a, b) {
        (PathComponent::Normal(x), PathComponent::Normal(y)) => order_chars(x.as_slice(), y.as_slice()),
        _ => {
            let ra = component_rank_exec(a);
            let rb = component_rank_exec(b);
            if ra < rb {
                Order::Less
            } else if rb < ra {
                Order::Greater
            } else {
                Order::Equal
            }
        },
    }
}

/// Compares two paths by their components.
pub fn order_paths(a: &str, b: &str) -> (r: Order)
    ensures
        (r == Order::Less) == path_lt(a@, b@),
        (r == Order::Equal) == path_eq(a@, b@),
        (r == Order::Greater) == path_lt(b@, a@),
{
    let ca = path_components(a);
    let cb = path_components(b);
    let ghost va = component_views(ca@);
    let ghost vb = component_views(cb@);
    let mut i: usize = 0;
    while i < ca.len() && i < cb.len()
        invariant
            va == component_views(ca@),
            vb == component_views(cb@),
            va == components(a@),
            vb == components(b@),
            va.len() == ca@.len(),
            vb.len() == cb@.len(),
            i <= ca@.len(),
            i <= cb@.len(),
            va.take(i as int) == vb.take(i as int),
        decreases ca@.len() - i,
    {
        let o = order_component(&ca[i], &cb[i]);
        assert(va[i as int] == ca@[i as int]@);
        assert(vb[i as int] == cb@[i as int]@);
        match o {
            Order::Equal => {},
            _ => {
                proof {
                    lemma_components_lt_skip(va, vb, i as int);
                    lemma_components_lt_skip(vb, va, i as int);
                    assert(va.skip(i as int)[0] == va[i as int]);
                    assert(vb.skip(i as int)[0] == vb[i as int]);
                    lemma_component_lt_order(va[i as int], vb[i as int], va[i as int]);
                    assert(va[i as int] != vb[i as int]);
                }
                return o;
            },
        }
        assert(va.take(i + 1) =~= va.take(i as int).push(va[i as int]));
        assert(vb.take(i + 1) =~= vb.take(i as int).push(vb[i as int]));
        i = i + 1;
    }
    proof {
        lemma_components_lt_skip(va, vb, i as int);
        lemma_components_lt_skip(vb, va, i as int);
        if i == va.len() && i == vb.len() {
            assert(va =~= va.take(i as int));
            assert(vb =~= vb.take(i as int));
        }
        if i < vb.len() || i < va.len() {
            assert(va.len() != vb.len());
        }
    }
    if i == ca.len() && i == cb.len() {
        Order::Equal
    } else if i == ca.len() {
        Order::Less
    } else {
        Order::Greater
    }
}

/// Whether two paths name the same path.
pub fn same_path(a: &str, b: &str) -> (r: bool)
    ensures
        r == path_eq(a@, b@),
{
    match order_paths(a, b) {
        Order::Equal => true,
        _ => false,
    }
}

} // verus!
