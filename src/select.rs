//! Splitting a sequence by a predicate, in order.
use vstd::prelude::*;

verus! {

/// The items of `s` whose mark in `sel` is `b`, in order.
pub open spec fn select<T>(s: Seq<T>, sel: Seq<bool>, b: bool) -> Seq<T>
    decreases s.len(),
{
    if s.len() == 0 || sel.len() != s.len() {
        seq![]
    } else {
        let rest = select(s.drop_last(), sel.drop_last(), b);
        if sel.last() == b {
            rest.push(s.last())
        } else {
            rest
        }
    }
}

/// Extending a sequence and its marks by one item.
pub proof fn lemma_select_push<T>(s: Seq<T>, sel: Seq<bool>, x: T, m: bool, b: bool)
    requires
        sel.len() == s.len(),
    ensures
        select(s.push(x), sel.push(m), b) == (if m == b {
            select(s, sel, b).push(x)
        } else {
            select(s, sel, b)
        }),
{
    assert(s.push(x).drop_last() =~= s);
    assert(sel.push(m).drop_last() =~= sel);
}

/// Where nothing is marked `true`, the items marked `false` are all of them.
pub proof fn lemma_select_none<T>(s: Seq<T>, sel: Seq<bool>)
    requires
        sel.len() == s.len(),
        select(s, sel, true).len() == 0,
    ensures
        select(s, sel, false) == s,
    decreases s.len(),
{
    if s.len() > 0 {
        lemma_select_none(s.drop_last(), sel.drop_last());
        assert(s.drop_last().push(s.last()) =~= s);
    }
}

/// Moves the items that satisfy `predicate` out of `vector`, in order; the
/// others stay, in order.
pub fn extract_if<T, F: Fn(&T) -> bool>(vector: &mut Vec<T>, predicate: F) -> (r: Vec<T>)
    requires
        forall|x: &T| #[trigger] predicate.requires((x,)),
    ensures
        exists|sel: Seq<bool>|
            sel.len() == old(vector)@.len()
            && (forall|i: int| 0 <= i < sel.len() ==> predicate.ensures((&old(vector)@[i],), #[trigger] sel[i]))
            && r@ == select(old(vector)@, sel, true)
            && final(vector)@ == select(old(vector)@, sel, false),
{
    let ghost initial = vector@;
    let ghost mut sel: Seq<bool> = seq![];
    let mut taken: Vec<T> = Vec::new();
    let mut kept: Vec<T> = Vec::new();
    while vector.len() > 0
        invariant
            forall|x: &T| #[trigger] predicate.requires((x,)),
            sel.len() + vector@.len() == initial.len(),
            vector@ == initial.subrange(sel.len() as int, initial.len() as int),
            forall|i: int| 0 <= i < sel.len() ==> predicate.ensures((&initial[i],), #[trigger] sel[i]),
            taken@ == select(initial.subrange(0, sel.len() as int), sel, true),
            kept@ == select(initial.subrange(0, sel.len() as int), sel, false),
        decreases vector@.len(),
    {
        let x = vector.remove(0);
        let b = predicate(&x);
        proof {
            let n = sel.len() as int;
            assert(x == initial[n]);
            assert(initial.subrange(0, n + 1) =~= initial.subrange(0, n).push(x));
            lemma_select_push(initial.subrange(0, n), sel, x, b, true);
            lemma_select_push(initial.subrange(0, n), sel, x, b, false);
            sel = sel.push(b);
            assert(vector@ =~= initial.subrange(sel.len() as int, initial.len() as int));
        }
        if b {
            taken.push(x);
        } else {
            kept.push(x);
        }
    }
    assert(initial.subrange(0, sel.len() as int) =~= initial);
    *vector = kept;
    taken
}

} // verus!
