//! Lexicographic order on names, by character code, with its laws.

use vstd::prelude::*;
use vstd::relations::{total_ordering, sorted_by};
use crate::text::chars_of;

verus! {

/// `a` sorts at or before `b`: compared character by character, a proper
/// prefix first.
pub open spec fn name_le(a: Seq<char>, b: Seq<char>) -> bool
    decreases a.len(),
{
    if a.len() == 0 {
        true
    } else if b.len() == 0 {
        false
    } else if a[0] != b[0] {
        a[0] < b[0]
    } else {
        name_le(a.drop_first(), b.drop_first())
    }
}

/// The order as a relation value.
pub open spec fn name_order() -> spec_fn(Seq<char>, Seq<char>) -> bool {
    |a: Seq<char>, b: Seq<char>| name_le(a, b)
}

proof fn lemma_le_reflexive(a: Seq<char>)
    ensures
        name_le(a, a),
    decreases a.len(),
{
    if a.len() > 0 {
        lemma_le_reflexive(a.drop_first());
    }
}

proof fn lemma_le_antisymmetric(a: Seq<char>, b: Seq<char>)
    requires
        name_le(a, b),
        name_le(b, a),
    ensures
        a == b,
    decreases a.len(),
{
    if a.len() > 0 && b.len() > 0 {
        if a[0] == b[0] {
            lemma_le_antisymmetric(a.drop_first(), b.drop_first());
            assert(a == seq![a[0]] + a.drop_first());
            assert(b == seq![b[0]] + b.drop_first());
        }
    }
}

pub proof fn lemma_le_transitive(a: Seq<char>, b: Seq<char>, c: Seq<char>)
    requires
        name_le(a, b),
        name_le(b, c),
    ensures
        name_le(a, c),
    decreases a.len(),
{
    if a.len() > 0 && b.len() > 0 && c.len() > 0 {
        if a[0] == b[0] && b[0] == c[0] {
            lemma_le_transitive(a.drop_first(), b.drop_first(), c.drop_first());
        }
    }
}

pub proof fn lemma_le_connected(a: Seq<char>, b: Seq<char>)
    ensures
        name_le(a, b) || name_le(b, a),
    decreases a.len(),
{
    if a.len() > 0 && b.len() > 0 {
        if a[0] == b[0] {
            lemma_le_connected(a.drop_first(), b.drop_first());
        }
    }
}

/// The order on names is a total order.
pub proof fn lemma_name_order_total()
    ensures
        total_ordering(name_order()),
{
    assert forall|a: Seq<char>| #[trigger] name_order()(a, a) by {
        lemma_le_reflexive(a);
    }
    assert forall|a: Seq<char>, b: Seq<char>|
        #[trigger] name_order()(a, b) && #[trigger] name_order()(b, a) implies a == b by {
        lemma_le_antisymmetric(a, b);
    }
    assert forall|a: Seq<char>, b: Seq<char>, c: Seq<char>|
        #[trigger] name_order()(a, b) && #[trigger] name_order()(b, c) implies name_order()(a, c) by {
        lemma_le_transitive(a, b, c);
    }
    assert forall|a: Seq<char>, b: Seq<char>|
        #[trigger] name_order()(a, b) || #[trigger] name_order()(b, a) by {
        lemma_le_connected(a, b);
    }
}

proof fn lemma_le_skip_common(a: Seq<char>, b: Seq<char>, i: int)
    requires
        0 <= i <= a.len(),
        i <= b.len(),
        a.subrange(0, i) == b.subrange(0, i),
    ensures
        name_le(a, b) == name_le(a.subrange(i, a.len() as int), b.subrange(i, b.len() as int)),
    decreases i,
{
    if i > 0 {
        assert(a[0] == a.subrange(0, i)[0]);
        assert(b[0] == b.subrange(0, i)[0]);
        assert(a.drop_first().subrange(0, i - 1) == a.subrange(0, i).drop_first());
        assert(b.drop_first().subrange(0, i - 1) == b.subrange(0, i).drop_first());
        lemma_le_skip_common(a.drop_first(), b.drop_first(), i - 1);
        assert(a.drop_first().subrange(i - 1, a.len() - 1) == a.subrange(i, a.len() as int));
        assert(b.drop_first().subrange(i - 1, b.len() - 1) == b.subrange(i, b.len() as int));
    } else {
        assert(a.subrange(0, a.len() as int) == a);
        assert(b.subrange(0, b.len() as int) == b);
    }
}

/// Compares two names in the order `name_le`.
pub fn name_leq(a: &str, b: &str) -> (r: bool)
    ensures
        r == name_le(a@, b@),
{
    let x = chars_of(a);
    let y = chars_of(b);
    let mut i: usize = 0;
    while i < x.len() && i < y.len() && x[i] == y[i]
        invariant
            x@ == a@,
            y@ == b@,
            i <= x.len(),
            i <= y.len(),
            x@.subrange(0, i as int) == y@.subrange(0, i as int),
        decreases x.len() - i,
    {
        assert(x@.subrange(0, i as int + 1) == x@.subrange(0, i as int).push(x@[i as int]));
        assert(y@.subrange(0, i as int + 1) == y@.subrange(0, i as int).push(y@[i as int]));
        i = i + 1;
    }
    proof {
        lemma_le_skip_common(x@, y@, i as int);
    }
    if i == x.len() {
        true
    } else if i == y.len() {
        false
    } else {
        x[i] < y[i]
    }
}

/// Sorts names in place by `name_le`, keeping the same elements.
pub fn sort_names(v: &mut Vec<String>)
    ensures
        final(v)@.map_values(|s: String| s@).to_multiset()
            == old(v)@.map_values(|s: String| s@).to_multiset(),
        sorted_by(final(v)@.map_values(|s: String| s@), name_order()),
{
    proof {
        lemma_name_order_total();
    }
    let mut out: Vec<String> = Vec::new();
    let ghost src = v@.map_values(|s: String| s@);
    let mut rest: Vec<String> = Vec::new();
    std::mem::swap(v, &mut rest);
    // `rest` now holds the input; move its items one by one into `out`.
    let n = rest.len();
    let mut i: usize = 0;
    proof {
        assert(src.subrange(0, 0) =~= Seq::<Seq<char>>::empty());
        assert(out@.map_values(|s: String| s@) =~= Seq::<Seq<char>>::empty());
    }
    while i < n
        invariant
            n == rest.len(),
            i <= n,
            src == rest@.map_values(|s: String| s@),
            out@.map_values(|s: String| s@).to_multiset() == src.subrange(0, i as int).to_multiset(),
            sorted_by(out@.map_values(|s: String| s@), name_order()),
            total_ordering(name_order()),
        decreases n - i,
    {
        let item = rest[i].clone();
        let ghost outs = out@.map_values(|s: String| s@);
        let mut p: usize = 0;
        while p < out.len() && name_leq(out[p].as_str(), item.as_str())
            invariant
                p <= out.len(),
                outs == out@.map_values(|s: String| s@),
                forall|j: int| 0 <= j < p ==> name_le(#[trigger] outs[j], item@),
            decreases out.len() - p,
        {
            p = p + 1;
        }
        proof {
            if p < out.len() {
                lemma_le_connected(outs[p as int], item@);
            }
            assert forall|j: int| p <= j < outs.len() implies name_le(item@, #[trigger] outs[j]) by {
                if p < j {
                    assert(name_order()(outs[p as int], outs[j]));
                    lemma_le_transitive(item@, outs[p as int], outs[j]);
                }
            }
        }
        out.insert(p, item);
        proof {
            let outs2 = out@.map_values(|s: String| s@);
            assert(outs2 == outs.insert(p as int, item@));
            vstd::seq_lib::to_multiset_insert(outs, p as int, item@);
            assert(src.subrange(0, i as int + 1) == src.subrange(0, i as int).push(src[i as int]));
            vstd::seq_lib::to_multiset_build(src.subrange(0, i as int), src[i as int]);
            assert forall|a: int, b: int| 0 <= a < b < outs2.len() implies #[trigger] name_order()(outs2[a], outs2[b]) by {
                if b < p {
                } else if a < p && b == p {
                } else if a < p {
                    assert(outs2[b] == outs[b - 1]);
                } else if a == p {
                    assert(outs2[b] == outs[b - 1]);
                } else {
                    assert(outs2[a] == outs[a - 1] && outs2[b] == outs[b - 1]);
                }
            }
        }
        i = i + 1;
    }
    proof {
        assert(src.subrange(0, n as int) == src);
    }
    *v = out;
}

} // verus!
