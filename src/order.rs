//! Byte-wise ascending order of tokens and a sort by it.
//!
//! UTF-8 keeps the order of code points, so comparing characters by their
//! scalar values orders tokens exactly as comparing their bytes does.

use vstd::prelude::*;
use vstd::multiset::Multiset;
use vstd::relations::{sorted_by, total_ordering};

verus! {

/// `a` comes no later than `b` in lexicographic order of code points.
pub open spec fn lex_le(a: Seq<char>, b: Seq<char>) -> bool
    decreases a.len(),
{
    if a.len() == 0 {
        true
    } else if b.len() == 0 {
        false
    } else if a[0] < b[0] {
        true
    } else if a[0] > b[0] {
        false
    } else {
        lex_le(a.drop_first(), b.drop_first())
    }
}

pub open spec fn token_le() -> spec_fn(Seq<char>, Seq<char>) -> bool {
    |a: Seq<char>, b: Seq<char>| lex_le(a, b)
}

pub proof fn lemma_lex_total(a: Seq<char>, b: Seq<char>)
    ensures
        lex_le(a, b) || lex_le(b, a),
    decreases a.len(),
{
    if a.len() > 0 && b.len() > 0 && a[0] == b[0] {
        lemma_lex_total(a.drop_first(), b.drop_first());
    }
}

pub proof fn lemma_lex_refl(a: Seq<char>)
    ensures
        lex_le(a, a),
    decreases a.len(),
{
    if a.len() > 0 {
        lemma_lex_refl(a.drop_first());
    }
}

pub proof fn lemma_lex_antisym(a: Seq<char>, b: Seq<char>)
    requires
        lex_le(a, b),
        lex_le(b, a),
    ensures
        a == b,
    decreases a.len(),
{
    if a.len() > 0 && b.len() > 0 {
        lemma_lex_antisym(a.drop_first(), b.drop_first());
        assert(a[0] == b[0]);
        assert(a =~= seq![a[0]] + a.drop_first());
        assert(b =~= seq![b[0]] + b.drop_first());
    } else {
        assert(a.len() == 0 && b.len() == 0);
        assert(a =~= b);
    }
}

pub proof fn lemma_lex_trans(a: Seq<char>, b: Seq<char>, c: Seq<char>)
    requires
        lex_le(a, b),
        lex_le(b, c),
    ensures
        lex_le(a, c),
    decreases a.len(),
{
    if a.len() > 0 && b.len() > 0 && c.len() > 0 {
        if a[0] == b[0] && b[0] == c[0] {
            lemma_lex_trans(a.drop_first(), b.drop_first(), c.drop_first());
        }
    }
}

pub proof fn lemma_token_le_total_ordering()
    ensures
        total_ordering(token_le()),
{
    assert forall|a: Seq<char>| #[trigger] token_le()(a, a) by {
        lemma_lex_refl(a);
    }
    assert forall|a: Seq<char>, b: Seq<char>|
        #[trigger] token_le()(a, b) && #[trigger] token_le()(b, a) implies a == b by {
        lemma_lex_antisym(a, b);
    }
    assert forall|a: Seq<char>, b: Seq<char>, c: Seq<char>|
        #[trigger] token_le()(a, b) && #[trigger] token_le()(b, c) implies token_le()(a, c) by {
        lemma_lex_trans(a, b, c);
    }
    assert forall|a: Seq<char>, b: Seq<char>|
        #[trigger] token_le()(a, b) || #[trigger] token_le()(b, a) by {
        lemma_lex_total(a, b);
    }
}

/// Compares two tokens.
pub fn token_le_exec(a: &Vec<char>, b: &Vec<char>) -> (r: bool)
    ensures
        r == lex_le(a@, b@),
{
    let mut i: usize = 0;
    assert(a@.subrange(0, a.len() as int) =~= a@);
    assert(b@.subrange(0, b.len() as int) =~= b@);
    while i < a.len() && i < b.len() && a[i] == b[i]
        invariant
            i <= a.len(),
            i <= b.len(),
            lex_le(a@, b@) == lex_le(a@.subrange(i as int, a.len() as int), b@.subrange(i as int, b.len() as int)),
        decreases a.len() - i,
    {
        let ghost sa = a@.subrange(i as int, a.len() as int);
        let ghost sb = b@.subrange(i as int, b.len() as int);
        assert(sa.drop_first() =~= a@.subrange(i + 1, a.len() as int));
        assert(sb.drop_first() =~= b@.subrange(i + 1, b.len() as int));
        i += 1;
    }
    let ghost sa = a@.subrange(i as int, a.len() as int);
    let ghost sb = b@.subrange(i as int, b.len() as int);
    if i < a.len() && i < b.len() {
        assert(sa[0] == a@[i as int] && sb[0] == b@[i as int]);
    }
    if i == a.len() {
        assert(sa.len() == 0);
        true
    } else if i == b.len() {
        false
    } else {
        a[i] < b[i]
    }
}

/// Sorts tokens in ascending order; the result is the one sorted arrangement
/// of the input.
pub fn sort_tokens(v: Vec<Vec<char>>) -> (r: Vec<Vec<char>>)
    ensures
        r.deep_view() == v.deep_view().sort_by(token_le()),
{
    broadcast use vstd::seq_lib::group_to_multiset_ensures;
    broadcast use vstd::multiset::group_multiset_axioms;

    let mut out: Vec<Vec<char>> = Vec::new();
    let mut i: usize = 0;
    proof {
        lemma_token_le_total_ordering();
    }
    while i < v.len()
        invariant
            i <= v.len(),
            total_ordering(token_le()),
            sorted_by(out.deep_view(), token_le()),
            out.deep_view().to_multiset() == v.deep_view().subrange(0, i as int).to_multiset(),
        decreases v.len() - i,
    {
        let x = v[i].clone();
        let mut j: usize = 0;
        while j < out.len() && token_le_exec(&out[j], &x)
            invariant
                i < v.len(),
                j <= out.len(),
                x@ == v.deep_view()[i as int],
                forall|k: int| 0 <= k < j ==> lex_le(#[trigger] out.deep_view()[k], x@),
            decreases out.len() - j,
        {
            assert(out.deep_view()[j as int] == out@[j as int]@);
            j += 1;
        }
        let ghost before = out.deep_view();
        proof {
            if j < out.len() {
                assert(before[j as int] == out@[j as int]@);
                lemma_lex_total(before[j as int], x@);
                assert forall|k: int| j <= k < before.len() implies lex_le(x@, #[trigger] before[k]) by {
                    if k > j {
                        assert(token_le()(before[j as int], before[k]));
                        lemma_lex_trans(x@, before[j as int], before[k]);
                    }
                }
            }
        }
        out.insert(j, x);
        proof {
            let after = out.deep_view();
            assert(after =~= before.insert(j as int, x@));
            assert(before =~= before.subrange(0, j as int) + before.subrange(j as int, before.len() as int));
            assert(after =~= before.subrange(0, j as int) + (seq![x@] + before.subrange(j as int, before.len() as int)));
            vstd::seq_lib::lemma_multiset_commutative(before.subrange(0, j as int), before.subrange(j as int, before.len() as int));
            vstd::seq_lib::lemma_multiset_commutative(before.subrange(0, j as int), seq![x@] + before.subrange(j as int, before.len() as int));
            vstd::seq_lib::lemma_multiset_commutative(seq![x@], before.subrange(j as int, before.len() as int));
            let vs = v.deep_view();
            assert(vs.subrange(0, i + 1) =~= vs.subrange(0, i as int).push(x@));
            assert(seq![x@] =~= Seq::<Seq<char>>::empty().push(x@));
            let pre = before.subrange(0, j as int);
            let rest = before.subrange(j as int, before.len() as int);
            Seq::<Seq<char>>::empty().to_multiset_ensures();
            vs.subrange(0, i as int).to_multiset_ensures();
            assert(Seq::<Seq<char>>::empty().to_multiset() =~= Multiset::<Seq<char>>::empty());
            assert(seq![x@].to_multiset() =~= Multiset::<Seq<char>>::empty().insert(x@));
            assert(after.to_multiset() =~= pre.to_multiset().add(rest.to_multiset()).insert(x@));
            assert(vs.subrange(0, i as int).push(x@).to_multiset() =~= vs.subrange(0, i as int).to_multiset().insert(x@));
            assert(vs.subrange(0, i + 1).to_multiset() =~= vs.subrange(0, i as int).to_multiset().insert(x@));
            assert(after.to_multiset() =~= vs.subrange(0, i + 1).to_multiset());
            assert forall|a: int, b: int| 0 <= a < b < after.len() implies #[trigger] token_le()(after[a], after[b]) by {
                if a < j && b == j {
                } else if a < j && b > j {
                    lemma_lex_trans(after[a], x@, after[b]);
                } else {
                }
            }
        }
        i += 1;
    }
    proof {
        let vs = v.deep_view();
        assert(vs.subrange(0, vs.len() as int) =~= vs);
        vs.lemma_sort_by_ensures(token_le());
        vstd::seq_lib::lemma_sorted_unique(out.deep_view(), vs.sort_by(token_le()), token_le());
    }
    out
}

} // verus!
