//! Laws of the canonical form of answer lines.

use vstd::prelude::*;
use crate::normalize::{
    answer_tokens, collapse_eq, collapse_from, join_spaces, lower, lower_char, normalize, trim,
    trim_end, trim_start, ws_then_eq, ws_tokens,
};
use crate::order::{lemma_token_le_total_ordering, token_le};
use crate::text::is_ws;

verus! {

/// Some whitespace character of `s` stands right before or right after an `=`.
pub open spec fn spaced_eq(s: Seq<char>) -> bool {
    exists|i: int|
        0 <= i < s.len() && is_ws(#[trigger] s[i]) && ((i > 0 && s[i - 1] == '=') || (i + 1 < s.len()
            && s[i + 1] == '='))
}

/// A token: at least one character, none of them whitespace.
pub open spec fn plain_token(t: Seq<char>) -> bool {
    t.len() > 0 && forall|j: int| 0 <= j < t.len() ==> !is_ws(#[trigger] t[j])
}

pub open spec fn plain_tokens(ts: Seq<Seq<char>>) -> bool {
    forall|i: int| 0 <= i < ts.len() ==> plain_token(#[trigger] ts[i])
}

/// No character of `s` changes when ASCII letters are lowered.
pub open spec fn all_lower(s: Seq<char>) -> bool {
    forall|j: int| 0 <= j < s.len() ==> lower_char(#[trigger] s[j]) == s[j]
}

proof fn lemma_spaced_shift(s: Seq<char>)
    requires
        s.len() > 0,
        !spaced_eq(s),
    ensures
        !spaced_eq(s.drop_first()),
{
    let t = s.drop_first();
    if spaced_eq(t) {
        let i = choose|i: int|
            0 <= i < t.len() && is_ws(#[trigger] t[i]) && ((i > 0 && t[i - 1] == '=') || (i + 1
                < t.len() && t[i + 1] == '='));
        assert(s[i + 1] == t[i]);
        assert(spaced_eq(s));
    }
}

proof fn lemma_ws_run_spaced(s: Seq<char>)
    requires
        s.len() > 0,
        is_ws(s[0]),
        ws_then_eq(s),
    ensures
        spaced_eq(s),
    decreases s.len(),
{
    let t = s.drop_first();
    assert(s[0] != '=');
    assert(ws_then_eq(t));
    assert(t.len() > 0);
    if t[0] == '=' {
        assert(s[1] == t[0]);
        assert(is_ws(s[0]) && 1 < s.len() && s[1] == '=');
    } else {
        lemma_ws_run_spaced(t);
        let i = choose|i: int|
            0 <= i < t.len() && is_ws(#[trigger] t[i]) && ((i > 0 && t[i - 1] == '=') || (i + 1
                < t.len() && t[i + 1] == '='));
        assert(s[i + 1] == t[i]);
    }
}

proof fn lemma_collapse_plain(s: Seq<char>, after_eq: bool)
    requires
        !spaced_eq(s),
        after_eq ==> (s.len() == 0 || !is_ws(s[0])),
    ensures
        collapse_from(s, after_eq) == s,
    decreases s.len(),
{
    if s.len() > 0 {
        let t = s.drop_first();
        lemma_spaced_shift(s);
        assert(s =~= seq![s[0]] + t);
        if is_ws(s[0]) {
            if ws_then_eq(s) {
                lemma_ws_run_spaced(s);
            }
            assert(s[0] != '=');
            lemma_collapse_plain(t, false);
        } else if s[0] == '=' {
            if t.len() > 0 && is_ws(t[0]) {
                assert(is_ws(s[1]) && s[0] == '=');
                assert(spaced_eq(s));
            }
            lemma_collapse_plain(t, true);
        } else {
            lemma_collapse_plain(t, false);
        }
    }
}

/// Lines without whitespace next to `=` pass the `=` rule unchanged.
pub proof fn lemma_collapse_identity(s: Seq<char>)
    requires
        !spaced_eq(s),
    ensures
        collapse_eq(s) == s,
{
    lemma_collapse_plain(s, false);
}

proof fn lemma_tokens_append_token(b: Seq<char>, t: Seq<char>)
    requires
        plain_token(t),
        b.len() == 0 || is_ws(b.last()),
    ensures
        ws_tokens(b + t) == ws_tokens(b).push(t),
    decreases t.len(),
{
    let s = b + t;
    if t.len() == 1 {
        assert(s.drop_last() =~= b);
        assert(t =~= seq![t[0]]);
        if s.len() >= 2 {
            assert(s[s.len() - 2] == b.last());
        }
    } else {
        let t2 = t.drop_last();
        assert(plain_token(t2)) by {
            assert forall|j: int| 0 <= j < t2.len() implies !is_ws(#[trigger] t2[j]) by {
                assert(t2[j] == t[j]);
            }
        }
        lemma_tokens_append_token(b, t2);
        assert(s.drop_last() =~= b + t2);
        assert(s[s.len() - 2] == t[t.len() - 2]);
        assert(!is_ws(t[t.len() - 1]));
        let p = ws_tokens(b + t2);
        assert(s.last() == t.last());
        assert(t2.push(t.last()) =~= t);
        assert(p.last() == t2);
        assert(p.update(p.len() - 1, p.last().push(s.last())) =~= ws_tokens(b).push(t));
    }
}

proof fn lemma_tokens_append_space(b: Seq<char>)
    ensures
        ws_tokens(b + seq![' ']) == ws_tokens(b),
{
    assert((b + seq![' ']).drop_last() =~= b);
    assert(is_ws(' '));
}

/// Splitting tokens joined by single spaces gives the tokens back.
pub proof fn lemma_tokens_of_join(ts: Seq<Seq<char>>)
    requires
        plain_tokens(ts),
    ensures
        ws_tokens(join_spaces(ts)) == ts,
    decreases ts.len(),
{
    if ts.len() == 1 {
        assert(plain_token(ts[0]));
        lemma_tokens_append_token(Seq::empty(), ts[0]);
        assert(Seq::<char>::empty() + ts[0] =~= ts[0]);
        assert(Seq::<Seq<char>>::empty().push(ts[0]) =~= ts);
    } else if ts.len() > 1 {
        let init = ts.drop_last();
        assert(plain_tokens(init)) by {
            assert forall|i: int| 0 <= i < init.len() implies plain_token(#[trigger] init[i]) by {
                assert(init[i] == ts[i]);
            }
        }
        lemma_tokens_of_join(init);
        let b = join_spaces(init) + seq![' '];
        assert(plain_token(ts[ts.len() - 1]));
        lemma_tokens_append_token(b, ts.last());
        lemma_tokens_append_space(join_spaces(init));
        assert(init.push(ts.last()) =~= ts);
    } else {
        assert(ws_tokens(join_spaces(ts)) =~= ts);
    }
}

/// The tokens of any text are plain, and lowered where the text is.
pub proof fn lemma_tokens_shape(x: Seq<char>)
    ensures
        plain_tokens(ws_tokens(x)),
        all_lower(x) ==> forall|i: int| 0 <= i < ws_tokens(x).len() ==> all_lower(#[trigger] ws_tokens(x)[i]),
    decreases x.len(),
{
    if x.len() > 0 {
        let y = x.drop_last();
        lemma_tokens_shape(y);
        let p = ws_tokens(y);
        let c = x.last();
        if all_lower(x) {
            assert(all_lower(y)) by {
                assert forall|j: int| 0 <= j < y.len() implies lower_char(#[trigger] y[j]) == y[j] by {
                    assert(y[j] == x[j]);
                }
            }
            assert(lower_char(x[x.len() - 1]) == x[x.len() - 1]);
        }
        if is_ws(c) {
        } else if x.len() >= 2 && !is_ws(x[x.len() - 2]) && p.len() > 0 {
            let q = p.update(p.len() - 1, p.last().push(c));
            assert forall|i: int| 0 <= i < q.len() implies plain_token(#[trigger] q[i]) by {
                if i == q.len() - 1 {
                    assert(plain_token(p[p.len() - 1]));
                    assert forall|j: int| 0 <= j < q[i].len() implies !is_ws(#[trigger] q[i][j]) by {
                        if j < p.last().len() {
                            assert(q[i][j] == p.last()[j]);
                        }
                    }
                } else {
                    assert(q[i] == p[i]);
                }
            }
            if all_lower(x) {
                assert forall|i: int| 0 <= i < q.len() implies all_lower(#[trigger] q[i]) by {
                    if i == q.len() - 1 {
                        assert(all_lower(p[p.len() - 1]));
                        assert forall|j: int| 0 <= j < q[i].len() implies lower_char(#[trigger] q[i][j]) == q[i][j] by {
                            if j < p.last().len() {
                                assert(q[i][j] == p.last()[j]);
                            }
                        }
                    } else {
                        assert(q[i] == p[i]);
                    }
                }
            }
        } else {
            let q = p.push(seq![c]);
            assert forall|i: int| 0 <= i < q.len() implies plain_token(#[trigger] q[i]) by {
                if i < p.len() {
                    assert(q[i] == p[i]);
                }
            }
            if all_lower(x) {
                assert forall|i: int| 0 <= i < q.len() implies all_lower(#[trigger] q[i]) by {
                    if i < p.len() {
                        assert(q[i] == p[i]);
                    }
                }
            }
        }
    }
}

/// Facts about tokens joined by single spaces: empty only without tokens,
/// no whitespace at either end, and lowered where every token is.
pub proof fn lemma_join_shape(ts: Seq<Seq<char>>)
    requires
        plain_tokens(ts),
    ensures
        (join_spaces(ts).len() == 0) == (ts.len() == 0),
        join_spaces(ts).len() > 0 ==> !is_ws(join_spaces(ts)[0]) && !is_ws(join_spaces(ts).last()),
        (forall|i: int| 0 <= i < ts.len() ==> all_lower(#[trigger] ts[i])) ==> all_lower(join_spaces(ts)),
    decreases ts.len(),
{
    if ts.len() == 1 {
        assert(plain_token(ts[0]));
        assert(!is_ws(ts[0][ts[0].len() - 1]));
    } else if ts.len() > 1 {
        let init = ts.drop_last();
        assert(plain_tokens(init)) by {
            assert forall|i: int| 0 <= i < init.len() implies plain_token(#[trigger] init[i]) by {
                assert(init[i] == ts[i]);
            }
        }
        lemma_join_shape(init);
        let a = join_spaces(init);
        let t = ts.last();
        assert(plain_token(ts[ts.len() - 1]));
        let j = a + seq![' '] + t;
        assert(j[0] == a[0]);
        assert(j.last() == t[t.len() - 1]);
        if forall|i: int| 0 <= i < ts.len() ==> all_lower(#[trigger] ts[i]) {
            assert forall|i: int| 0 <= i < init.len() implies all_lower(#[trigger] init[i]) by {
                assert(init[i] == ts[i]);
            }
            assert(all_lower(ts[ts.len() - 1]));
            assert forall|k: int| 0 <= k < j.len() implies lower_char(#[trigger] j[k]) == j[k] by {
                if k < a.len() {
                    assert(j[k] == a[k]);
                } else if k == a.len() {
                    assert(j[k] == ' ');
                } else {
                    assert(j[k] == t[k - a.len() - 1]);
                }
            }
        }
    }
}

proof fn lemma_lower_identity(s: Seq<char>)
    requires
        all_lower(s),
    ensures
        lower(s) == s,
{
    assert(lower(s) =~= s);
}

proof fn lemma_trim_identity(s: Seq<char>)
    requires
        s.len() > 0 ==> !is_ws(s[0]) && !is_ws(s.last()),
    ensures
        trim(s) == s,
{
    assert(trim_start(s) == s);
    assert(trim_end(s) == s);
}

/// Sorting a sequence that is already the sorted form of another leaves it.
proof fn lemma_sorted_fixed(x: Seq<Seq<char>>)
    ensures
        x.sort_by(token_le()).sort_by(token_le()) == x.sort_by(token_le()),
{
    lemma_token_le_total_ordering();
    let t = x.sort_by(token_le());
    x.lemma_sort_by_ensures(token_le());
    t.lemma_sort_by_ensures(token_le());
    vstd::seq_lib::lemma_sorted_unique(t.sort_by(token_le()), t, token_le());
}

/// The tokens of a canonical form are plain and lowered.
proof fn lemma_answer_tokens_shape(s: Seq<char>)
    ensures
        plain_tokens(answer_tokens(s)),
        forall|i: int| 0 <= i < answer_tokens(s).len() ==> all_lower(#[trigger] answer_tokens(s)[i]),
{
    let l = lower(collapse_eq(trim(s)));
    assert(all_lower(l)) by {
        assert forall|j: int| 0 <= j < l.len() implies lower_char(#[trigger] l[j]) == l[j] by {
        }
    }
    lemma_tokens_shape(l);
    let w = ws_tokens(l);
    lemma_token_le_total_ordering();
    w.lemma_sort_by_ensures(token_le());
    let t = answer_tokens(s);
    assert forall|i: int| 0 <= i < t.len() implies plain_token(#[trigger] t[i]) && all_lower(t[i]) by {
        assert(t.contains(t[i]));
        assert(w.contains(t[i]));
        let k = choose|k: int| 0 <= k < w.len() && w[k] == t[i];
        assert(plain_token(w[k]));
        assert(all_lower(w[k]));
    }
}

/// Normalizing a canonical form again changes nothing, unless whitespace
/// in it stands next to an `=` (as in `a= b`, the form of `b a=`): the rule
/// for `=` then removes it.
pub proof fn lemma_normalize_idempotent(s: Seq<char>)
    requires
        !spaced_eq(normalize(s)),
    ensures
        normalize(normalize(s)) == normalize(s),
{
    let t = answer_tokens(s);
    let n = join_spaces(t);
    lemma_answer_tokens_shape(s);
    lemma_join_shape(t);
    lemma_trim_identity(n);
    lemma_collapse_identity(n);
    lemma_lower_identity(n);
    lemma_tokens_of_join(t);
    lemma_sorted_fixed(ws_tokens(lower(collapse_eq(trim(s)))));
    assert(answer_tokens(n) == t.sort_by(token_le()));
}

pub open spec fn lower_all(ts: Seq<Seq<char>>) -> Seq<Seq<char>> {
    ts.map_values(|t: Seq<char>| lower(t))
}

proof fn lemma_lower_join(ts: Seq<Seq<char>>)
    ensures
        lower(join_spaces(ts)) == join_spaces(lower_all(ts)),
    decreases ts.len(),
{
    if ts.len() == 1 {
        assert(lower_all(ts)[0] == lower(ts[0]));
    } else if ts.len() > 1 {
        let init = ts.drop_last();
        lemma_lower_join(init);
        assert(lower_all(ts).drop_last() =~= lower_all(init));
        assert(lower_all(ts).last() == lower(ts.last()));
        let a = join_spaces(init);
        assert(lower(a + seq![' '] + ts.last()) =~= lower(a) + seq![' '] + lower(ts.last()));
    } else {
        assert(lower(join_spaces(ts)) =~= join_spaces(lower_all(ts)));
    }
}

proof fn lemma_lower_all_plain(ts: Seq<Seq<char>>)
    requires
        plain_tokens(ts),
    ensures
        plain_tokens(lower_all(ts)),
{
    assert forall|i: int| 0 <= i < lower_all(ts).len() implies plain_token(#[trigger] lower_all(ts)[i]) by {
        assert(plain_token(ts[i]));
        let l = lower_all(ts)[i];
        assert(l == lower(ts[i]));
        assert forall|j: int| 0 <= j < l.len() implies !is_ws(#[trigger] l[j]) by {
            assert(l[j] == lower_char(ts[i][j]));
            assert(!is_ws(ts[i][j]));
        }
    }
}

proof fn lemma_lower_all_multiset(a: Seq<Seq<char>>, b: Seq<Seq<char>>)
    requires
        a.to_multiset() == b.to_multiset(),
    ensures
        lower_all(a).to_multiset() == lower_all(b).to_multiset(),
    decreases a.len(),
{
    broadcast use vstd::seq_lib::group_to_multiset_ensures;
    broadcast use vstd::multiset::group_multiset_axioms;

    a.to_multiset_ensures();
    b.to_multiset_ensures();
    if a.len() == 0 {
        assert(b.len() == 0);
        assert(lower_all(a) =~= lower_all(b));
    } else {
        let x = a.last();
        let a2 = a.drop_last();
        a2.to_multiset_ensures();
        assert(a2.push(x) =~= a);
        assert(a.to_multiset().count(x) > 0);
        assert(b.contains(x));
        let k = choose|k: int| 0 <= k < b.len() && b[k] == x;
        let b2 = b.remove(k);
        assert(b2.to_multiset() =~= a2.to_multiset());
        lemma_lower_all_multiset(a2, b2);
        let la = lower_all(a);
        let lb = lower_all(b);
        la.to_multiset_ensures();
        lb.to_multiset_ensures();
        lower_all(a2).to_multiset_ensures();
        assert(lower_all(a2).push(lower(x)) =~= la);
        assert(lb.remove(k) =~= lower_all(b2));
        assert(lb[k] == lower(x));
        assert(lb.to_multiset().count(lower(x)) > 0);
        assert(lb.to_multiset() =~= lb.remove(k).to_multiset().insert(lower(x)));
        assert(la.to_multiset() =~= lb.to_multiset());
    }
}

proof fn lemma_sort_by_multiset(a: Seq<Seq<char>>, b: Seq<Seq<char>>)
    requires
        a.to_multiset() == b.to_multiset(),
    ensures
        a.sort_by(token_le()) == b.sort_by(token_le()),
{
    lemma_token_le_total_ordering();
    a.lemma_sort_by_ensures(token_le());
    b.lemma_sort_by_ensures(token_le());
    vstd::seq_lib::lemma_sorted_unique(a.sort_by(token_le()), b.sort_by(token_le()), token_le());
}

/// The tokens of a line made of plain tokens, where no whitespace touches
/// an `=`: its tokens, lowered, in ascending order.
proof fn lemma_answer_tokens_of_join(ts: Seq<Seq<char>>)
    requires
        plain_tokens(ts),
        !spaced_eq(join_spaces(ts)),
    ensures
        answer_tokens(join_spaces(ts)) == lower_all(ts).sort_by(token_le()),
{
    let j = join_spaces(ts);
    lemma_join_shape(ts);
    lemma_trim_identity(j);
    lemma_collapse_identity(j);
    lemma_lower_join(ts);
    lemma_lower_all_plain(ts);
    lemma_tokens_of_join(lower_all(ts));
}

/// Reordering the tokens of a line does not change its canonical form, for
/// lines where no whitespace touches an `=` (`a =b` and `=b a` differ: the
/// rule for `=` joins the first into one token).
pub proof fn lemma_normalize_permutation(t: Seq<Seq<char>>, u: Seq<Seq<char>>)
    requires
        plain_tokens(t),
        u.to_multiset() == t.to_multiset(),
        !spaced_eq(join_spaces(t)),
        !spaced_eq(join_spaces(u)),
    ensures
        normalize(join_spaces(t)) == normalize(join_spaces(u)),
{
    broadcast use vstd::seq_lib::group_to_multiset_ensures;

    u.to_multiset_ensures();
    t.to_multiset_ensures();
    assert forall|i: int| 0 <= i < u.len() implies plain_token(#[trigger] u[i]) by {
        assert(u.contains(u[i]));
        assert(u.to_multiset().count(u[i]) > 0);
        assert(t.to_multiset().count(u[i]) > 0);
        assert(t.contains(u[i]));
        let k = choose|k: int| 0 <= k < t.len() && t[k] == u[i];
        assert(plain_token(t[k]));
    }
    lemma_answer_tokens_of_join(t);
    lemma_answer_tokens_of_join(u);
    lemma_lower_all_multiset(t, u);
    lemma_sort_by_multiset(lower_all(t), lower_all(u));
}

} // verus!
