//! Lexicographic order on character sequences (by code point, which agrees
//! with the byte order of their UTF-8 encodings), and a sort of query tokens
//! under that order.
use vstd::prelude::*;
use vstd::relations::{sorted_by, total_ordering};
use vstd::seq_lib::{lemma_sorted_unique, to_multiset_insert};

use crate::text::views_of;

verus! {

/// `a` comes no later than `b` in lexicographic order.
pub open spec fn lex_le(a: Seq<char>, b: Seq<char>) -> bool
    decreases a.len(),
{
    if a.len() == 0 {
        true
    } else if b.len() == 0 {
        false
    } else if a[0] != b[0] {
        a[0] < b[0]
    } else {
        lex_le(a.drop_first(), b.drop_first())
    }
}

pub open spec fn lex_leq_fn() -> spec_fn(Seq<char>, Seq<char>) -> bool {
    |a: Seq<char>, b: Seq<char>| lex_le(a, b)
}

/// The canonical sorted arrangement of a token list.
pub open spec fn sort_lex(ts: Seq<Seq<char>>) -> Seq<Seq<char>> {
    ts.sort_by(lex_leq_fn())
}

pub proof fn lemma_lex_refl(a: Seq<char>)
    ensures
        lex_le(a, a),
    decreases a.len(),
{
    if a.len() > 0 {
        lemma_lex_refl(a.drop_first());
    }
}

pub proof fn lemma_lex_total(a: Seq<char>, b: Seq<char>)
    ensures
        lex_le(a, b) || lex_le(b, a),
    decreases a.len(),
{
    if a.len() > 0 && b.len() > 0 && a[0] == b[0] {
        lemma_lex_total(a.drop_first(), b.drop_first());
    }
}

pub proof fn lemma_lex_antisym(a: Seq<char>, b: Seq<char>)
    requires
        lex_le(a, b),
        lex_le(b, a),
    ensures
        a == b,
    decreases a.len(),
{
    if a.len() == 0 {
        assert(b.len() == 0);
        assert(a =~= b);
    } else {
        assert(a[0] == b[0]);
        lemma_lex_antisym(a.drop_first(), b.drop_first());
        assert(a.len() == b.len());
        assert forall|i: int| 0 <= i < a.len() implies a[i] == b[i] by {
            if i > 0 {
                assert(a[i] == a.drop_first()[i - 1]);
                assert(b[i] == b.drop_first()[i - 1]);
            }
        }
        assert(a =~= b);
    }
}

pub proof fn lemma_lex_trans(a: Seq<char>, b: Seq<char>, c: Seq<char>)
    requires
        lex_le(a, b),
        lex_le(b, c),
    ensures
        lex_le(a, c),
    decreases a.len(),
{
    if a.len() > 0 && b.len() > 0 && c.len() > 0 && a[0] == b[0] && b[0] == c[0] {
        lemma_lex_trans(a.drop_first(), b.drop_first(), c.drop_first());
    }
}

/// Lexicographic order is a total ordering, so sorting under it has a
/// unique result.
pub proof fn lemma_lex_total_ordering()
    ensures
        total_ordering(lex_leq_fn()),
{
    let leq = lex_leq_fn();
    assert forall|a: Seq<char>| #[trigger] leq(a, a) by {
        lemma_lex_refl(a);
    }
    assert forall|a: Seq<char>, b: Seq<char>| #[trigger] leq(a, b) && #[trigger] leq(b, a)
        implies a == b by {
        lemma_lex_antisym(a, b);
    }
    assert forall|a: Seq<char>, b: Seq<char>, c: Seq<char>|
        #[trigger] leq(a, b) && #[trigger] leq(b, c) implies leq(a, c) by {
        lemma_lex_trans(a, b, c);
    }
    assert forall|a: Seq<char>, b: Seq<char>| #![trigger leq(a, b)] true implies leq(a, b) || leq(
        b,
        a,
    ) by {
        lemma_lex_total(a, b);
    }
}

/// When `a` and `b` agree on their first `k` characters, their order is
/// decided by the remainders.
proof fn lemma_lex_skip(a: Seq<char>, b: Seq<char>, k: int)
    requires
        0 <= k <= a.len(),
        0 <= k <= b.len(),
        forall|j: int| 0 <= j < k ==> a[j] == b[j],
    ensures
        lex_le(a, b) == lex_le(a.skip(k), b.skip(k)),
    decreases k,
{
    if k > 0 {
        lemma_lex_skip(a.drop_first(), b.drop_first(), k - 1);
        assert(a.drop_first().skip(k - 1) =~= a.skip(k));
        assert(b.drop_first().skip(k - 1) =~= b.skip(k));
    } else {
        assert(a.skip(0) =~= a);
        assert(b.skip(0) =~= b);
    }
}

/// Decide the lexicographic order of two character vectors.
pub fn lex_le_vec(a: &Vec<char>, b: &Vec<char>) -> (r: bool)
    ensures
        r == lex_le(a@, b@),
{
    let mut i: usize = 0;
    loop
        invariant
            i <= a@.len(),
            i <= b@.len(),
            forall|j: int| 0 <= j < i ==> a@[j] == b@[j],
        decreases a@.len() - i,
    {
        if i == a.len() || i == b.len() {
            proof {
                lemma_lex_skip(a@, b@, i as int);
            }
            return a.len() <= b.len();
        }
        if a[i] != b[i] {
            proof {
                lemma_lex_skip(a@, b@, i as int);
                assert(a@.skip(i as int)[0] == a@[i as int]);
                assert(b@.skip(i as int)[0] == b@[i as int]);
            }
            return a[i] < b[i];
        }
        i = i + 1;
    }
}

/// First position whose token does not come before `x`.
fn insert_pos(out: &Vec<Vec<char>>, x: &Vec<char>) -> (j: usize)
    ensures
        j <= out@.len(),
        forall|k: int| 0 <= k < j ==> lex_le(#[trigger] views_of(out@)[k], x@),
        j < out@.len() ==> !lex_le(views_of(out@)[j as int], x@),
{
    let mut j: usize = 0;
    while j < out.len()
        invariant
            j <= out@.len(),
            forall|k: int| 0 <= k < j ==> lex_le(#[trigger] views_of(out@)[k], x@),
        decreases out@.len() - j,
    {
        if !lex_le_vec(&out[j], x) {
            return j;
        }
        j = j + 1;
    }
    j
}

/// Sort tokens lexicographically; the result is the canonical sorted
/// arrangement of the input.
pub fn sort_tokens(input: &Vec<Vec<char>>) -> (r: Vec<Vec<char>>)
    ensures
        views_of(r@) == sort_lex(views_of(input@)),
        r@.len() == input@.len(),
{
    proof {
        lemma_lex_total_ordering();
    }
    let mut out: Vec<Vec<char>> = Vec::new();
    let mut i: usize = 0;
    proof {
        assert(views_of(out@) =~= Seq::<Seq<char>>::empty());
        assert(views_of(input@.take(0)) =~= Seq::<Seq<char>>::empty());
    }
    while i < input.len()
        invariant
            i <= input@.len(),
            out@.len() == i,
            sorted_by(views_of(out@), lex_leq_fn()),
            views_of(out@).to_multiset() == views_of(input@.take(i as int)).to_multiset(),
        decreases input@.len() - i,
    {
        let x = crate::text::copy_chars(&input[i]);
        let ghost old_views = views_of(out@);
        let j = insert_pos(&out, &x);
        proof {
            if j < out@.len() {
                lemma_lex_total(old_views[j as int], x@);
                assert(lex_le(x@, old_views[j as int]));
            }
            assert forall|k: int| j <= k < old_views.len() implies lex_le(
                x@,
                #[trigger] old_views[k],
            ) by {
                if k > j {
                    assert(lex_leq_fn()(old_views[j as int], old_views[k]));
                    lemma_lex_trans(x@, old_views[j as int], old_views[k]);
                }
            }
        }
        out.insert(j, x);
        proof {
            old_views.insert_ensures(j as int, x@);
            assert(views_of(out@) =~= old_views.insert(j as int, x@));
            let nv = views_of(out@);
            assert forall|p: int, q: int| 0 <= p < q < nv.len() implies #[trigger] lex_leq_fn()(
                nv[p],
                nv[q],
            ) by {
                if q < j {
                    assert(lex_leq_fn()(old_views[p], old_views[q]));
                } else if q == j {
                    assert(nv[q] == x@);
                    assert(nv[p] == old_views[p]);
                    assert(lex_le(old_views[p], x@));
                } else {
                    assert(nv[q] == old_views[q - 1]);
                    assert(lex_le(x@, old_views[q - 1]));
                    if p < j {
                        assert(nv[p] == old_views[p]);
                        assert(lex_le(old_views[p], x@));
                        lemma_lex_trans(old_views[p], x@, old_views[q - 1]);
                    } else if p == j {
                        assert(nv[p] == x@);
                    } else {
                        assert(nv[p] == old_views[p - 1]);
                        assert(lex_leq_fn()(old_views[p - 1], old_views[q - 1]));
                    }
                }
            }
            assert(sorted_by(nv, lex_leq_fn()));
            to_multiset_insert(old_views, j as int, x@);
            assert(views_of(input@.take(i + 1)) =~= views_of(input@.take(i as int)).push(
                input@[i as int]@,
            ));
            vstd::seq_lib::to_multiset_build(views_of(input@.take(i as int)), input@[i as int]@);
        }
        i = i + 1;
    }
    proof {
        assert(input@.take(input@.len() as int) =~= input@);
        views_of(input@).lemma_sort_by_ensures(lex_leq_fn());
        lemma_sorted_unique(views_of(out@), sort_lex(views_of(input@)), lex_leq_fn());
        assert(views_of(out@) =~= sort_lex(views_of(input@)));
    }
    out
}

} // verus!
