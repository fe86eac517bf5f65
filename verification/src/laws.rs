//! The library's laws, proved over the same spec functions that the
//! executable functions' contracts use.
use vstd::prelude::*;
use vstd::seq_lib::lemma_sorted_unique;

use crate::lex::lemma_lex_total_ordering;
use crate::lex::lex_leq_fn;
use crate::lex::sort_lex;
use crate::model::UrlView;
use crate::norm::canon_query;
use crate::norm::normalized_of;
use crate::surt::spec_generate_surt;
use crate::surt::surt_after_parse;
use crate::surt::surt_core;
use crate::text::dec_seq;
use crate::text::is_upper;
use crate::text::join_seq;
use crate::text::lemma_lower_seq_fixed;
use crate::text::lemma_lower_seq_no_upper;
use crate::text::lower_seq;
use crate::text::no_upper;
use crate::text::split_seq;

verus! {

/// Running the transform twice on identical input yields identical
/// output: the outcome is a function of the input string alone, with no
/// hidden state.
pub proof fn lemma_generate_surt_repeatable(u1: Seq<char>, u2: Seq<char>)
    requires
        u1 == u2,
    ensures
        spec_generate_surt(u1) == spec_generate_surt(u2),
{
}

/// Two token lists that are permutations of one another sort to the same
/// arrangement.
pub proof fn lemma_sort_permutation(t1: Seq<Seq<char>>, t2: Seq<Seq<char>>)
    requires
        t1.to_multiset() == t2.to_multiset(),
    ensures
        sort_lex(t1) == sort_lex(t2),
{
    lemma_lex_total_ordering();
    t1.lemma_sort_by_ensures(lex_leq_fn());
    t2.lemma_sort_by_ensures(lex_leq_fn());
    lemma_sorted_unique(sort_lex(t1), sort_lex(t2), lex_leq_fn());
    assert(sort_lex(t1) =~= sort_lex(t2));
}

/// Permuting the `&`-joined tokens of a query leaves its canonical form
/// unchanged.
pub proof fn lemma_canon_query_order_independent(q1: Seq<char>, q2: Seq<char>)
    requires
        split_seq(q1, '&').to_multiset() == split_seq(q2, '&').to_multiset(),
    ensures
        canon_query(q1) == canon_query(q2),
{
    lemma_sort_permutation(split_seq(q1, '&'), split_seq(q2, '&'));
}

/// Permuting the query tokens of a parsed URL changes neither its
/// normalized serialization nor the SURT that follows from it.
pub proof fn lemma_surt_query_order_independent(v1: UrlView, v2: UrlView)
    requires
        v1.scheme == v2.scheme,
        v1.host == v2.host,
        v1.port == v2.port,
        v1.path == v2.path,
        v1.fragment == v2.fragment,
        match (v1.query, v2.query) {
            (Some(a), Some(b)) => split_seq(a, '&').to_multiset() == split_seq(
                b,
                '&',
            ).to_multiset(),
            (None, None) => true,
            _ => false,
        },
    ensures
        normalized_of(v1) == normalized_of(v2),
        surt_after_parse(v1) == surt_after_parse(v2),
{
    match (v1.query, v2.query) {
        (Some(a), Some(b)) => {
            lemma_canon_query_order_independent(a, b);
        },
        _ => {},
    }
}

/// No uppercase ASCII letter survives the concatenation of two strings
/// that hold none.
proof fn lemma_no_upper_concat(a: Seq<char>, b: Seq<char>)
    requires
        no_upper(a),
        no_upper(b),
    ensures
        no_upper(a + b),
{
    assert forall|i: int| 0 <= i < (a + b).len() implies !is_upper(#[trigger] (a + b)[i]) by {
        if i < a.len() {
            assert((a + b)[i] == a[i]);
        } else {
            assert((a + b)[i] == b[i - a.len()]);
        }
    }
}

proof fn lemma_split_no_upper(s: Seq<char>, sep: char)
    requires
        no_upper(s),
    ensures
        forall|k: int|
            0 <= k < split_seq(s, sep).len() ==> no_upper(#[trigger] split_seq(s, sep)[k]),
    decreases s.len(),
{
    if s.len() > 0 {
        assert(no_upper(s.drop_first())) by {
            assert forall|i: int| 0 <= i < s.drop_first().len() implies !is_upper(
                #[trigger] s.drop_first()[i],
            ) by {
                assert(s.drop_first()[i] == s[i + 1]);
            }
        }
        lemma_split_no_upper(s.drop_first(), sep);
        let rest = split_seq(s.drop_first(), sep);
        if s[0] == sep {
            assert forall|k: int| 0 <= k < split_seq(s, sep).len() implies no_upper(
                #[trigger] split_seq(s, sep)[k],
            ) by {
                if k > 0 {
                    assert(split_seq(s, sep)[k] == rest[k - 1]);
                }
            }
        } else {
            assert(no_upper(seq![s[0]] + rest[0])) by {
                assert(no_upper(seq![s[0]]));
                lemma_no_upper_concat(seq![s[0]], rest[0]);
            }
            assert forall|k: int| 0 <= k < split_seq(s, sep).len() implies no_upper(
                #[trigger] split_seq(s, sep)[k],
            ) by {
                if k > 0 {
                    assert(split_seq(s, sep)[k] == rest.drop_first()[k - 1]);
                    assert(rest.drop_first()[k - 1] == rest[k]);
                }
            }
        }
    }
}

proof fn lemma_join_no_upper(ts: Seq<Seq<char>>, sep: char)
    requires
        forall|k: int| 0 <= k < ts.len() ==> no_upper(#[trigger] ts[k]),
        !is_upper(sep),
    ensures
        no_upper(join_seq(ts, sep)),
    decreases ts.len(),
{
    if ts.len() > 1 {
        assert forall|k: int| 0 <= k < ts.drop_first().len() implies no_upper(
            #[trigger] ts.drop_first()[k],
        ) by {
            assert(ts.drop_first()[k] == ts[k + 1]);
        }
        lemma_join_no_upper(ts.drop_first(), sep);
        assert(no_upper(seq![sep]));
        lemma_no_upper_concat(ts[0], seq![sep]);
        lemma_no_upper_concat(ts[0] + seq![sep], join_seq(ts.drop_first(), sep));
    }
}

proof fn lemma_dec_no_upper(n: int)
    ensures
        no_upper(dec_seq(n)),
    decreases n,
{
    if n >= 10 {
        lemma_dec_no_upper(n / 10);
        lemma_no_upper_concat(dec_seq(n / 10), seq![crate::text::dec_digit(n % 10)]);
        assert(dec_seq(n) =~= dec_seq(n / 10) + seq![crate::text::dec_digit(n % 10)]);
    }
}

/// Case insensitivity of the encoder: the assembled SURT (before the
/// cleanup pass, which may re-surface percent-encoded letters) holds no
/// uppercase ASCII letter, whatever the casing of the parsed components.
pub proof fn lemma_surt_core_lowercase(v: UrlView)
    requires
        v.host is Some,
    ensures
        no_upper(surt_core(v)),
{
    let h = v.host->Some_0;
    lemma_lower_seq_no_upper(h);
    lemma_split_no_upper(lower_seq(h), '.');
    let labs = split_seq(lower_seq(h), '.');
    assert forall|k: int| 0 <= k < labs.reverse().len() implies no_upper(
        #[trigger] labs.reverse()[k],
    ) by {
        assert(labs.reverse()[k] == labs[labs.len() - 1 - k]);
    }
    lemma_join_no_upper(labs.reverse(), ',');
    let host_piece = crate::surt::host_surt(h);
    let port_piece = crate::norm::port_section(v.port);
    assert(no_upper(port_piece)) by {
        match v.port {
            Some(n) => {
                lemma_dec_no_upper(n as int);
                lemma_no_upper_concat(seq![':'], dec_seq(n as int));
            },
            None => {},
        }
    }
    let path_piece = crate::surt::path_part(v.path);
    assert(no_upper(path_piece)) by {
        lemma_lower_seq_no_upper(v.path);
        if v.path.len() > 0 {
            lemma_no_upper_concat(seq![')'], lower_seq(v.path));
        } else {
            assert(no_upper(seq![')', '/']));
        }
    }
    let query_piece = crate::surt::query_part(v.query);
    assert(no_upper(query_piece)) by {
        match v.query {
            Some(q) => {
                lemma_lower_seq_no_upper(q);
                lemma_no_upper_concat(seq!['?'], lower_seq(q));
            },
            None => {},
        }
    }
    let frag_piece = crate::surt::frag_part(v.fragment);
    assert(no_upper(frag_piece)) by {
        match v.fragment {
            Some(f) => {
                lemma_lower_seq_no_upper(f);
                lemma_no_upper_concat(seq!['#'], lower_seq(f));
            },
            None => {},
        }
    }
    lemma_no_upper_concat(host_piece, port_piece);
    lemma_no_upper_concat(host_piece + port_piece, path_piece);
    lemma_no_upper_concat(host_piece + port_piece + path_piece, query_piece);
    lemma_no_upper_concat(host_piece + port_piece + path_piece + query_piece, frag_piece);
}

/// The assembled SURT equals its own case folding: its casing is already
/// fully lowercase.
pub proof fn lemma_surt_core_case_fold(v: UrlView)
    requires
        v.host is Some,
    ensures
        lower_seq(surt_core(v)) == surt_core(v),
{
    lemma_surt_core_lowercase(v);
    lemma_lower_seq_fixed(surt_core(v));
}

} // verus!
