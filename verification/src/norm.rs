//! The URL normalizer: canonicalize the query (sort its `&`-separated
//! tokens, lowercase, strip session identifiers), strip a leading
//! `www`-style label from the host, lowercase the host, reserialize, and
//! trim a trailing slash (unless the path is the root) and a trailing
//! bare `?`.
use vstd::prelude::*;

use crate::lex::sort_lex;
use crate::lex::sort_tokens;
use crate::model::ParsedUrl;
use crate::model::SurtError;
use crate::model::UrlView;
use crate::model::parse_of;
use crate::model::parse_url;
use crate::session::strip_session_tokens;
use crate::session::strip_tokens;
use crate::text::append_chars;
use crate::text::chars_of;
use crate::text::copy_chars;
use crate::text::dec_seq;
use crate::text::find_at;
use crate::text::find_char;
use crate::text::join_seq;
use crate::text::join_vec;
use crate::text::lower_all;
use crate::text::lower_seq;
use crate::text::push_dec;
use crate::text::split_seq;
use crate::text::split_vec;
use crate::text::string_of;
use crate::text::tail_chars;
use crate::text::views_of;

verus! {

/// The canonical form of a query string: split on `&`, sort the tokens
/// byte-wise, rejoin, lowercase the whole, then strip session tokens.
pub open spec fn canon_query(q: Seq<char>) -> Seq<char> {
    join_seq(
        strip_tokens(split_seq(lower_seq(join_seq(sort_lex(split_seq(q, '&')), '&')), '&')),
        '&',
    )
}

pub fn canon_query_vec(q: &Vec<char>) -> (r: Vec<char>)
    ensures
        r@ == canon_query(q@),
{
    let t0 = split_vec(q, '&');
    let t1 = sort_tokens(&t0);
    let j1 = join_vec(&t1, '&');
    let low = lower_all(&j1);
    let t2 = split_vec(&low, '&');
    let t3 = strip_session_tokens(&t2);
    join_vec(&t3, '&')
}

/// A word character, as in the host pattern `www<word chars>.`: an ASCII
/// letter, a digit, or `_`.
pub open spec fn is_word(c: char) -> bool {
    ('a' <= c && c <= 'z') || ('A' <= c && c <= 'Z') || ('0' <= c && c <= '9') || c == '_'
}

/// Index of the first non-word character, or -1 when all are word
/// characters.
pub open spec fn find_nonword(s: Seq<char>) -> int
    decreases s.len(),
{
    if s.len() == 0 {
        -1
    } else if !is_word(s[0]) {
        0
    } else if find_nonword(s.drop_first()) < 0 {
        -1
    } else {
        find_nonword(s.drop_first()) + 1
    }
}

proof fn lemma_find_nonword_found(s: Seq<char>, i: int)
    requires
        0 <= i < s.len(),
        !is_word(s[i]),
        forall|j: int| 0 <= j < i ==> is_word(#[trigger] s[j]),
    ensures
        find_nonword(s) == i,
    decreases s.len(),
{
    if i > 0 {
        lemma_find_nonword_found(s.drop_first(), i - 1);
    }
}

proof fn lemma_find_nonword_absent(s: Seq<char>)
    requires
        forall|j: int| 0 <= j < s.len() ==> is_word(#[trigger] s[j]),
    ensures
        find_nonword(s) == -1,
    decreases s.len(),
{
    if s.len() > 0 {
        lemma_find_nonword_absent(s.drop_first());
    }
}

/// The host starts with `www` followed by word characters and a dot, and
/// at least one more dot follows: the leading label is dropped.
pub open spec fn www_strippable(h: Seq<char>) -> bool {
    &&& h.len() > 3
    &&& h[0] == 'w' && h[1] == 'w' && h[2] == 'w'
    &&& ({
        let k = find_nonword(h.skip(3));
        &&& k >= 0
        &&& h.skip(3)[k] == '.'
        &&& find_at(h.skip(3).skip(k + 1), '.') >= 0
    })
}

/// Drop a leading `www`-style label; a host that would lose too much
/// (fewer than two labels would remain) is kept whole.
pub open spec fn strip_www(h: Seq<char>) -> Seq<char> {
    if www_strippable(h) {
        h.skip(3).skip(find_nonword(h.skip(3)) + 1)
    } else {
        h
    }
}

fn is_word_char(c: char) -> (r: bool)
    ensures
        r == is_word(c),
{
    ('a' <= c && c <= 'z') || ('A' <= c && c <= 'Z') || ('0' <= c && c <= '9') || c == '_'
}

/// First non-word character at or after position 3.
fn first_nonword_from(h: &Vec<char>) -> (r: Option<usize>)
    requires
        h@.len() >= 3,
    ensures
        match r {
            Some(i) => 3 <= i < h@.len() && find_nonword(h@.skip(3)) == i - 3,
            None => find_nonword(h@.skip(3)) == -1,
        },
{
    let ghost tail = h@.skip(3);
    let mut i: usize = 3;
    while i < h.len()
        invariant
            3 <= i <= h@.len(),
            tail == h@.skip(3),
            forall|j: int| 3 <= j < i ==> is_word(#[trigger] h@[j]),
        decreases h@.len() - i,
    {
        if !is_word_char(h[i]) {
            proof {
                assert(tail[i - 3] == h@[i as int]);
                assert forall|j: int| 0 <= j < i - 3 implies is_word(#[trigger] tail[j]) by {
                    assert(tail[j] == h@[j + 3]);
                }
                lemma_find_nonword_found(tail, i - 3);
            }
            return Some(i);
        }
        i = i + 1;
    }
    proof {
        assert forall|j: int| 0 <= j < tail.len() implies is_word(#[trigger] tail[j]) by {
            assert(tail[j] == h@[j + 3]);
        }
        lemma_find_nonword_absent(tail);
    }
    None
}

pub fn www_strip_host(h: &Vec<char>) -> (r: Vec<char>)
    ensures
        r@ == strip_www(h@),
{
    if h.len() <= 3 {
        return copy_chars(h);
    }
    if !(h[0] == 'w' && h[1] == 'w' && h[2] == 'w') {
        return copy_chars(h);
    }
    let found = first_nonword_from(h);
    match found {
        None => copy_chars(h),
        Some(i) => {
            if h[i] != '.' {
                proof {
                    assert(h@.skip(3)[i - 3] == h@[i as int]);
                }
                copy_chars(h)
            } else {
                let rest = tail_chars(h, i + 1);
                proof {
                    assert(h@.skip(3).skip(i - 3 + 1) =~= h@.skip(i + 1));
                    assert(h@.skip(3)[i - 3] == h@[i as int]);
                }
                match find_char(&rest, '.') {
                    None => {
                        proof {
                            assert(!www_strippable(h@));
                        }
                        copy_chars(h)
                    },
                    Some(_) => {
                        proof {
                            assert(www_strippable(h@));
                        }
                        rest
                    },
                }
            }
        },
    }
}

pub open spec fn port_section(p: Option<u16>) -> Seq<char> {
    match p {
        Some(n) => seq![':'] + dec_seq(n as int),
        None => Seq::<char>::empty(),
    }
}

pub open spec fn host_section(v: UrlView) -> Seq<char> {
    match v.host {
        Some(h) => seq!['/', '/'] + lower_seq(strip_www(h)) + port_section(v.port),
        None => Seq::<char>::empty(),
    }
}

pub open spec fn query_section(q: Option<Seq<char>>) -> Seq<char> {
    match q {
        Some(qs) => seq!['?'] + canon_query(qs),
        None => Seq::<char>::empty(),
    }
}

pub open spec fn frag_section(f: Option<Seq<char>>) -> Seq<char> {
    match f {
        Some(fs) => seq!['#'] + fs,
        None => Seq::<char>::empty(),
    }
}

/// The normalized URL, reserialized: scheme, authority with the host
/// stripped and lowercased, the path as parsed, the canonical query, the
/// fragment as parsed.
pub open spec fn serialized_of(v: UrlView) -> Seq<char> {
    v.scheme + seq![':'] + host_section(v) + v.path + query_section(v.query) + frag_section(
        v.fragment,
    )
}

pub open spec fn drop_tail_slash(s: Seq<char>, path: Seq<char>) -> Seq<char> {
    if s.len() > 0 && s.last() == '/' && path != seq!['/'] {
        s.drop_last()
    } else {
        s
    }
}

pub open spec fn drop_tail_qmark(s: Seq<char>) -> Seq<char> {
    if s.len() > 0 && s.last() == '?' {
        s.drop_last()
    } else {
        s
    }
}

/// The whole normalizer: reserialize, then trim a trailing slash (kept
/// for a root path) and a trailing bare `?`.
pub open spec fn normalized_of(v: UrlView) -> Seq<char> {
    drop_tail_qmark(drop_tail_slash(serialized_of(v), v.path))
}

pub fn normalize_parsed(p: &ParsedUrl) -> (r: String)
    ensures
        r@ == normalized_of(p@),
{
    let mut out: Vec<char> = Vec::new();
    let sch = chars_of(p.scheme.as_str());
    append_chars(&mut out, &sch);
    out.push(':');
    proof {
        assert(out@ =~= p@.scheme + seq![':']);
    }
    match &p.host {
        Some(h) => {
            out.push('/');
            out.push('/');
            let hv = chars_of(h.as_str());
            let hs = www_strip_host(&hv);
            let hl = lower_all(&hs);
            append_chars(&mut out, &hl);
            proof {
                assert(out@ =~= p@.scheme + seq![':'] + (seq!['/', '/'] + lower_seq(
                    strip_www(h@),
                )));
            }
            match p.port {
                Some(pt) => {
                    out.push(':');
                    push_dec(&mut out, pt);
                },
                None => {},
            }
            proof {
                assert(out@ =~= p@.scheme + seq![':'] + host_section(p@));
            }
        },
        None => {
            proof {
                assert(out@ =~= p@.scheme + seq![':'] + host_section(p@));
            }
        },
    }
    let pv = chars_of(p.path.as_str());
    append_chars(&mut out, &pv);
    proof {
        assert(out@ =~= p@.scheme + seq![':'] + host_section(p@) + p@.path);
    }
    match &p.query {
        Some(q) => {
            out.push('?');
            let qv0 = chars_of(q.as_str());
            let qv = canon_query_vec(&qv0);
            append_chars(&mut out, &qv);
        },
        None => {},
    }
    proof {
        assert(out@ =~= p@.scheme + seq![':'] + host_section(p@) + p@.path + query_section(
            p@.query,
        ));
    }
    match &p.fragment {
        Some(f) => {
            out.push('#');
            let fv = chars_of(f.as_str());
            append_chars(&mut out, &fv);
        },
        None => {},
    }
    proof {
        assert(out@ =~= serialized_of(p@));
    }
    let path_is_root = pv.len() == 1 && {
        let c0 = pv[0];
        c0 == '/'
    };
    proof {
        if path_is_root {
            assert(p@.path =~= seq!['/']);
        } else {
            if p@.path == seq!['/'] {
                assert(pv@.len() == 1 && pv@[0] == '/');
            }
        }
    }
    if out.len() > 0 && {
        let lc = out[out.len() - 1];
        lc == '/'
    } && !path_is_root {
        out.pop();
        proof {
            assert(out@ =~= drop_tail_slash(serialized_of(p@), p@.path));
        }
    } else {
        proof {
            assert(out@ =~= drop_tail_slash(serialized_of(p@), p@.path));
        }
    }
    if out.len() > 0 && {
        let lc = out[out.len() - 1];
        lc == '?'
    } {
        out.pop();
        proof {
            assert(out@ =~= normalized_of(p@));
        }
    } else {
        proof {
            assert(out@ =~= normalized_of(p@));
        }
    }
    string_of(&out)
}

/// Parse and normalize one URL: `MalformedUrl` exactly when the input is
/// not an absolute URL, else the normalized serialization.
pub fn normalize_url(url: &str) -> (r: Result<String, SurtError>)
    ensures
        parse_of(url@) is None ==> r == Err::<String, SurtError>(SurtError::MalformedUrl),
        parse_of(url@) matches Some(v) ==> r matches Ok(s) && s@ == normalized_of(v),
{
    match parse_url(url) {
        None => Err(SurtError::MalformedUrl),
        Some(p) => Ok(normalize_parsed(&p)),
    }
}

} // verus!
