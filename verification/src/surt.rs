//! The SURT encoder: reject a URL whose scheme is not `http`/`https` or
//! whose host is missing, reverse the lowercased host labels with `,`
//! between them, append `:port`, `)`, the lowercased path (the root `/`
//! when the path is empty), the lowercased query and fragment, then run
//! the final cleanup pass: percent-decode, re-encode spaces as `%20`, and
//! trim a trailing slash from the pre-query part unless it closes `)/`.
use vstd::prelude::*;

use crate::model::ParsedUrl;
use crate::model::SurtError;
use crate::model::UrlView;
use crate::model::parse_of;
use crate::model::parse_url;
use crate::norm::normalize_parsed;
use crate::norm::normalized_of;
use crate::norm::port_section;
use crate::text::append_chars;
use crate::text::chars_of;
use crate::text::copy_chars;
use crate::text::find_at;
use crate::text::find_char;
use crate::text::front_chars;
use crate::text::join_seq;
use crate::text::join_vec;
use crate::text::lower_all;
use crate::text::lower_seq;
use crate::text::push_dec;
use crate::text::split_seq;
use crate::text::split_vec;
use crate::text::string_of;
use crate::text::tail_chars;
use crate::text::views_of;

verus! {

/// What percent-decoding (with lossy UTF-8) makes of a string; the
/// outcome depends on the input characters alone.
pub uninterp spec fn decoded_of(s: Seq<char>) -> Seq<char>;

/// Relies on `url_escape::decode`: percent-decodes `%XX` escapes with
/// lossy UTF-8 recovery; a string holding no `%` is returned unchanged;
/// the outcome is a function of the input string alone.
#[verifier::external_body]
fn percent_decode(s: &str) -> (r: String)
    ensures
        r@ == decoded_of(s@),
        !s@.contains('%') ==> r@ == s@,
{
    url_escape::decode(s).to_string()
}

/// A space becomes `%20`; every other character stands for itself.
pub open spec fn sp_char(c: char) -> Seq<char> {
    if c == ' ' {
        seq!['%', '2', '0']
    } else {
        seq![c]
    }
}

pub open spec fn sp_encode(s: Seq<char>) -> Seq<char>
    decreases s.len(),
{
    if s.len() == 0 {
        Seq::<char>::empty()
    } else {
        sp_char(s[0]) + sp_encode(s.drop_first())
    }
}

proof fn lemma_sp_snoc(s: Seq<char>, c: char)
    ensures
        sp_encode(s.push(c)) == sp_encode(s) + sp_char(c),
    decreases s.len(),
{
    if s.len() == 0 {
        assert(s.push(c).drop_first() =~= Seq::<char>::empty());
        assert(sp_encode(Seq::<char>::empty()) == Seq::<char>::empty());
        assert(sp_encode(s.push(c)) == sp_char(c) + sp_encode(s.push(c).drop_first()));
        assert(sp_encode(s.push(c)) =~= sp_encode(s) + sp_char(c));
    } else {
        lemma_sp_snoc(s.drop_first(), c);
        assert(s.push(c).drop_first() =~= s.drop_first().push(c));
        assert(s.push(c)[0] == s[0]);
        assert(sp_encode(s.push(c)) =~= sp_encode(s) + sp_char(c));
    }
}

fn encode_spaces(v: &Vec<char>) -> (r: Vec<char>)
    ensures
        r@ == sp_encode(v@),
{
    let mut r: Vec<char> = Vec::new();
    let mut i: usize = 0;
    while i < v.len()
        invariant
            i <= v@.len(),
            r@ == sp_encode(v@.take(i as int)),
        decreases v@.len() - i,
    {
        let c = v[i];
        if c == ' ' {
            r.push('%');
            r.push('2');
            r.push('0');
        } else {
            r.push(c);
        }
        proof {
            lemma_sp_snoc(v@.take(i as int), c);
            assert(v@.take(i + 1) =~= v@.take(i as int).push(c));
            assert(r@ =~= sp_encode(v@.take(i + 1)));
        }
        i = i + 1;
    }
    proof {
        assert(v@.take(v@.len() as int) =~= v@);
    }
    r
}

pub open spec fn ends_with_slash(s: Seq<char>) -> bool {
    s.len() > 0 && s.last() == '/'
}

/// The string closes with the root marker `)/`.
pub open spec fn ends_root(s: Seq<char>) -> bool {
    s.len() >= 2 && s[s.len() - 2] == ')' && s.last() == '/'
}

/// The trailing-slash rules of the cleanup pass, applied to the
/// space-encoded string: with no `?` the whole string loses a trailing
/// slash unless it ends `)/`; with a `?` the part before the first `?`
/// does.
pub open spec fn trim_encoded(t: Seq<char>) -> Seq<char> {
    let q = find_at(t, '?');
    let qi = if q >= 0 {
        q
    } else {
        0
    };
    let t1 = if qi == 0 && ends_with_slash(t) && !ends_root(t) {
        t.drop_last()
    } else {
        t
    };
    let pre = t1.take(qi);
    let pre2 = if ends_with_slash(pre) && !ends_root(pre) {
        pre.drop_last()
    } else {
        pre
    };
    pre2 + t1.skip(qi)
}

/// The whole cleanup pass on a decoded SURT string.
pub open spec fn surt_cleanup(d: Seq<char>) -> Seq<char> {
    trim_encoded(sp_encode(d))
}

/// The final cleanup pass: percent-decode, re-encode spaces as `%20`,
/// and apply the trailing-slash rules around the first `?`.
pub fn normalize_surt(surt: &str) -> (r: String)
    ensures
        r@ == surt_cleanup(decoded_of(surt@)),
        !surt@.contains('%') ==> r@ == trim_encoded(sp_encode(surt@)),
{
    let d = percent_decode(surt);
    let dv = chars_of(d.as_str());
    let mut w = encode_spaces(&dv);
    let ghost t = w@;
    let fq = find_char(&w, '?');
    let qi: usize = match fq {
        Some(i) => i,
        None => 0,
    };
    if qi == 0 && w.len() > 0 {
        let lc = w[w.len() - 1];
        if lc == '/' {
            let root = w.len() >= 2 && {
                let pc = w[w.len() - 2];
                pc == ')'
            };
            if !root {
                w.pop();
            }
        }
    }
    proof {
        let q = find_at(t, '?');
        let sqi = if q >= 0 {
            q
        } else {
            0
        };
        assert(sqi == qi);
        assert(w@ == (if sqi == 0 && ends_with_slash(t) && !ends_root(t) {
            t.drop_last()
        } else {
            t
        }));
        assert(qi <= w@.len());
    }
    let pre = front_chars(&w, qi);
    let rest = tail_chars(&w, qi);
    let mut out = pre;
    if out.len() > 0 {
        let lc = out[out.len() - 1];
        if lc == '/' {
            let root = out.len() >= 2 && {
                let pc = out[out.len() - 2];
                pc == ')'
            };
            if !root {
                out.pop();
            }
        }
    }
    append_chars(&mut out, &rest);
    proof {
        assert(out@ =~= trim_encoded(t));
    }
    string_of(&out)
}

fn is_http_or_https(s: &String) -> (r: bool)
    ensures
        r == (s@ == "http"@ || s@ == "https"@),
{
    proof {
        reveal_strlit("http");
        reveal_strlit("https");
    }
    let v = chars_of(s.as_str());
    if v.len() == 4 {
        let ok = v[0] == 'h' && v[1] == 't' && v[2] == 't' && v[3] == 'p';
        proof {
            if ok {
                assert(s@ =~= "http"@);
            }
        }
        ok
    } else if v.len() == 5 {
        let ok = v[0] == 'h' && v[1] == 't' && v[2] == 't' && v[3] == 'p' && v[4] == 's';
        proof {
            if ok {
                assert(s@ =~= "https"@);
            }
        }
        ok
    } else {
        false
    }
}

fn rev_tokens(ts: &Vec<Vec<char>>) -> (r: Vec<Vec<char>>)
    ensures
        views_of(r@) == views_of(ts@).reverse(),
{
    let mut r: Vec<Vec<char>> = Vec::new();
    let mut i: usize = ts.len();
    while i > 0
        invariant
            i <= ts@.len(),
            r@.len() == ts@.len() - i,
            forall|k: int|
                0 <= k < r@.len() ==> #[trigger] views_of(r@)[k] == views_of(ts@)[ts@.len() - 1
                    - k],
        decreases i,
    {
        i = i - 1;
        let ghost old_r = r@;
        r.push(copy_chars(&ts[i]));
        proof {
            assert(views_of(r@) =~= views_of(old_r).push(ts@[i as int]@));
            assert forall|k: int| 0 <= k < r@.len() implies #[trigger] views_of(r@)[k]
                == views_of(ts@)[ts@.len() - 1 - k] by {
                if k < old_r.len() {
                    assert(views_of(r@)[k] == views_of(old_r)[k]);
                } else {
                    assert(views_of(r@)[k] == ts@[i as int]@);
                }
            }
        }
    }
    proof {
        assert(views_of(r@) =~= views_of(ts@).reverse());
    }
    r
}

/// The reversed-label host part: lowercase, split on `.`, reverse, join
/// with `,`.
pub open spec fn host_surt(h: Seq<char>) -> Seq<char> {
    join_seq(split_seq(lower_seq(h), '.').reverse(), ',')
}

pub open spec fn path_part(p: Seq<char>) -> Seq<char> {
    if p.len() > 0 {
        seq![')'] + lower_seq(p)
    } else {
        seq![')', '/']
    }
}

pub open spec fn query_part(q: Option<Seq<char>>) -> Seq<char> {
    match q {
        Some(qs) => seq!['?'] + lower_seq(qs),
        None => Seq::<char>::empty(),
    }
}

pub open spec fn frag_part(f: Option<Seq<char>>) -> Seq<char> {
    match f {
        Some(fs) => seq!['#'] + lower_seq(fs),
        None => Seq::<char>::empty(),
    }
}

/// The assembled SURT string, before the cleanup pass.
pub open spec fn surt_core(v: UrlView) -> Seq<char> {
    (match v.host {
        Some(h) => host_surt(h),
        None => Seq::<char>::empty(),
    }) + port_section(v.port) + path_part(v.path) + query_part(v.query) + frag_part(v.fragment)
}

/// What the encoder owes for every parsed URL: `UnsupportedScheme` for a
/// scheme other than `http`/`https`, `MissingHost` without a host, else
/// the cleaned-up SURT.
pub open spec fn surt_of(v: UrlView) -> Result<Seq<char>, SurtError> {
    if v.scheme != "http"@ && v.scheme != "https"@ {
        Err(SurtError::UnsupportedScheme)
    } else if v.host is None {
        Err(SurtError::MissingHost)
    } else {
        Ok(surt_cleanup(decoded_of(surt_core(v))))
    }
}

/// An executable outcome carries exactly the stated mathematical one.
pub open spec fn res_agrees(r: Result<String, SurtError>, m: Result<Seq<char>, SurtError>) -> bool {
    match r {
        Ok(s) => m matches Ok(t) && s@ == t,
        Err(e) => m matches Err(e2) && e == e2,
    }
}

/// Encode one parsed URL as a SURT.
pub fn encode_surt(p: &ParsedUrl) -> (r: Result<String, SurtError>)
    ensures
        res_agrees(r, surt_of(p@)),
{
    if !is_http_or_https(&p.scheme) {
        return Err(SurtError::UnsupportedScheme);
    }
    let h = match &p.host {
        None => {
            return Err(SurtError::MissingHost);
        },
        Some(h) => h,
    };
    let hv = chars_of(h.as_str());
    let hl = lower_all(&hv);
    let labels = split_vec(&hl, '.');
    let rlabels = rev_tokens(&labels);
    let mut core = join_vec(&rlabels, ',');
    proof {
        assert(core@ == host_surt(h@));
    }
    match p.port {
        Some(pt) => {
            core.push(':');
            push_dec(&mut core, pt);
        },
        None => {},
    }
    proof {
        assert(core@ =~= host_surt(h@) + port_section(p@.port));
    }
    let pv = chars_of(p.path.as_str());
    if pv.len() > 0 {
        core.push(')');
        let pl = lower_all(&pv);
        append_chars(&mut core, &pl);
    } else {
        core.push(')');
        core.push('/');
    }
    proof {
        assert(core@ =~= host_surt(h@) + port_section(p@.port) + path_part(p@.path));
    }
    match &p.query {
        Some(q) => {
            core.push('?');
            let qv = chars_of(q.as_str());
            let ql = lower_all(&qv);
            append_chars(&mut core, &ql);
        },
        None => {},
    }
    proof {
        assert(core@ =~= host_surt(h@) + port_section(p@.port) + path_part(p@.path) + query_part(
            p@.query,
        ));
    }
    match &p.fragment {
        Some(f) => {
            core.push('#');
            let fv = chars_of(f.as_str());
            let fl = lower_all(&fv);
            append_chars(&mut core, &fl);
        },
        None => {},
    }
    proof {
        assert(core@ =~= surt_core(p@));
    }
    let cs = string_of(&core);
    let out = normalize_surt(cs.as_str());
    Ok(out)
}

/// What follows once a URL has parsed: normalize, reparse, encode.
pub open spec fn surt_after_parse(v: UrlView) -> Result<Seq<char>, SurtError> {
    match parse_of(normalized_of(v)) {
        None => Err(SurtError::MalformedUrl),
        Some(v2) => surt_of(v2),
    }
}

/// What `generate_surt` owes for every input string.
pub open spec fn spec_generate_surt(u: Seq<char>) -> Result<Seq<char>, SurtError> {
    match parse_of(u) {
        None => Err(SurtError::MalformedUrl),
        Some(v) => surt_after_parse(v),
    }
}

/// Turn a URL into its SURT: parse, normalize, reparse, encode.
pub fn generate_surt(url: &str) -> (r: Result<String, SurtError>)
    ensures
        res_agrees(r, spec_generate_surt(url@)),
{
    let p = match parse_url(url) {
        None => {
            return Err(SurtError::MalformedUrl);
        },
        Some(p) => p,
    };
    let n = normalize_parsed(&p);
    let p2 = match parse_url(n.as_str()) {
        None => {
            return Err(SurtError::MalformedUrl);
        },
        Some(p2) => p2,
    };
    encode_surt(&p2)
}

} // verus!
