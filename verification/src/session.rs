//! Session-identifier stripping. A canonical query must not carry transient
//! session tokens: `jsessionid` (value of 10 or more alphanumerics or `$`),
//! `sessionid`, `phpsessid` and `sid` (16 or more alphanumerics),
//! `aspsessionid` followed by eight letters (16 or more alphanumerics), and
//! the adjacent pair `cfid` (digits) with `cftoken` (alphanumerics or `-`).
//! The tokens examined here are already lowercased.
use vstd::prelude::*;

use crate::text::views_of;

verus! {

pub open spec fn is_digit(c: char) -> bool {
    '0' <= c && c <= '9'
}

pub open spec fn is_lower_alpha(c: char) -> bool {
    'a' <= c && c <= 'z'
}

pub open spec fn is_alnum(c: char) -> bool {
    is_digit(c) || is_lower_alpha(c)
}

pub open spec fn tail_alnum(t: Seq<char>, from: int) -> bool {
    forall|j: int| from <= j < t.len() ==> is_alnum(#[trigger] t[j])
}

pub open spec fn is_jsessionid(t: Seq<char>) -> bool {
    &&& t.len() >= 21
    &&& t[0] == 'j' && t[1] == 's' && t[2] == 'e' && t[3] == 's' && t[4] == 's' && t[5] == 'i'
        && t[6] == 'o' && t[7] == 'n' && t[8] == 'i' && t[9] == 'd' && t[10] == '='
    &&& forall|j: int| 11 <= j < t.len() ==> is_alnum(#[trigger] t[j]) || t[j] == '$'
}

pub open spec fn is_sessionid(t: Seq<char>) -> bool {
    &&& t.len() >= 26
    &&& t[0] == 's' && t[1] == 'e' && t[2] == 's' && t[3] == 's' && t[4] == 'i' && t[5] == 'o'
        && t[6] == 'n' && t[7] == 'i' && t[8] == 'd' && t[9] == '='
    &&& tail_alnum(t, 10)
}

pub open spec fn is_phpsessid(t: Seq<char>) -> bool {
    &&& t.len() >= 26
    &&& t[0] == 'p' && t[1] == 'h' && t[2] == 'p' && t[3] == 's' && t[4] == 'e' && t[5] == 's'
        && t[6] == 's' && t[7] == 'i' && t[8] == 'd' && t[9] == '='
    &&& tail_alnum(t, 10)
}

pub open spec fn is_sid(t: Seq<char>) -> bool {
    &&& t.len() >= 20
    &&& t[0] == 's' && t[1] == 'i' && t[2] == 'd' && t[3] == '='
    &&& tail_alnum(t, 4)
}

pub open spec fn is_aspsessionid(t: Seq<char>) -> bool {
    &&& t.len() >= 37
    &&& t[0] == 'a' && t[1] == 's' && t[2] == 'p' && t[3] == 's' && t[4] == 'e' && t[5] == 's'
        && t[6] == 's' && t[7] == 'i' && t[8] == 'o' && t[9] == 'n' && t[10] == 'i' && t[11] == 'd'
    &&& forall|j: int| 12 <= j < 20 ==> is_lower_alpha(#[trigger] t[j])
    &&& t[20] == '='
    &&& tail_alnum(t, 21)
}

/// A token stripped on its own.
pub open spec fn is_session_token(t: Seq<char>) -> bool {
    is_jsessionid(t) || is_sessionid(t) || is_phpsessid(t) || is_sid(t) || is_aspsessionid(t)
}

pub open spec fn is_cfid(t: Seq<char>) -> bool {
    &&& t.len() >= 6
    &&& t[0] == 'c' && t[1] == 'f' && t[2] == 'i' && t[3] == 'd' && t[4] == '='
    &&& forall|j: int| 5 <= j < t.len() ==> is_digit(#[trigger] t[j])
}

pub open spec fn is_cftoken(t: Seq<char>) -> bool {
    &&& t.len() >= 9
    &&& t[0] == 'c' && t[1] == 'f' && t[2] == 't' && t[3] == 'o' && t[4] == 'k' && t[5] == 'e'
        && t[6] == 'n' && t[7] == '='
    &&& forall|j: int| 8 <= j < t.len() ==> is_alnum(#[trigger] t[j]) || t[j] == '-'
}

/// Remove session tokens from a token list: an adjacent `cfid`/`cftoken`
/// pair leaves together, a lone session token leaves by itself, everything
/// else stays in order.
pub open spec fn strip_tokens(ts: Seq<Seq<char>>) -> Seq<Seq<char>>
    decreases ts.len(),
{
    if ts.len() == 0 {
        Seq::<Seq<char>>::empty()
    } else if ts.len() >= 2 && is_cfid(ts[0]) && is_cftoken(ts[1]) {
        strip_tokens(ts.skip(2))
    } else if is_session_token(ts[0]) {
        strip_tokens(ts.skip(1))
    } else {
        seq![ts[0]] + strip_tokens(ts.skip(1))
    }
}

fn check_jsessionid(t: &Vec<char>) -> (r: bool)
    ensures
        r == is_jsessionid(t@),
{
    if t.len() < 21 {
        return false;
    }
    if !(t[0] == 'j' && t[1] == 's' && t[2] == 'e' && t[3] == 's' && t[4] == 's' && t[5] == 'i'
        && t[6] == 'o' && t[7] == 'n' && t[8] == 'i' && t[9] == 'd' && t[10] == '=') {
        return false;
    }
    let mut j: usize = 11;
    while j < t.len()
        invariant
            11 <= j <= t@.len(),
            forall|k: int| 11 <= k < j ==> is_alnum(#[trigger] t@[k]) || t@[k] == '$',
        decreases t@.len() - j,
    {
        let c = t[j];
        if !(('0' <= c && c <= '9') || ('a' <= c && c <= 'z') || c == '$') {
            return false;
        }
        j = j + 1;
    }
    true
}

fn tail_alnum_from(t: &Vec<char>, from: usize) -> (r: bool)
    requires
        from <= t@.len(),
    ensures
        r == tail_alnum(t@, from as int),
{
    let mut j: usize = from;
    while j < t.len()
        invariant
            from <= j <= t@.len(),
            forall|k: int| from <= k < j ==> is_alnum(#[trigger] t@[k]),
        decreases t@.len() - j,
    {
        let c = t[j];
        if !(('0' <= c && c <= '9') || ('a' <= c && c <= 'z')) {
            return false;
        }
        j = j + 1;
    }
    true
}

fn check_sessionid(t: &Vec<char>) -> (r: bool)
    ensures
        r == is_sessionid(t@),
{
    if t.len() < 26 {
        return false;
    }
    if !(t[0] == 's' && t[1] == 'e' && t[2] == 's' && t[3] == 's' && t[4] == 'i' && t[5] == 'o'
        && t[6] == 'n' && t[7] == 'i' && t[8] == 'd' && t[9] == '=') {
        return false;
    }
    tail_alnum_from(t, 10)
}

fn check_phpsessid(t: &Vec<char>) -> (r: bool)
    ensures
        r == is_phpsessid(t@),
{
    if t.len() < 26 {
        return false;
    }
    if !(t[0] == 'p' && t[1] == 'h' && t[2] == 'p' && t[3] == 's' && t[4] == 'e' && t[5] == 's'
        && t[6] == 's' && t[7] == 'i' && t[8] == 'd' && t[9] == '=') {
        return false;
    }
    tail_alnum_from(t, 10)
}

fn check_sid(t: &Vec<char>) -> (r: bool)
    ensures
        r == is_sid(t@),
{
    if t.len() < 20 {
        return false;
    }
    if !(t[0] == 's' && t[1] == 'i' && t[2] == 'd' && t[3] == '=') {
        return false;
    }
    tail_alnum_from(t, 4)
}

fn check_aspsessionid(t: &Vec<char>) -> (r: bool)
    ensures
        r == is_aspsessionid(t@),
{
    if t.len() < 37 {
        return false;
    }
    if !(t[0] == 'a' && t[1] == 's' && t[2] == 'p' && t[3] == 's' && t[4] == 'e' && t[5] == 's'
        && t[6] == 's' && t[7] == 'i' && t[8] == 'o' && t[9] == 'n' && t[10] == 'i' && t[11]
        == 'd') {
        return false;
    }
    let mut j: usize = 12;
    while j < 20
        invariant
            12 <= j <= 20,
            t@.len() >= 37,
            forall|k: int| 12 <= k < j ==> is_lower_alpha(#[trigger] t@[k]),
        decreases 20 - j,
    {
        let c = t[j];
        if !('a' <= c && c <= 'z') {
            return false;
        }
        j = j + 1;
    }
    if t[20] != '=' {
        return false;
    }
    tail_alnum_from(t, 21)
}

fn check_session_token(t: &Vec<char>) -> (r: bool)
    ensures
        r == is_session_token(t@),
{
    if check_jsessionid(t) {
        return true;
    }
    if check_sessionid(t) {
        return true;
    }
    if check_phpsessid(t) {
        return true;
    }
    if check_sid(t) {
        return true;
    }
    check_aspsessionid(t)
}

fn check_cfid(t: &Vec<char>) -> (r: bool)
    ensures
        r == is_cfid(t@),
{
    if t.len() < 6 {
        return false;
    }
    if !(t[0] == 'c' && t[1] == 'f' && t[2] == 'i' && t[3] == 'd' && t[4] == '=') {
        return false;
    }
    let mut j: usize = 5;
    while j < t.len()
        invariant
            5 <= j <= t@.len(),
            forall|k: int| 5 <= k < j ==> is_digit(#[trigger] t@[k]),
        decreases t@.len() - j,
    {
        let c = t[j];
        if !('0' <= c && c <= '9') {
            return false;
        }
        j = j + 1;
    }
    true
}

fn check_cftoken(t: &Vec<char>) -> (r: bool)
    ensures
        r == is_cftoken(t@),
{
    if t.len() < 9 {
        return false;
    }
    if !(t[0] == 'c' && t[1] == 'f' && t[2] == 't' && t[3] == 'o' && t[4] == 'k' && t[5] == 'e'
        && t[6] == 'n' && t[7] == '=') {
        return false;
    }
    let mut j: usize = 8;
    while j < t.len()
        invariant
            8 <= j <= t@.len(),
            forall|k: int| 8 <= k < j ==> is_alnum(#[trigger] t@[k]) || t@[k] == '-',
        decreases t@.len() - j,
    {
        let c = t[j];
        if !(('0' <= c && c <= '9') || ('a' <= c && c <= 'z') || c == '-') {
            return false;
        }
        j = j + 1;
    }
    true
}

/// Remove session tokens from the token list.
pub fn strip_session_tokens(ts: &Vec<Vec<char>>) -> (r: Vec<Vec<char>>)
    ensures
        views_of(r@) == strip_tokens(views_of(ts@)),
{
    let ghost all = views_of(ts@);
    let mut out: Vec<Vec<char>> = Vec::new();
    let mut i: usize = 0;
    proof {
        assert(views_of(out@) =~= Seq::<Seq<char>>::empty());
        assert(all.skip(0) =~= all);
    }
    while i < ts.len()
        invariant
            i <= ts@.len(),
            all == views_of(ts@),
            strip_tokens(all) == views_of(out@) + strip_tokens(all.skip(i as int)),
        decreases ts@.len() - i,
    {
        let ghost rem = all.skip(i as int);
        proof {
            assert(rem[0] == all[i as int]);
            if i + 1 < ts@.len() {
                assert(rem[1] == all[i + 1]);
            }
        }
        if i + 1 < ts.len() && check_cfid(&ts[i]) && check_cftoken(&ts[i + 1]) {
            proof {
                assert(rem.skip(2) =~= all.skip(i + 2));
                assert(strip_tokens(rem) == strip_tokens(all.skip(i + 2)));
            }
            i = i + 2;
        } else if check_session_token(&ts[i]) {
            proof {
                assert(rem.skip(1) =~= all.skip(i + 1));
                assert(strip_tokens(rem) == strip_tokens(all.skip(i + 1)));
            }
            i = i + 1;
        } else {
            let ghost old_out = views_of(out@);
            out.push(crate::text::copy_chars(&ts[i]));
            proof {
                assert(rem.skip(1) =~= all.skip(i + 1));
                assert(strip_tokens(rem) == seq![rem[0]] + strip_tokens(all.skip(i + 1)));
                assert(views_of(out@) =~= old_out.push(all[i as int]));
                assert(old_out.push(all[i as int]) =~= old_out + seq![all[i as int]]);
                assert(views_of(out@) + strip_tokens(all.skip(i + 1)) =~= old_out + (seq![rem[0]]
                    + strip_tokens(all.skip(i + 1))));
            }
            i = i + 1;
        }
    }
    proof {
        assert(all.skip(all.len() as int) =~= Seq::<Seq<char>>::empty());
        assert(strip_tokens(all) =~= views_of(out@));
    }
    out
}

} // verus!
