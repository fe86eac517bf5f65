//! Character-sequence utilities shared by the normalizer and the encoder:
//! ASCII case folding, splitting and joining on a separator, locating a
//! character, decimal rendering of a port number, and conversions between
//! `str`/`String` and `Vec<char>`.
use vstd::prelude::*;

verus! {

/// ASCII case folding of one character; anything outside 'A'..'Z' is kept.
pub open spec fn lower_char(c: char) -> char {
    if 'A' <= c && c <= 'Z' {
        ((c as u8) + 32) as char
    } else {
        c
    }
}

/// ASCII case folding of a whole sequence.
pub open spec fn lower_seq(s: Seq<char>) -> Seq<char> {
    s.map_values(|c: char| lower_char(c))
}

pub open spec fn is_upper(c: char) -> bool {
    'A' <= c && c <= 'Z'
}

/// No character of the sequence is an uppercase ASCII letter.
pub open spec fn no_upper(s: Seq<char>) -> bool {
    forall|i: int| 0 <= i < s.len() ==> !is_upper(#[trigger] s[i])
}

pub fn to_lower_char(c: char) -> (r: char)
    ensures
        r == lower_char(c),
{
    if 'A' <= c && c <= 'Z' {
        ((c as u8) + 32) as char
    } else {
        c
    }
}

pub fn lower_all(v: &Vec<char>) -> (r: Vec<char>)
    ensures
        r@ == lower_seq(v@),
{
    let mut r: Vec<char> = Vec::new();
    let mut i: usize = 0;
    while i < v.len()
        invariant
            i <= v@.len(),
            r@ == lower_seq(v@.take(i as int)),
        decreases v@.len() - i,
    {
        r.push(to_lower_char(v[i]));
        proof {
            assert(r@ =~= lower_seq(v@.take(i + 1)));
        }
        i = i + 1;
    }
    proof {
        assert(v@.take(v@.len() as int) =~= v@);
    }
    r
}

pub proof fn lemma_lower_seq_no_upper(s: Seq<char>)
    ensures
        no_upper(lower_seq(s)),
{
}

pub proof fn lemma_lower_seq_fixed(s: Seq<char>)
    requires
        no_upper(s),
    ensures
        lower_seq(s) == s,
{
    assert(lower_seq(s) =~= s);
}

/// Index of the first occurrence of `c` in `s`, or -1 when `c` is absent.
pub open spec fn find_at(s: Seq<char>, c: char) -> int
    decreases s.len(),
{
    if s.len() == 0 {
        -1
    } else if s[0] == c {
        0
    } else if find_at(s.drop_first(), c) < 0 {
        -1
    } else {
        find_at(s.drop_first(), c) + 1
    }
}

pub proof fn lemma_find_at_found(s: Seq<char>, c: char, i: int)
    requires
        0 <= i < s.len(),
        s[i] == c,
        forall|j: int| 0 <= j < i ==> s[j] != c,
    ensures
        find_at(s, c) == i,
    decreases s.len(),
{
    if i > 0 {
        lemma_find_at_found(s.drop_first(), c, i - 1);
    }
}

pub proof fn lemma_find_at_absent(s: Seq<char>, c: char)
    requires
        forall|j: int| 0 <= j < s.len() ==> s[j] != c,
    ensures
        find_at(s, c) == -1,
    decreases s.len(),
{
    if s.len() > 0 {
        lemma_find_at_absent(s.drop_first(), c);
    }
}

pub fn find_char(v: &Vec<char>, c: char) -> (r: Option<usize>)
    ensures
        match r {
            Some(i) => i < v@.len() && find_at(v@, c) == i,
            None => find_at(v@, c) == -1,
        },
{
    let mut i: usize = 0;
    while i < v.len()
        invariant
            i <= v@.len(),
            forall|j: int| 0 <= j < i ==> v@[j] != c,
        decreases v@.len() - i,
    {
        if v[i] == c {
            proof {
                lemma_find_at_found(v@, c, i as int);
            }
            return Some(i);
        }
        i = i + 1;
    }
    proof {
        lemma_find_at_absent(v@, c);
    }
    None
}

/// Split on a separator: tokens in order, the separator in none of them;
/// an empty input gives one empty token.
pub open spec fn split_seq(s: Seq<char>, sep: char) -> Seq<Seq<char>>
    decreases s.len(),
{
    if s.len() == 0 {
        seq![Seq::<char>::empty()]
    } else if s[0] == sep {
        seq![Seq::<char>::empty()] + split_seq(s.drop_first(), sep)
    } else {
        let rest = split_seq(s.drop_first(), sep);
        seq![seq![s[0]] + rest[0]] + rest.drop_first()
    }
}

pub proof fn lemma_split_len(s: Seq<char>, sep: char)
    ensures
        split_seq(s, sep).len() >= 1,
    decreases s.len(),
{
    if s.len() > 0 {
        lemma_split_len(s.drop_first(), sep);
    }
}

/// A separator-free sequence is a single token.
pub proof fn lemma_split_whole(s: Seq<char>, sep: char)
    requires
        forall|j: int| 0 <= j < s.len() ==> s[j] != sep,
    ensures
        split_seq(s, sep) == seq![s],
    decreases s.len(),
{
    if s.len() == 0 {
        assert(s =~= Seq::<char>::empty());
        assert(split_seq(s, sep) =~= seq![s]);
    } else {
        lemma_split_whole(s.drop_first(), sep);
        assert(s[0] != sep);
        let rest = split_seq(s.drop_first(), sep);
        assert(split_seq(s, sep) == seq![seq![s[0]] + rest[0]] + rest.drop_first());
        assert(seq![s[0]] + rest[0] =~= s);
        assert(rest.drop_first() =~= Seq::<Seq<char>>::empty());
        assert(split_seq(s, sep) =~= seq![s]);
    }
}

/// Splitting at the first separator peels off one token.
pub proof fn lemma_split_step(pre: Seq<char>, rest: Seq<char>, sep: char)
    requires
        forall|j: int| 0 <= j < pre.len() ==> pre[j] != sep,
    ensures
        split_seq(pre + seq![sep] + rest, sep) == seq![pre] + split_seq(rest, sep),
    decreases pre.len(),
{
    let s = pre + seq![sep] + rest;
    if pre.len() == 0 {
        assert(s =~= seq![sep] + rest);
        assert(s[0] == sep);
        assert(s.drop_first() =~= rest);
        assert(split_seq(s, sep) == seq![Seq::<char>::empty()] + split_seq(s.drop_first(), sep));
        assert(pre =~= Seq::<char>::empty());
        assert(split_seq(s, sep) =~= seq![pre] + split_seq(rest, sep));
    } else {
        lemma_split_step(pre.drop_first(), rest, sep);
        assert(s[0] == pre[0]);
        assert(pre[0] != sep);
        assert(s.len() > 0 && s[0] != sep);
        assert(s.drop_first() =~= pre.drop_first() + seq![sep] + rest);
        let inner = split_seq(s.drop_first(), sep);
        assert(inner == seq![pre.drop_first()] + split_seq(rest, sep));
        lemma_split_len(rest, sep);
        assert(inner[0] == pre.drop_first());
        assert(seq![s[0]] + inner[0] =~= pre);
        assert(inner.drop_first() =~= split_seq(rest, sep));
        assert(split_seq(s, sep) == seq![seq![s[0]] + inner[0]] + inner.drop_first());
        assert(split_seq(s, sep) =~= seq![pre] + split_seq(rest, sep));
    }
}

/// Views of a vector of tokens.
pub open spec fn views_of(ts: Seq<Vec<char>>) -> Seq<Seq<char>> {
    ts.map_values(|t: Vec<char>| t@)
}

pub fn split_vec(v: &Vec<char>, sep: char) -> (r: Vec<Vec<char>>)
    ensures
        views_of(r@) == split_seq(v@, sep),
        r@.len() >= 1,
{
    let ghost s = v@;
    let mut out: Vec<Vec<char>> = Vec::new();
    let mut cur: Vec<char> = Vec::new();
    let mut i: usize = 0;
    proof {
        assert(views_of(out@) =~= Seq::<Seq<char>>::empty());
        assert(cur@ + s.skip(0) =~= s);
        assert(views_of(out@) + split_seq(cur@ + s.skip(0), sep) =~= split_seq(s, sep));
    }
    while i < v.len()
        invariant
            i <= s.len(),
            v@ == s,
            forall|j: int| 0 <= j < cur@.len() ==> cur@[j] != sep,
            split_seq(s, sep) == views_of(out@) + split_seq(cur@ + s.skip(i as int), sep),
        decreases s.len() - i,
    {
        let c = v[i];
        let ghost old_out = out@;
        let ghost old_cur = cur@;
        if c == sep {
            proof {
                assert(old_cur + s.skip(i as int) =~= old_cur + seq![sep] + s.skip(i + 1));
                lemma_split_step(old_cur, s.skip(i + 1), sep);
                assert(split_seq(s, sep) == views_of(old_out) + (seq![old_cur] + split_seq(
                    s.skip(i + 1),
                    sep,
                )));
            }
            out.push(cur);
            cur = Vec::new();
            proof {
                assert(views_of(out@) =~= views_of(old_out).push(old_cur));
                assert(views_of(old_out).push(old_cur) =~= views_of(old_out) + seq![old_cur]);
                assert(cur@ + s.skip(i + 1) =~= s.skip(i + 1));
                assert(views_of(out@) + split_seq(cur@ + s.skip(i + 1), sep) =~= views_of(old_out)
                    + (seq![old_cur] + split_seq(s.skip(i + 1), sep)));
            }
        } else {
            cur.push(c);
            proof {
                assert(cur@ + s.skip(i + 1) =~= old_cur + s.skip(i as int));
            }
        }
        i = i + 1;
    }
    let ghost old_out = out@;
    let ghost old_cur = cur@;
    proof {
        assert(old_cur + s.skip(s.len() as int) =~= old_cur);
        lemma_split_whole(old_cur, sep);
        assert(split_seq(s, sep) == views_of(old_out) + seq![old_cur]);
    }
    out.push(cur);
    proof {
        assert(views_of(out@) =~= views_of(old_out).push(old_cur));
        assert(views_of(old_out).push(old_cur) =~= views_of(old_out) + seq![old_cur]);
        assert(views_of(out@) =~= split_seq(v@, sep));
    }
    out
}

/// Join tokens with a separator between consecutive ones.
pub open spec fn join_seq(ts: Seq<Seq<char>>, sep: char) -> Seq<char>
    decreases ts.len(),
{
    if ts.len() == 0 {
        Seq::<char>::empty()
    } else if ts.len() == 1 {
        ts[0]
    } else {
        ts[0] + seq![sep] + join_seq(ts.drop_first(), sep)
    }
}

pub proof fn lemma_join_snoc(ts: Seq<Seq<char>>, t: Seq<char>, sep: char)
    requires
        ts.len() >= 1,
    ensures
        join_seq(ts.push(t), sep) == join_seq(ts, sep) + seq![sep] + t,
    decreases ts.len(),
{
    let u = ts.push(t);
    assert(u.len() == ts.len() + 1);
    if ts.len() == 1 {
        assert(u.drop_first() =~= seq![t]);
        assert(join_seq(seq![t], sep) == t);
        assert(join_seq(u, sep) == u[0] + seq![sep] + join_seq(u.drop_first(), sep));
        assert(u[0] == ts[0]);
        assert(join_seq(ts, sep) == ts[0]);
        assert(join_seq(u, sep) =~= join_seq(ts, sep) + seq![sep] + t);
    } else {
        lemma_join_snoc(ts.drop_first(), t, sep);
        assert(u.drop_first() =~= ts.drop_first().push(t));
        assert(join_seq(u, sep) == u[0] + seq![sep] + join_seq(u.drop_first(), sep));
        assert(u[0] == ts[0]);
        assert(join_seq(ts, sep) == ts[0] + seq![sep] + join_seq(ts.drop_first(), sep));
        assert(join_seq(u, sep) =~= join_seq(ts, sep) + seq![sep] + t);
    }
}

pub fn join_vec(ts: &Vec<Vec<char>>, sep: char) -> (r: Vec<char>)
    ensures
        r@ == join_seq(views_of(ts@), sep),
{
    let mut r: Vec<char> = Vec::new();
    let mut i: usize = 0;
    while i < ts.len()
        invariant
            i <= ts@.len(),
            r@ == join_seq(views_of(ts@.take(i as int)), sep),
        decreases ts@.len() - i,
    {
        if i > 0 {
            r.push(sep);
        }
        let mut j: usize = 0;
        let ghost mid = r@;
        while j < ts[i].len()
            invariant
                0 <= i < ts@.len(),
                j <= ts@[i as int]@.len(),
                r@ == mid + ts@[i as int]@.take(j as int),
            decreases ts@[i as int]@.len() - j,
        {
            let c = ts[i][j];
            r.push(c);
            proof {
                assert(r@ =~= mid + ts@[i as int]@.take(j + 1));
            }
            j = j + 1;
        }
        proof {
            let pre = views_of(ts@.take(i as int));
            let now = views_of(ts@.take(i + 1));
            assert(now =~= pre.push(ts@[i as int]@));
            assert(ts@[i as int]@.take(ts@[i as int]@.len() as int) =~= ts@[i as int]@);
            if i > 0 {
                lemma_join_snoc(pre, ts@[i as int]@, sep);
            } else {
                assert(now.len() == 1);
            }
        }
        i = i + 1;
    }
    proof {
        assert(ts@.take(ts@.len() as int) =~= ts@);
    }
    r
}

pub open spec fn dec_digit(n: int) -> char {
    if n == 0 {
        '0'
    } else if n == 1 {
        '1'
    } else if n == 2 {
        '2'
    } else if n == 3 {
        '3'
    } else if n == 4 {
        '4'
    } else if n == 5 {
        '5'
    } else if n == 6 {
        '6'
    } else if n == 7 {
        '7'
    } else if n == 8 {
        '8'
    } else {
        '9'
    }
}

/// Decimal rendering of a non-negative number, most significant digit first.
pub open spec fn dec_seq(n: int) -> Seq<char>
    decreases n,
{
    if n < 10 {
        seq![dec_digit(n)]
    } else {
        dec_seq(n / 10).push(dec_digit(n % 10))
    }
}

fn dec_digit_char(n: u16) -> (r: char)
    requires
        n < 10,
    ensures
        r == dec_digit(n as int),
{
    if n == 0 {
        '0'
    } else if n == 1 {
        '1'
    } else if n == 2 {
        '2'
    } else if n == 3 {
        '3'
    } else if n == 4 {
        '4'
    } else if n == 5 {
        '5'
    } else if n == 6 {
        '6'
    } else if n == 7 {
        '7'
    } else if n == 8 {
        '8'
    } else {
        '9'
    }
}

pub fn push_dec(out: &mut Vec<char>, n: u16)
    ensures
        final(out)@ == old(out)@ + dec_seq(n as int),
    decreases n,
{
    if n < 10 {
        out.push(dec_digit_char(n));
        proof {
            assert(out@ =~= old(out)@ + dec_seq(n as int));
        }
    } else {
        push_dec(out, n / 10);
        out.push(dec_digit_char(n % 10));
        proof {
            assert(out@ =~= old(out)@ + dec_seq(n as int));
        }
    }
}

pub fn copy_chars(v: &Vec<char>) -> (r: Vec<char>)
    ensures
        r@ == v@,
{
    let mut r: Vec<char> = Vec::new();
    let mut i: usize = 0;
    while i < v.len()
        invariant
            i <= v@.len(),
            r@ == v@.take(i as int),
        decreases v@.len() - i,
    {
        r.push(v[i]);
        proof {
            assert(r@ =~= v@.take(i + 1));
        }
        i = i + 1;
    }
    proof {
        assert(r@ =~= v@);
    }
    r
}

pub fn chars_of(s: &str) -> (r: Vec<char>)
    ensures
        r@ == s@,
{
    let n = s.unicode_len();
    let mut r: Vec<char> = Vec::new();
    let mut i: usize = 0;
    while i < n
        invariant
            n == s@.len(),
            i <= n,
            r@ == s@.take(i as int),
        decreases n - i,
    {
        let c = s.get_char(i);
        r.push(c);
        proof {
            assert(r@ =~= s@.take(i + 1));
        }
        i = i + 1;
    }
    proof {
        assert(r@ =~= s@);
    }
    r
}

pub fn append_chars(out: &mut Vec<char>, v: &Vec<char>)
    ensures
        final(out)@ == old(out)@ + v@,
{
    let ghost base = out@;
    let mut i: usize = 0;
    while i < v.len()
        invariant
            i <= v@.len(),
            out@ == base + v@.take(i as int),
        decreases v@.len() - i,
    {
        out.push(v[i]);
        proof {
            assert(out@ =~= base + v@.take(i + 1));
        }
        i = i + 1;
    }
    proof {
        assert(out@ =~= base + v@);
    }
}

pub fn tail_chars(v: &Vec<char>, k: usize) -> (r: Vec<char>)
    requires
        k <= v@.len(),
    ensures
        r@ == v@.skip(k as int),
{
    let mut r: Vec<char> = Vec::new();
    let mut i: usize = k;
    while i < v.len()
        invariant
            k <= i <= v@.len(),
            r@ == v@.subrange(k as int, i as int),
        decreases v@.len() - i,
    {
        r.push(v[i]);
        proof {
            assert(r@ =~= v@.subrange(k as int, i + 1));
        }
        i = i + 1;
    }
    proof {
        assert(r@ =~= v@.skip(k as int));
    }
    r
}

pub fn front_chars(v: &Vec<char>, k: usize) -> (r: Vec<char>)
    requires
        k <= v@.len(),
    ensures
        r@ == v@.take(k as int),
{
    let mut r: Vec<char> = Vec::new();
    let mut i: usize = 0;
    while i < k
        invariant
            i <= k <= v@.len(),
            r@ == v@.take(i as int),
        decreases k - i,
    {
        r.push(v[i]);
        proof {
            assert(r@ =~= v@.take(i + 1));
        }
        i = i + 1;
    }
    r
}

/// Relies on `String::push`: appends the given character to the end of the
/// string.
#[verifier::external_body]
fn push_char(s: &mut String, c: char)
    ensures
        final(s)@ == old(s)@.push(c),
{
    s.push(c);
}

pub fn string_of(v: &Vec<char>) -> (r: String)
    ensures
        r@ == v@,
{
    let mut r = String::new();
    let mut i: usize = 0;
    while i < v.len()
        invariant
            i <= v@.len(),
            r@ == v@.take(i as int),
        decreases v@.len() - i,
    {
        push_char(&mut r, v[i]);
        proof {
            assert(r@ =~= v@.take(i + 1));
        }
        i = i + 1;
    }
    proof {
        assert(r@ =~= v@);
    }
    r
}

} // verus!
