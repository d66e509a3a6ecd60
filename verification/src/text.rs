//! Character-level string operations used to build and rewrite commands.

use vstd::prelude::*;

verus! {

/// `String::push` appends one character.
pub assume_specification[ String::push ](s: &mut String, ch: char)
    ensures
        final(s)@ == old(s)@.push(ch),
;

/// The characters of `s`, in order.
pub fn chars_of(s: &str) -> (r: Vec<char>)
    ensures
        r@ == s@,
{
    let mut r: Vec<char> = Vec::new();
    for c in it: s.chars()
        invariant
            r@ == it.seq().take(it.index() as int),
            it.seq() == s@,
    {
        r.push(c);
    }
    r
}

/// Whether `a` and `b` are the same text.
pub fn same_text(a: &str, b: &str) -> (r: bool)
    ensures
        r == (a@ == b@),
{
    let c = chars_of(a);
    let t = chars_of(b);
    if c.len() != t.len() {
        return false;
    }
    let mut i: usize = 0;
    while i < c.len()
        invariant
            i <= c@.len(),
            c@.len() == t@.len(),
            c@ == a@,
            t@ == b@,
            forall|j: int| 0 <= j < i ==> c@[j] == t@[j],
        decreases c@.len() - i,
    {
        if c[i] != t[i] {
            assert(c@[i as int] != t@[i as int]);
            return false;
        }
        i = i + 1;
    }
    assert(c@ =~= t@);
    true
}

/// The string made of the characters of `v`, in order.
pub fn string_of(v: &Vec<char>) -> (r: String)
    ensures
        r@ == v@,
{
    let mut r = String::new();
    let mut i: usize = 0;
    while i < v.len()
        invariant
            i <= v.len(),
            r@ == v@.take(i as int),
        decreases v.len() - i,
    {
        r.push(v[i]);
        i = i + 1;
        assert(v@.take(i as int) == v@.take(i - 1).push(v@[i - 1]));
    }
    assert(v@.take(v.len() as int) == v@);
    r
}


/// The result of replacing, from left to right, every non-overlapping
/// occurrence of the non-empty pattern `pat` in `s` by `rep`.
pub open spec fn replace_all(s: Seq<char>, pat: Seq<char>, rep: Seq<char>) -> Seq<char>
    decreases s.len(),
{
    if pat.len() == 0 || s.len() < pat.len() {
        s
    } else if s.take(pat.len() as int) == pat {
        rep + replace_all(s.skip(pat.len() as int), pat, rep)
    } else {
        seq![s[0]] + replace_all(s.skip(1), pat, rep)
    }
}

/// Whether `needle` occurs in `hay` starting at index `i`.
pub open spec fn occurs_at(hay: Seq<char>, needle: Seq<char>, i: int) -> bool {
    0 <= i && i + needle.len() <= hay.len() && hay.subrange(i, i + needle.len()) == needle
}

/// Whether `needle` occurs somewhere in `hay` (the empty sequence occurs everywhere).
pub open spec fn contains(hay: Seq<char>, needle: Seq<char>) -> bool {
    exists|i: int| occurs_at(hay, needle, i)
}

/// A string in which the pattern does not occur comes out of a replacement
/// unchanged.
pub proof fn law_replace_absent(s: Seq<char>, pat: Seq<char>, rep: Seq<char>)
    requires
        pat.len() > 0,
        !contains(s, pat),
    ensures
        replace_all(s, pat, rep) == s,
    decreases s.len(),
{
    if s.len() >= pat.len() {
        assert(!occurs_at(s, pat, 0));
        assert(s.subrange(0, pat.len() as int) == s.take(pat.len() as int));
        let t = s.skip(1);
        assert(!contains(t, pat)) by {
            if contains(t, pat) {
                let i = choose|i: int| occurs_at(t, pat, i);
                assert(t.subrange(i, i + pat.len()) == s.subrange(i + 1, i + 1 + pat.len()));
                assert(occurs_at(s, pat, i + 1));
            }
        }
        law_replace_absent(t, pat, rep);
        assert(seq![s[0]] + t =~= s);
    }
}

/// Whether `pat` occurs in `s` at index `i`.
fn matches_at(s: &Vec<char>, i: usize, pat: &Vec<char>) -> (r: bool)
    requires
        i + pat.len() <= s.len(),
    ensures
        r == (s@.subrange(i as int, i + pat.len()) == pat@),
{
    let mut k: usize = 0;
    while k < pat.len()
        invariant
            i + pat.len() <= s.len(),
            k <= pat.len(),
            forall|j: int| 0 <= j < k ==> s@[i + j] == pat@[j],
        decreases pat.len() - k,
    {
        if s[i + k] != pat[k] {
            assert(s@.subrange(i as int, i + pat.len())[k as int] != pat@[k as int]);
            return false;
        }
        k = k + 1;
    }
    assert(s@.subrange(i as int, i + pat.len()) =~= pat@);
    true
}

/// Every non-overlapping occurrence of `pat` in `s`, from left to right,
/// replaced by `rep`.
pub fn replace_chars(s: &Vec<char>, pat: &Vec<char>, rep: &Vec<char>) -> (r: Vec<char>)
    requires
        pat.len() > 0,
    ensures
        r@ == replace_all(s@, pat@, rep@),
{
    let mut r: Vec<char> = Vec::new();
    let mut i: usize = 0;
    assert(s@.skip(0) == s@);
    while i < s.len()
        invariant
            pat.len() > 0,
            i <= s.len(),
            r@ + replace_all(s@.skip(i as int), pat@, rep@) == replace_all(s@, pat@, rep@),
        decreases s.len() - i,
    {
        let ghost rest = s@.skip(i as int);
        if pat.len() <= s.len() - i && matches_at(s, i, pat) {
            assert(rest.take(pat.len() as int) == s@.subrange(i as int, i + pat.len()));
            assert(rest.skip(pat.len() as int) == s@.skip(i + pat.len()));
            let mut k: usize = 0;
            let ghost r0 = r@;
            while k < rep.len()
                invariant
                    k <= rep.len(),
                    r@ == r0 + rep@.take(k as int),
                decreases rep.len() - k,
            {
                r.push(rep[k]);
                k = k + 1;
                assert(rep@.take(k as int) == rep@.take(k - 1).push(rep@[k - 1]));
            }
            assert(rep@.take(rep.len() as int) == rep@);
            i = i + pat.len();
        } else {
            if pat.len() <= s.len() - i {
                assert(rest.take(pat.len() as int) == s@.subrange(i as int, i + pat.len()));
            }
            assert(rest.skip(1) == s@.skip(i + 1));
            assert(rest[0] == s@[i as int]);
            r.push(s[i]);
            i = i + 1;
        }
    }
    assert(s@.skip(i as int).len() == 0);
    r
}

/// The character of the decimal digit `d` (for `d < 10`).
pub open spec fn digit_char(d: nat) -> char {
    if d == 0 {
        '0'
    } else if d == 1 {
        '1'
    } else if d == 2 {
        '2'
    } else if d == 3 {
        '3'
    } else if d == 4 {
        '4'
    } else if d == 5 {
        '5'
    } else if d == 6 {
        '6'
    } else if d == 7 {
        '7'
    } else if d == 8 {
        '8'
    } else {
        '9'
    }
}

/// The decimal notation of `n`, without leading zeros.
pub open spec fn nat_decimal(n: nat) -> Seq<char>
    decreases n,
{
    if n < 10 {
        seq![digit_char(n)]
    } else {
        nat_decimal(n / 10) + seq![digit_char(n % 10)]
    }
}

/// The decimal notation of `v`, with a leading `-` when it is negative
/// (what `to_string` gives for a signed integer).
pub open spec fn int_decimal(v: int) -> Seq<char> {
    if v < 0 {
        seq!['-'] + nat_decimal((-v) as nat)
    } else {
        nat_decimal(v as nat)
    }
}

fn digit_of(d: u64) -> (c: char)
    requires
        d < 10,
    ensures
        c == digit_char(d as nat),
{
    if d == 0 {
        '0'
    } else if d == 1 {
        '1'
    } else if d == 2 {
        '2'
    } else if d == 3 {
        '3'
    } else if d == 4 {
        '4'
    } else if d == 5 {
        '5'
    } else if d == 6 {
        '6'
    } else if d == 7 {
        '7'
    } else if d == 8 {
        '8'
    } else {
        '9'
    }
}

/// Appends the decimal notation of `n` to `out`.
fn push_decimal(out: &mut Vec<char>, n: u64)
    ensures
        final(out)@ == old(out)@ + nat_decimal(n as nat),
    decreases n,
{
    if n >= 10 {
        push_decimal(out, n / 10);
    }
    out.push(digit_of(n % 10));
}

/// Appends the decimal notation of `v` to `out`.
pub fn push_int(out: &mut Vec<char>, v: i64)
    ensures
        final(out)@ == old(out)@ + int_decimal(v as int),
{
    if v < 0 {
        out.push('-');
        let m: u64 = (0i128 - (v as i128)) as u64;
        push_decimal(out, m);
    } else {
        push_decimal(out, v as u64);
    }
}

/// The decimal notation of `v`.
pub fn decimal(v: i64) -> (r: Vec<char>)
    ensures
        r@ == int_decimal(v as int),
{
    let mut r: Vec<char> = Vec::new();
    push_int(&mut r, v);
    r
}

/// Appends the characters of `src` to `out`.
pub fn push_all(out: &mut Vec<char>, src: &Vec<char>)
    ensures
        final(out)@ == old(out)@ + src@,
{
    let mut k: usize = 0;
    while k < src.len()
        invariant
            k <= src.len(),
            out@ == old(out)@ + src@.take(k as int),
        decreases src.len() - k,
    {
        out.push(src[k]);
        k = k + 1;
        assert(src@.take(k as int) == src@.take(k - 1).push(src@[k - 1]));
    }
    assert(src@.take(src.len() as int) == src@);
}


/// Whether `c` has the Unicode `White_Space` property (what
/// `char::is_whitespace` tests).
pub open spec fn is_white_space(c: char) -> bool {
    ||| c == '\t'
    ||| c == '\n'
    ||| c == '\x0B'
    ||| c == '\x0C'
    ||| c == '\r'
    ||| c == ' '
    ||| c == '\u{85}'
    ||| c == '\u{A0}'
    ||| c == '\u{1680}'
    ||| ('\u{2000}' <= c && c <= '\u{200A}')
    ||| c == '\u{2028}'
    ||| c == '\u{2029}'
    ||| c == '\u{202F}'
    ||| c == '\u{205F}'
    ||| c == '\u{3000}'
}

pub fn white_space(c: char) -> (r: bool)
    ensures
        r == is_white_space(c),
{
    c == '\t' || c == '\n' || c == '\x0B' || c == '\x0C' || c == '\r' || c == ' ' || c == '\u{85}'
        || c == '\u{A0}' || c == '\u{1680}' || ('\u{2000}' <= c && c <= '\u{200A}') || c
        == '\u{2028}' || c == '\u{2029}' || c == '\u{202F}' || c == '\u{205F}' || c == '\u{3000}'
}

/// `s` without its leading white space.
pub open spec fn trim_start(s: Seq<char>) -> Seq<char>
    decreases s.len(),
{
    if s.len() > 0 && is_white_space(s[0]) {
        trim_start(s.drop_first())
    } else {
        s
    }
}

/// `s` without its trailing white space.
pub open spec fn trim_end(s: Seq<char>) -> Seq<char>
    decreases s.len(),
{
    if s.len() > 0 && is_white_space(s.last()) {
        trim_end(s.drop_last())
    } else {
        s
    }
}

/// `s` without its leading and trailing white space (what `str::trim` gives).
pub open spec fn trim(s: Seq<char>) -> Seq<char> {
    trim_end(trim_start(s))
}

/// Trimming the front of `s` drops exactly its leading white space: a run
/// of white space, after which comes nothing or a character that is not.
pub proof fn lemma_trim_start(s: Seq<char>) -> (a: int)
    ensures
        0 <= a <= s.len(),
        trim_start(s) == s.skip(a),
        forall|i: int| 0 <= i < a ==> is_white_space(#[trigger] s[i]),
        a < s.len() ==> !is_white_space(s[a]),
    decreases s.len(),
{
    if s.len() > 0 && is_white_space(s[0]) {
        let t = s.drop_first();
        let b = lemma_trim_start(t);
        assert(t.skip(b) =~= s.skip(b + 1));
        assert forall|i: int| 0 <= i < b + 1 implies is_white_space(#[trigger] s[i]) by {
            if i > 0 {
                assert(s[i] == t[i - 1]);
            }
        }
        if b + 1 < s.len() {
            assert(s[b + 1] == t[b]);
        }
        b + 1
    } else {
        assert(s.skip(0) =~= s);
        0
    }
}

/// Trimming the end of `s` drops exactly its trailing white space: a run of
/// white space, before which comes nothing or a character that is not.
pub proof fn lemma_trim_end(s: Seq<char>) -> (b: int)
    ensures
        0 <= b <= s.len(),
        trim_end(s) == s.take(b),
        forall|i: int| b <= i < s.len() ==> is_white_space(#[trigger] s[i]),
        b > 0 ==> !is_white_space(s[b - 1]),
    decreases s.len(),
{
    if s.len() > 0 && is_white_space(s.last()) {
        let t = s.drop_last();
        let b = lemma_trim_end(t);
        assert(t.take(b) =~= s.take(b));
        assert forall|i: int| b <= i < s.len() implies is_white_space(#[trigger] s[i]) by {
            if i < s.len() - 1 {
                assert(s[i] == t[i]);
            }
        }
        if b > 0 {
            assert(s[b - 1] == t[b - 1]);
        }
        b
    } else {
        assert(s.take(s.len() as int) =~= s);
        s.len() as int
    }
}

/// `s` without its leading and trailing white space.
pub fn trim_chars(s: &Vec<char>) -> (r: Vec<char>)
    ensures
        r@ == trim(s@),
{
    let mut lo: usize = 0;
    assert(s@.skip(0) == s@);
    while lo < s.len() && white_space(s[lo])
        invariant
            lo <= s.len(),
            trim_start(s@) == trim_start(s@.skip(lo as int)),
        decreases s.len() - lo,
    {
        assert(s@.skip(lo as int).drop_first() == s@.skip(lo + 1));
        lo = lo + 1;
    }
    let ghost t = s@.skip(lo as int);
    assert(trim_start(t) == t);
    let mut hi: usize = s.len();
    assert(t.take(t.len() as int) == t);
    while hi > lo && white_space(s[hi - 1])
        invariant
            lo <= hi <= s.len(),
            t == s@.skip(lo as int),
            trim_end(t) == trim_end(t.take(hi - lo)),
        decreases hi,
    {
        assert(t.take(hi - lo).drop_last() == t.take(hi - 1 - lo));
        hi = hi - 1;
    }
    assert(trim_end(t.take(hi - lo)) == t.take(hi - lo));
    let mut r: Vec<char> = Vec::new();
    let mut k: usize = lo;
    while k < hi
        invariant
            lo <= k <= hi <= s.len(),
            r@ == s@.subrange(lo as int, k as int),
        decreases hi - k,
    {
        r.push(s[k]);
        k = k + 1;
        assert(s@.subrange(lo as int, k as int) == s@.subrange(lo as int, k - 1).push(s@[k - 1]));
    }
    assert(t.take(hi - lo) == s@.subrange(lo as int, hi as int));
    r
}

/// `s` with every NUL character replaced by a space.
pub open spec fn nul_to_space(s: Seq<char>) -> Seq<char> {
    s.map_values(|c: char| if c == '\0' { ' ' } else { c })
}

/// `s` with every NUL character replaced by a space.
pub fn nul_to_space_chars(s: &Vec<char>) -> (r: Vec<char>)
    ensures
        r@ == nul_to_space(s@),
{
    let mut r: Vec<char> = Vec::new();
    let mut k: usize = 0;
    while k < s.len()
        invariant
            k <= s.len(),
            r@ == nul_to_space(s@.take(k as int)),
        decreases s.len() - k,
    {
        let c = if s[k] == '\0' {
            ' '
        } else {
            s[k]
        };
        r.push(c);
        k = k + 1;
        assert(nul_to_space(s@.take(k as int)) =~= nul_to_space(s@.take(k - 1)).push(c));
    }
    assert(s@.take(s.len() as int) == s@);
    r
}

/// Whether `c` is one of the ASCII digits `0` to `9`.
pub open spec fn is_ascii_digit(c: char) -> bool {
    '0' <= c && c <= '9'
}

/// The value of a sequence of decimal digits.
pub open spec fn digits_value(s: Seq<char>) -> int
    decreases s.len(),
{
    if s.len() == 0 {
        0
    } else {
        digits_value(s.drop_last()) * 10 + (s.last() as int - '0' as int)
    }
}

/// Whether every character of `s` is an ASCII digit.
pub open spec fn all_digits(s: Seq<char>) -> bool {
    forall|i: int| 0 <= i < s.len() ==> is_ascii_digit(#[trigger] s[i])
}

/// What `str::parse::<i32>` gives: an optional sign (`+` or `-`), then at
/// least one ASCII digit and nothing else, for a value that fits in an `i32`.
pub open spec fn parse_i32(t: Seq<char>) -> Option<i32> {
    let neg = t.len() > 0 && t[0] == '-';
    let body = if t.len() > 0 && (t[0] == '-' || t[0] == '+') {
        t.drop_first()
    } else {
        t
    };
    if body.len() == 0 || !all_digits(body) {
        None
    } else {
        let v = if neg {
            -digits_value(body)
        } else {
            digits_value(body)
        };
        if i32::MIN <= v <= i32::MAX {
            Some(v as i32)
        } else {
            None
        }
    }
}

proof fn lemma_nat_decimal_digits(n: nat)
    ensures
        nat_decimal(n).len() > 0,
        all_digits(nat_decimal(n)),
        digits_value(nat_decimal(n)) == n,
    decreases n,
{
    let r = (n % 10) as nat;
    assert(digit_char(r) as int - '0' as int == r);
    assert(is_ascii_digit(digit_char(r)));
    if n < 10 {
        assert(n % 10 == n);
        assert(nat_decimal(n).drop_last() =~= Seq::<char>::empty());
        assert(digits_value(Seq::<char>::empty()) == 0);
        assert(digits_value(nat_decimal(n)) == digits_value(Seq::<char>::empty()) * 10 + (
        nat_decimal(n).last() as int - '0' as int));
    } else {
        lemma_nat_decimal_digits(n / 10);
        let d = nat_decimal(n);
        let p = nat_decimal(n / 10);
        assert(d.drop_last() == p);
        assert((n / 10) * 10 + n % 10 == n) by (nonlinear_arith);
        assert(d.last() == digit_char(r));
        assert(digits_value(d) == digits_value(p) * 10 + r);
        assert forall|i: int| 0 <= i < d.len() implies is_ascii_digit(#[trigger] d[i]) by {
            if i < p.len() {
                assert(d[i] == p[i]);
            }
        }
    }
}

/// The decimal notation of an integer holds digits and, in front, at most a
/// minus sign: no other character.
pub proof fn lemma_int_decimal_chars(v: int)
    ensures
        int_decimal(v).len() > 0,
        forall|i: int|
            0 <= i < int_decimal(v).len() ==> is_ascii_digit(#[trigger] int_decimal(v)[i])
                || int_decimal(v)[i] == '-',
{
    if v < 0 {
        let m = (-v) as nat;
        lemma_nat_decimal_digits(m);
        assert forall|i: int| 0 <= i < int_decimal(v).len() implies is_ascii_digit(
            #[trigger] int_decimal(v)[i],
        ) || int_decimal(v)[i] == '-' by {
            if i > 0 {
                assert(int_decimal(v)[i] == nat_decimal(m)[i - 1]);
            }
        }
    } else {
        lemma_nat_decimal_digits(v as nat);
    }
}

/// Parsing the decimal notation of an `i32` gives it back: what a process
/// id is written as, `str::parse` reads back.
pub proof fn law_decimal_parses_back(v: i32)
    ensures
        parse_i32(int_decimal(v as int)) == Some(v),
{
    if v < 0 {
        let m = (-v) as nat;
        lemma_nat_decimal_digits(m);
        let t = int_decimal(v as int);
        assert(t.drop_first() == nat_decimal(m));
    } else {
        let m = v as nat;
        lemma_nat_decimal_digits(m);
        let t = nat_decimal(m);
        assert(is_ascii_digit(t[0]));
    }
}

proof fn lemma_digits_value_prefix(s: Seq<char>, k: int)
    requires
        0 <= k <= s.len(),
        all_digits(s),
    ensures
        digits_value(s) >= digits_value(s.take(k)) >= 0,
    decreases s.len(),
{
    if s.len() > 0 {
        let p = s.drop_last();
        assert(all_digits(p)) by {
            assert forall|i: int| 0 <= i < p.len() implies is_ascii_digit(#[trigger] p[i]) by {
                assert(p[i] == s[i]);
            }
        }
        assert(is_ascii_digit(s[s.len() - 1]));
        if k == s.len() {
            assert(s.take(k) == s);
            lemma_digits_value_prefix(p, 0);
        } else {
            lemma_digits_value_prefix(p, k);
            assert(p.take(k) == s.take(k));
        }
    } else {
        assert(s.take(k) =~= s);
    }
}

/// Parses `t` as `str::parse::<i32>` does.
pub fn parse_i32_chars(t: &Vec<char>) -> (r: Option<i32>)
    ensures
        r == parse_i32(t@),
{
    let neg = t.len() > 0 && t[0] == '-';
    let start: usize = if t.len() > 0 && (t[0] == '-' || t[0] == '+') {
        1
    } else {
        0
    };
    let ghost body = if t@.len() > 0 && (t@[0] == '-' || t@[0] == '+') {
        t@.drop_first()
    } else {
        t@
    };
    assert(body == t@.skip(start as int));
    if start == t.len() {
        return None;
    }
    let mut acc: i64 = 0;
    let mut k: usize = start;
    while k < t.len()
        invariant
            start <= k <= t.len(),
            body == t@.skip(start as int),
            body == (if t@.len() > 0 && (t@[0] == '-' || t@[0] == '+') {
                t@.drop_first()
            } else {
                t@
            }),
            all_digits(body.take(k - start)),
            acc == digits_value(body.take(k - start)),
            0 <= acc <= 2147483648,
        decreases t.len() - k,
    {
        let c = t[k];
        if !('0' <= c && c <= '9') {
            assert(body[k - start] == c);
            assert(!is_ascii_digit(body[k - start]));
            assert(!all_digits(body));
            return None;
        }
        let d = (c as u32 - '0' as u32) as i64;
        assert(body.take(k + 1 - start).drop_last() == body.take(k - start));
        assert(body.take(k + 1 - start).last() == c);
        acc = acc * 10 + d;
        k = k + 1;
        assert(all_digits(body.take(k - start))) by {
            let b = body.take(k - start);
            assert forall|i: int| 0 <= i < b.len() implies is_ascii_digit(#[trigger] b[i]) by {
                if i < b.len() - 1 {
                    assert(b[i] == body.take(k - 1 - start)[i]);
                }
            }
        }
        if acc > 2147483648 {
            proof {
                if all_digits(body) {
                    lemma_digits_value_prefix(body, k - start);
                    assert(digits_value(body) > 2147483648);
                }
            }
            return None;
        }
    }
    assert(body.take(t.len() - start) == body);
    if neg {
        Some((0 - acc) as i32)
    } else if acc > 2147483647 {
        None
    } else {
        Some(acc as i32)
    }
}

} // verus!
