//! Character-level text handling: the models of `str::lines`, `str::split`,
//! `str::trim` and integer `str::parse` that the rest of the library speaks in,
//! and executable functions proved against them.
use vstd::prelude::*;

verus! {

/// What splits or trims a text: one given character, or any Unicode white space.
#[derive(Clone, Copy, PartialEq, Eq, Debug)]
pub enum Sep {
    Char(char),
    Whitespace,
}

/// Unicode `White_Space`, the property that `char::is_whitespace` tests.
pub open spec fn is_ws(c: char) -> bool {
    ||| ('\u{9}' <= c && c <= '\u{d}')
    ||| c == ' '
    ||| c == '\u{85}'
    ||| c == '\u{a0}'
    ||| c == '\u{1680}'
    ||| ('\u{2000}' <= c && c <= '\u{200a}')
    ||| c == '\u{2028}'
    ||| c == '\u{2029}'
    ||| c == '\u{202f}'
    ||| c == '\u{205f}'
    ||| c == '\u{3000}'
}

pub open spec fn sep_matches(sep: Sep, c: char) -> bool {
    match sep {
        Sep::Char(d) => c == d,
        Sep::Whitespace => is_ws(c),
    }
}

/// `char::is_whitespace`.
pub fn is_whitespace(c: char) -> (r: bool)
    ensures
        r == is_ws(c),
{
    ('\u{9}' <= c && c <= '\u{d}') || c == ' ' || c == '\u{85}' || c == '\u{a0}' || c
        == '\u{1680}' || ('\u{2000}' <= c && c <= '\u{200a}') || c == '\u{2028}' || c
        == '\u{2029}' || c == '\u{202f}' || c == '\u{205f}' || c == '\u{3000}'
}

pub fn matches_sep(sep: Sep, c: char) -> (r: bool)
    ensures
        r == sep_matches(sep, c),
{
    match sep {
        Sep::Char(d) => c == d,
        Sep::Whitespace => is_whitespace(c),
    }
}

/// The pieces of `s` between separators, as `str::split` yields them: never
/// empty, and `k` separators give `k + 1` pieces.
pub open spec fn split_by(s: Seq<char>, sep: Sep) -> Seq<Seq<char>>
    decreases s.len(),
{
    if s.len() == 0 {
        seq![Seq::<char>::empty()]
    } else {
        let prev = split_by(s.drop_last(), sep);
        if sep_matches(sep, s.last()) {
            prev.push(Seq::<char>::empty())
        } else {
            prev.update(prev.len() - 1, prev.last().push(s.last()))
        }
    }
}

/// A line without the `'\r'` of a `"\r\n"` ending.
pub open spec fn strip_cr(l: Seq<char>) -> Seq<char> {
    if l.len() > 0 && l.last() == '\r' {
        l.drop_last()
    } else {
        l
    }
}

/// The lines of `s` as `str::lines` yields them: split at `'\n'`, a line that
/// ended in `"\r\n"` loses its `'\r'`, and a final empty piece is no line.
pub open spec fn lines(s: Seq<char>) -> Seq<Seq<char>> {
    let p = split_by(s, Sep::Char('\n'));
    let body = p.drop_last().map_values(|l: Seq<char>| strip_cr(l));
    if p.last().len() == 0 {
        body
    } else {
        body.push(p.last())
    }
}

pub open spec fn trim_start_by(s: Seq<char>, sep: Sep) -> Seq<char>
    decreases s.len(),
{
    if s.len() > 0 && sep_matches(sep, s[0]) {
        trim_start_by(s.drop_first(), sep)
    } else {
        s
    }
}

pub open spec fn trim_end_by(s: Seq<char>, sep: Sep) -> Seq<char>
    decreases s.len(),
{
    if s.len() > 0 && sep_matches(sep, s.last()) {
        trim_end_by(s.drop_last(), sep)
    } else {
        s
    }
}

/// `s` without leading and trailing characters that match `sep`
/// (`str::trim` for white space, `str::trim_matches` for one character).
pub open spec fn trim_by(s: Seq<char>, sep: Sep) -> Seq<char> {
    trim_end_by(trim_start_by(s, sep), sep)
}

/// `str::trim`.
pub open spec fn trim(s: Seq<char>) -> Seq<char> {
    trim_by(s, Sep::Whitespace)
}

pub proof fn lemma_split_by_len(s: Seq<char>, sep: Sep)
    ensures
        split_by(s, sep).len() >= 1,
    decreases s.len(),
{
    if s.len() > 0 {
        lemma_split_by_len(s.drop_last(), sep);
    }
}

/// A copy of `s[a..b]`.
pub fn subvec(s: &Vec<char>, a: usize, b: usize) -> (r: Vec<char>)
    requires
        a <= b <= s.len(),
    ensures
        r@ == s@.subrange(a as int, b as int),
{
    let mut r: Vec<char> = Vec::new();
    let mut i = a;
    while i < b
        invariant
            a <= i <= b <= s.len(),
            r@ == s@.subrange(a as int, i as int),
        decreases b - i,
    {
        r.push(s[i]);
        i += 1;
    }
    r
}

/// The characters of `s`, in order.
pub fn chars_of(s: &str) -> (r: Vec<char>)
    ensures
        r@ == s@,
{
    let mut r: Vec<char> = Vec::new();
    for c in it: s.chars()
        invariant
            r@ == it.seq().take(it.index() as int),
    {
        r.push(c);
    }
    r
}

/// `str::split` with a character or with white space as separator.
pub fn split(s: &Vec<char>, sep: Sep) -> (r: Vec<Vec<char>>)
    ensures
        r.len() == split_by(s@, sep).len(),
        forall|i: int| 0 <= i < r.len() ==> #[trigger] r@[i]@ == split_by(s@, sep)[i],
{
    let mut done: Vec<Vec<char>> = Vec::new();
    let mut cur: Vec<char> = Vec::new();
    let mut i: usize = 0;
    while i < s.len()
        invariant
            i <= s.len(),
            done.len() + 1 == split_by(s@.take(i as int), sep).len(),
            forall|k: int|
                0 <= k < done.len() ==> #[trigger] done@[k]@ == split_by(s@.take(i as int), sep)[k],
            cur@ == split_by(s@.take(i as int), sep).last(),
        decreases s.len() - i,
    {
        let c = s[i];
        proof {
            assert(s@.take(i + 1).drop_last() == s@.take(i as int));
            lemma_split_by_len(s@.take(i as int), sep);
        }
        if matches_sep(sep, c) {
            done.push(cur);
            cur = Vec::new();
        } else {
            cur.push(c);
        }
        i += 1;
    }
    proof {
        assert(s@.take(s.len() as int) == s@);
    }
    done.push(cur);
    done
}

/// `str::trim` (white space) or `str::trim_matches` (one character).
pub fn trim_chars(s: &Vec<char>, sep: Sep) -> (r: Vec<char>)
    ensures
        r@ == trim_by(s@, sep),
{
    let n = s.len();
    let mut i: usize = 0;
    proof {
        assert(s@.skip(0) == s@);
    }
    while i < n && matches_sep(sep, s[i])
        invariant
            i <= n == s.len(),
            trim_start_by(s@, sep) == trim_start_by(s@.skip(i as int), sep),
        decreases n - i,
    {
        proof {
            assert(s@.skip(i as int).drop_first() == s@.skip(i + 1));
        }
        i += 1;
    }
    let mut j: usize = n;
    while j > i && matches_sep(sep, s[j - 1])
        invariant
            i <= j <= n == s.len(),
            trim_start_by(s@, sep) == s@.skip(i as int),
            trim_by(s@, sep) == trim_end_by(s@.subrange(i as int, j as int), sep),
        decreases j,
    {
        proof {
            assert(s@.subrange(i as int, j as int).drop_last() == s@.subrange(
                i as int,
                j - 1,
            ));
        }
        j -= 1;
    }
    subvec(s, i, j)
}

/// `str::lines`.
pub fn split_lines(s: &Vec<char>) -> (r: Vec<Vec<char>>)
    ensures
        r.len() == lines(s@).len(),
        forall|i: int| 0 <= i < r.len() ==> #[trigger] r@[i]@ == lines(s@)[i],
{
    let p = split(s, Sep::Char('\n'));
    proof {
        lemma_split_by_len(s@, Sep::Char('\n'));
    }
    let ghost ps = split_by(s@, Sep::Char('\n'));
    let n = p.len();
    let mut r: Vec<Vec<char>> = Vec::new();
    let mut k: usize = 0;
    while k + 1 < n
        invariant
            n == p.len() == ps.len() >= 1,
            forall|i: int| 0 <= i < p.len() ==> #[trigger] p@[i]@ == ps[i],
            k + 1 <= n,
            r.len() == k,
            forall|i: int|
                0 <= i < k ==> #[trigger] r@[i]@ == ps.drop_last().map_values(
                    |l: Seq<char>| strip_cr(l),
                )[i],
        decreases n - k,
    {
        let piece = &p[k];
        let len = piece.len();
        let line = if len > 0 && piece[len - 1] == '\r' {
            subvec(piece, 0, len - 1)
        } else {
            subvec(piece, 0, len)
        };
        proof {
            assert(piece@.subrange(0, len as int) == piece@);
            assert(len > 0 ==> piece@.subrange(0, len - 1) == piece@.drop_last());
        }
        r.push(line);
        k += 1;
    }
    let last = &p[n - 1];
    if last.len() > 0 {
        let l = subvec(last, 0, last.len());
        proof {
            assert(last@.subrange(0, last.len() as int) == last@);
        }
        r.push(l);
    }
    r
}

pub open spec fn is_digit(c: char) -> bool {
    '0' <= c && c <= '9'
}

pub open spec fn digit_val(c: char) -> nat {
    (c as int - '0' as int) as nat
}

pub open spec fn all_digits(s: Seq<char>) -> bool {
    forall|i: int| 0 <= i < s.len() ==> is_digit(#[trigger] s[i])
}

/// The number that a string of decimal digits denotes.
pub open spec fn digits_value(s: Seq<char>) -> nat
    decreases s.len(),
{
    if s.len() == 0 {
        0
    } else {
        digits_value(s.drop_last()) * 10 + digit_val(s.last())
    }
}

/// The integer that `str::parse` reads from `s` for an integer type, before
/// the range check: an optional sign (`'-'` only where `signed`), then one or
/// more decimal digits and nothing else.
pub open spec fn numeral_value(s: Seq<char>, signed: bool) -> Option<int> {
    if s.len() > 0 && (s[0] == '+' || (signed && s[0] == '-')) {
        let d = s.drop_first();
        if d.len() > 0 && all_digits(d) {
            if s[0] == '-' {
                Some(-(digits_value(d) as int))
            } else {
                Some(digits_value(d) as int)
            }
        } else {
            None
        }
    } else if s.len() > 0 && all_digits(s) {
        Some(digits_value(s) as int)
    } else {
        None
    }
}

/// `str::parse` for an integer type whose values are `lo..=hi`.
pub open spec fn parse_in_range(s: Seq<char>, signed: bool, lo: int, hi: int) -> Option<int> {
    match numeral_value(s, signed) {
        Some(v) => if lo <= v && v <= hi {
            Some(v)
        } else {
            None
        },
        None => None,
    }
}

pub open spec fn parse_i32_spec(s: Seq<char>) -> Option<i32> {
    match parse_in_range(s, true, i32::MIN as int, i32::MAX as int) {
        Some(v) => Some(v as i32),
        None => None,
    }
}

pub open spec fn parse_u32_spec(s: Seq<char>) -> Option<u32> {
    match parse_in_range(s, false, 0, u32::MAX as int) {
        Some(v) => Some(v as u32),
        None => None,
    }
}

pub open spec fn parse_u8_spec(s: Seq<char>) -> Option<u8> {
    match parse_in_range(s, false, 0, u8::MAX as int) {
        Some(v) => Some(v as u8),
        None => None,
    }
}

pub open spec fn parse_u64_spec(s: Seq<char>) -> Option<u64> {
    match parse_in_range(s, false, 0, u64::MAX as int) {
        Some(v) => Some(v as u64),
        None => None,
    }
}

pub open spec fn parse_usize_spec(s: Seq<char>) -> Option<usize> {
    match parse_in_range(s, false, 0, usize::MAX as int) {
        Some(v) => Some(v as usize),
        None => None,
    }
}

pub open spec fn parse_isize_spec(s: Seq<char>) -> Option<isize> {
    match parse_in_range(s, true, isize::MIN as int, isize::MAX as int) {
        Some(v) => Some(v as isize),
        None => None,
    }
}

/// Magnitudes at or above this bound are out of range for every integer type parsed here.
pub open spec fn magnitude_cap() -> int {
    0x1_0000_0000_0000_0000
}

pub open spec fn capped(v: int) -> int {
    if v > magnitude_cap() {
        magnitude_cap()
    } else if v < -magnitude_cap() {
        -magnitude_cap()
    } else {
        v
    }
}

fn digits_value_capped(s: &Vec<char>, from: usize) -> (r: Option<u128>)
    requires
        from <= s.len(),
    ensures
        ({
            let d = s@.skip(from as int);
            match r {
                Some(v) => all_digits(d) && v as int == if digits_value(d) > magnitude_cap() {
                    magnitude_cap()
                } else {
                    digits_value(d) as int
                },
                None => !all_digits(d),
            }
        }),
{
    let cap: u128 = 0x1_0000_0000_0000_0000;
    let mut acc: u128 = 0;
    let mut i = from;
    proof {
        assert(s@.subrange(from as int, from as int) == Seq::<char>::empty());
    }
    while i < s.len()
        invariant
            from <= i <= s.len(),
            cap == magnitude_cap(),
            all_digits(s@.subrange(from as int, i as int)),
            acc as int == if digits_value(s@.subrange(from as int, i as int)) > magnitude_cap() {
                magnitude_cap()
            } else {
                digits_value(s@.subrange(from as int, i as int)) as int
            },
        decreases s.len() - i,
    {
        let c = s[i];
        if !('0' <= c && c <= '9') {
            proof {
                assert(s@.skip(from as int)[i - from] == c);
            }
            return None;
        }
        let d = (c as u32 - '0' as u32) as u128;
        let ghost prefix = s@.subrange(from as int, i as int);
        let ghost next = s@.subrange(from as int, i + 1);
        proof {
            assert(next.drop_last() == prefix);
            assert(next.last() == c);
            assert(digits_value(next) == digits_value(prefix) * 10 + digit_val(c));
            assert(forall|k: int| 0 <= k < next.len() ==> #[trigger] next[k] == if k < prefix.len() {
                prefix[k]
            } else {
                c
            });
        }
        if acc >= cap {
            acc = cap;
        } else {
            let v = acc * 10 + d;
            acc = if v > cap {
                cap
            } else {
                v
            };
        }
        i += 1;
    }
    proof {
        assert(s@.subrange(from as int, s.len() as int) == s@.skip(from as int));
    }
    Some(acc)
}

/// Reads an integer as `str::parse` does, with the magnitude capped at 2^64.
pub fn parse_numeral(s: &Vec<char>, signed: bool) -> (r: Option<i128>)
    ensures
        r == match numeral_value(s@, signed) {
            Some(v) => Some(capped(v) as i128),
            None => None::<i128>,
        },
{
    if s.len() == 0 {
        return None;
    }
    let first = s[0];
    if first == '+' || (signed && first == '-') {
        if s.len() == 1 {
            proof {
                assert(s@.drop_first().len() == 0);
            }
            return None;
        }
        proof {
            assert(s@.skip(1) == s@.drop_first());
        }
        match digits_value_capped(s, 1) {
            Some(m) => {
                if first == '-' {
                    Some(-(m as i128))
                } else {
                    Some(m as i128)
                }
            },
            None => None,
        }
    } else {
        proof {
            assert(s@.skip(0) == s@);
        }
        match digits_value_capped(s, 0) {
            Some(m) => Some(m as i128),
            None => None,
        }
    }
}

pub fn parse_i32(s: &Vec<char>) -> (r: Option<i32>)
    ensures
        r == parse_i32_spec(s@),
{
    match parse_numeral(s, true) {
        Some(v) => if i32::MIN as i128 <= v && v <= i32::MAX as i128 {
            Some(v as i32)
        } else {
            None
        },
        None => None,
    }
}

pub fn parse_u32(s: &Vec<char>) -> (r: Option<u32>)
    ensures
        r == parse_u32_spec(s@),
{
    match parse_numeral(s, false) {
        Some(v) => if 0 <= v && v <= u32::MAX as i128 {
            Some(v as u32)
        } else {
            None
        },
        None => None,
    }
}

pub fn parse_u8(s: &Vec<char>) -> (r: Option<u8>)
    ensures
        r == parse_u8_spec(s@),
{
    match parse_numeral(s, false) {
        Some(v) => if 0 <= v && v <= u8::MAX as i128 {
            Some(v as u8)
        } else {
            None
        },
        None => None,
    }
}

pub fn parse_u64(s: &Vec<char>) -> (r: Option<u64>)
    ensures
        r == parse_u64_spec(s@),
{
    match parse_numeral(s, false) {
        Some(v) => if 0 <= v && v <= u64::MAX as i128 {
            Some(v as u64)
        } else {
            None
        },
        None => None,
    }
}

pub fn parse_usize(s: &Vec<char>) -> (r: Option<usize>)
    ensures
        r == parse_usize_spec(s@),
{
    match parse_numeral(s, false) {
        Some(v) => if 0 <= v && v <= usize::MAX as i128 {
            Some(v as usize)
        } else {
            None
        },
        None => None,
    }
}

pub fn parse_isize(s: &Vec<char>) -> (r: Option<isize>)
    ensures
        r == parse_isize_spec(s@),
{
    match parse_numeral(s, true) {
        Some(v) => if isize::MIN as i128 <= v && v <= isize::MAX as i128 {
            Some(v as isize)
        } else {
            None
        },
        None => None,
    }
}

pub open spec fn digit_char(d: nat) -> char {
    (d + '0' as int) as char
}

/// The decimal numeral of `n`, without sign or leading zeros.
pub open spec fn nat_decimal(n: nat) -> Seq<char>
    decreases n,
{
    if n < 10 {
        seq![digit_char(n)]
    } else {
        nat_decimal(n / 10).push(digit_char(n % 10))
    }
}

/// The decimal numeral of `v` as `i32`'s `Display` writes it.
pub open spec fn int_decimal(v: int) -> Seq<char> {
    if v < 0 {
        seq!['-'] + nat_decimal((-v) as nat)
    } else {
        nat_decimal(v as nat)
    }
}

pub proof fn lemma_digit_char(d: nat)
    requires
        d < 10,
    ensures
        is_digit(digit_char(d)),
        digit_val(digit_char(d)) == d,
{
    assert(digit_char(d) as int == d + 48);
}

pub proof fn lemma_nat_decimal(n: nat)
    ensures
        nat_decimal(n).len() > 0,
        all_digits(nat_decimal(n)),
        digits_value(nat_decimal(n)) == n,
    decreases n,
{
    lemma_digit_char(n % 10);
    if n < 10 {
        let q = nat_decimal(n);
        assert(q.drop_last() == Seq::<char>::empty());
        assert(digits_value(q) == digits_value(q.drop_last()) * 10 + digit_val(q.last()));
    }
    if n >= 10 {
        lemma_nat_decimal(n / 10);
        let p = nat_decimal(n / 10);
        let q = p.push(digit_char(n % 10));
        assert(q.drop_last() == p);
        assert(forall|i: int| 0 <= i < q.len() ==> #[trigger] q[i] == if i < p.len() {
            p[i]
        } else {
            digit_char(n % 10)
        });
        assert(nat_decimal(n) == q);
        assert(q.last() == digit_char(n % 10));
        assert(digits_value(q) == digits_value(p) * 10 + digit_val(q.last()));
        assert(n == (n / 10) * 10 + n % 10) by (nonlinear_arith);
    }
}

/// What `int_decimal` writes, `str::parse` reads back.
pub proof fn lemma_int_decimal_parses(v: int)
    ensures
        numeral_value(int_decimal(v), true) == Some(v),
        int_decimal(v).len() > 0,
        is_digit(int_decimal(v).last()),
        forall|i: int| 0 <= i < int_decimal(v).len() ==> {
            let c = #[trigger] int_decimal(v)[i];
            is_digit(c) || (i == 0 && c == '-')
        },
{
    if v < 0 {
        let m = (-v) as nat;
        lemma_nat_decimal(m);
        let s = int_decimal(v);
        assert(s.drop_first() == nat_decimal(m));
        assert(s[0] == '-');
        assert(s.last() == nat_decimal(m).last());
        assert forall|i: int| 0 <= i < s.len() implies {
            let c = #[trigger] s[i];
            is_digit(c) || (i == 0 && c == '-')
        } by {
            if i > 0 {
                assert(s[i] == nat_decimal(m)[i - 1]);
            }
        }
    } else {
        lemma_nat_decimal(v as nat);
        let s = nat_decimal(v as nat);
        assert(is_digit(s[0]));
        assert(is_digit(s[s.len() - 1]));
    }
}

fn push_nat_decimal(out: &mut Vec<char>, n: u64)
    ensures
        final(out)@ == old(out)@ + nat_decimal(n as nat),
    decreases n,
{
    if n >= 10 {
        push_nat_decimal(out, n / 10);
    }
    let d = (n % 10) as u8;
    let c = (d + 48u8) as char;
    out.push(c);
    proof {
        assert(nat_decimal(n as nat) == if n < 10 {
            Seq::<char>::empty().push(digit_char(n as nat))
        } else {
            nat_decimal((n / 10) as nat).push(digit_char((n % 10) as nat))
        });
    }
}

/// The decimal numeral of `v` (the `Display` of an unsigned integer).
pub fn decimal_u64(v: u64) -> (r: Vec<char>)
    ensures
        r@ == int_decimal(v as int),
{
    let mut out: Vec<char> = Vec::new();
    push_nat_decimal(&mut out, v);
    out
}

/// The decimal numeral of `v` (`i32`'s `Display`).
pub fn decimal_i32(v: i32) -> (r: Vec<char>)
    ensures
        r@ == int_decimal(v as int),
{
    let mut out: Vec<char> = Vec::new();
    if v < 0 {
        out.push('-');
        let m: u64 = (-(v as i64)) as u64;
        push_nat_decimal(&mut out, m);
    } else {
        push_nat_decimal(&mut out, v as u64);
    }
    out
}

/// `needle` stands in `hay` from position `i` on.
pub open spec fn occurs_at(hay: Seq<char>, needle: Seq<char>, i: int) -> bool {
    0 <= i && i + needle.len() <= hay.len() && hay.subrange(i, i + needle.len()) == needle
}

/// `str::contains` with a string pattern.
pub open spec fn contains_seq(hay: Seq<char>, needle: Seq<char>) -> bool {
    exists|i: int| occurs_at(hay, needle, i)
}

fn occurs_at_exec(hay: &Vec<char>, needle: &Vec<char>, i: usize) -> (r: bool)
    requires
        i + needle.len() <= hay.len(),
    ensures
        r == occurs_at(hay@, needle@, i as int),
{
    let mut k: usize = 0;
    while k < needle.len()
        invariant
            i + needle.len() <= hay.len(),
            k <= needle.len(),
            forall|j: int| 0 <= j < k ==> hay@[i + j] == needle@[j],
        decreases needle.len() - k,
    {
        if hay[i + k] != needle[k] {
            proof {
                assert(hay@.subrange(i as int, i + needle.len())[k as int] != needle@[k as int]);
            }
            return false;
        }
        k += 1;
    }
    proof {
        assert(hay@.subrange(i as int, i + needle.len()) == needle@);
    }
    true
}

/// `str::contains`.
pub fn contains(hay: &Vec<char>, needle: &Vec<char>) -> (r: bool)
    ensures
        r == contains_seq(hay@, needle@),
{
    if needle.len() > hay.len() {
        return false;
    }
    let last = hay.len() - needle.len();
    let mut i: usize = 0;
    loop
        invariant
            i <= last,
            last + needle.len() == hay.len(),
            forall|j: int| 0 <= j < i ==> !occurs_at(hay@, needle@, j),
        decreases last - i,
    {
        if occurs_at_exec(hay, needle, i) {
            return true;
        }
        if i == last {
            return false;
        }
        i += 1;
    }
}

/// `str::starts_with`.
pub fn starts_with(hay: &Vec<char>, prefix: &Vec<char>) -> (r: bool)
    ensures
        r == prefix@.is_prefix_of(hay@),
{
    if prefix.len() > hay.len() {
        return false;
    }
    let r = occurs_at_exec(hay, prefix, 0);
    proof {
        if r {
            assert(hay@.subrange(0, prefix.len() as int) == prefix@);
            assert forall|j: int| 0 <= j < prefix.len() implies prefix@[j] == hay@[j] by {
                assert(hay@.subrange(0, prefix.len() as int)[j] == hay@[j]);
            }
        } else {
            if prefix@.is_prefix_of(hay@) {
                assert(hay@.subrange(0, prefix.len() as int) == prefix@);
            }
        }
    }
    r
}

/// A `String` holding `chars`: `String::from_iter` over the characters.
#[verifier::external_body]
pub(crate) fn string_from(chars: &Vec<char>) -> (r: String)
    ensures
        r@ == chars@,
{
    String::from_iter(chars)
}

/// `out` followed by `s`.
pub fn append_chars(out: &mut Vec<char>, s: &Vec<char>)
    ensures
        final(out)@ == old(out)@ + s@,
{
    let ghost start = out@;
    let mut i: usize = 0;
    while i < s.len()
        invariant
            i <= s.len(),
            out@ == start + s@.take(i as int),
        decreases s.len() - i,
    {
        out.push(s[i]);
        i += 1;
        proof {
            assert(s@.take(i as int) == s@.take(i - 1).push(s@[i - 1]));
        }
    }
    proof {
        assert(s@.take(s.len() as int) == s@);
    }
}

/// Equality of two character strings.
pub fn chars_eq(a: &Vec<char>, b: &Vec<char>) -> (r: bool)
    ensures
        r == (a@ == b@),
{
    if a.len() != b.len() {
        return false;
    }
    let mut i: usize = 0;
    while i < a.len()
        invariant
            a.len() == b.len(),
            i <= a.len(),
            forall|j: int| 0 <= j < i ==> a@[j] == b@[j],
        decreases a.len() - i,
    {
        if a[i] != b[i] {
            return false;
        }
        i += 1;
    }
    proof {
        assert(a@ =~= b@);
    }
    true
}

/// `ls` joined with `'\n'` between neighbours (`join("\n")`).
pub open spec fn join_lines(ls: Seq<Seq<char>>) -> Seq<char>
    decreases ls.len(),
{
    if ls.len() == 0 {
        Seq::empty()
    } else if ls.len() == 1 {
        ls[0]
    } else {
        join_lines(ls.drop_last()) + seq!['\n'] + ls.last()
    }
}

pub open spec fn free_of(s: Seq<char>, sep: Sep) -> bool {
    forall|i: int| 0 <= i < s.len() ==> !sep_matches(sep, #[trigger] s[i])
}

/// The pieces hold no separator; a single piece is the whole text; the first
/// piece is a prefix, followed by a separator where more pieces follow.
pub proof fn lemma_split_by_pieces(s: Seq<char>, sep: Sep)
    ensures
        split_by(s, sep).len() >= 1,
        forall|i: int| 0 <= i < split_by(s, sep).len() ==> free_of(#[trigger] split_by(s, sep)[i], sep),
        split_by(s, sep).len() == 1 ==> split_by(s, sep)[0] == s,
        split_by(s, sep)[0].is_prefix_of(s),
        split_by(s, sep).len() >= 2 ==> split_by(s, sep)[0].len() < s.len() && sep_matches(
            sep,
            s[split_by(s, sep)[0].len() as int],
        ),
    decreases s.len(),
{
    if s.len() > 0 {
        let d = s.drop_last();
        lemma_split_by_pieces(d, sep);
        let p = split_by(d, sep);
        let q = split_by(s, sep);
        assert forall|i: int| 0 <= i < q.len() implies free_of(#[trigger] q[i], sep) by {
            if i < p.len() - 1 {
                assert(q[i] == p[i]);
            } else if i == p.len() - 1 {
                if !sep_matches(sep, s.last()) {
                    assert(q[i] == p[i].push(s.last()));
                    assert(free_of(p[i], sep));
                    assert forall|j: int| 0 <= j < q[i].len() implies !sep_matches(
                        sep,
                        #[trigger] q[i][j],
                    ) by {
                        if j < p[i].len() {
                            assert(q[i][j] == p[i][j]);
                        }
                    }
                } else {
                    assert(q[i] == p[i]);
                }
            } else {
                assert(q[i] == Seq::<char>::empty());
            }
        }
        if p.len() == 1 && !sep_matches(sep, s.last()) {
            assert(q[0] == d.push(s.last()));
            assert(d.push(s.last()) == s);
        }
        if p.len() >= 2 {
            assert(q[0] == p[0]);
        }
    } else {
        assert(split_by(s, sep)[0] == Seq::<char>::empty());
    }
}

pub proof fn lemma_split_by_free(s: Seq<char>, sep: Sep)
    requires
        free_of(s, sep),
    ensures
        split_by(s, sep) == seq![s],
    decreases s.len(),
{
    if s.len() > 0 {
        let d = s.drop_last();
        assert(free_of(d, sep)) by {
            assert forall|i: int| 0 <= i < d.len() implies !sep_matches(sep, #[trigger] d[i]) by {
                assert(d[i] == s[i]);
            }
        }
        lemma_split_by_free(d, sep);
        assert(!sep_matches(sep, s[s.len() - 1]));
        assert(d.push(s.last()) == s);
        let p = split_by(d, sep);
        assert(p.update(p.len() - 1, p.last().push(s.last())) =~= seq![s]);
    } else {
        assert(s == Seq::<char>::empty());
    }
}

/// Splitting at a separator splits the pieces apart.
pub proof fn lemma_split_by_concat(a: Seq<char>, c: char, b: Seq<char>, sep: Sep)
    requires
        sep_matches(sep, c),
    ensures
        split_by(a + seq![c] + b, sep) == split_by(a, sep) + split_by(b, sep),
    decreases b.len(),
{
    let s = a + seq![c] + b;
    lemma_split_by_len(a, sep);
    if b.len() == 0 {
        assert(s.drop_last() == a);
        assert(split_by(b, sep) == seq![Seq::<char>::empty()]);
        assert(split_by(a, sep).push(Seq::<char>::empty()) =~= split_by(a, sep) + split_by(b, sep));
    } else {
        let b1 = b.drop_last();
        lemma_split_by_concat(a, c, b1, sep);
        lemma_split_by_len(b1, sep);
        assert(s.drop_last() == a + seq![c] + b1);
        assert(s.last() == b.last());
        let pa = split_by(a, sep);
        let pb1 = split_by(b1, sep);
        if sep_matches(sep, b.last()) {
            assert((pa + pb1).push(Seq::<char>::empty()) =~= pa + pb1.push(Seq::<char>::empty()));
        } else {
            let pp = pa + pb1;
            assert(pp.update(pp.len() - 1, pp.last().push(b.last())) =~= pa + pb1.update(
                pb1.len() - 1,
                pb1.last().push(b.last()),
            ));
        }
    }
}

/// The pieces between `'\n'` of joined lines are the lines themselves.
pub proof fn lemma_split_join_lines(ls: Seq<Seq<char>>)
    requires
        ls.len() >= 1,
        forall|i: int| 0 <= i < ls.len() ==> free_of(#[trigger] ls[i], Sep::Char('\n')),
    ensures
        split_by(join_lines(ls), Sep::Char('\n')) == ls,
    decreases ls.len(),
{
    if ls.len() == 1 {
        lemma_split_by_free(ls[0], Sep::Char('\n'));
        assert(seq![ls[0]] =~= ls);
    } else {
        let d = ls.drop_last();
        assert forall|i: int| 0 <= i < d.len() implies free_of(#[trigger] d[i], Sep::Char('\n')) by {
            assert(d[i] == ls[i]);
        }
        lemma_split_join_lines(d);
        lemma_split_by_concat(join_lines(d), '\n', ls.last(), Sep::Char('\n'));
        lemma_split_by_free(ls.last(), Sep::Char('\n'));
        assert(d + seq![ls.last()] =~= ls);
    }
}

pub proof fn lemma_trim_start_push(x: Seq<char>, c: char, sep: Sep)
    ensures
        trim_start_by(x.push(c), sep) == if trim_start_by(x, sep).len() > 0 {
            trim_start_by(x, sep).push(c)
        } else {
            trim_start_by(seq![c], sep)
        },
    decreases x.len(),
{
    if x.len() > 0 {
        assert(x.push(c)[0] == x[0]);
        assert(x.push(c).drop_first() == x.drop_first().push(c));
        if sep_matches(sep, x[0]) {
            lemma_trim_start_push(x.drop_first(), c, sep);
        }
    } else {
        assert(x.push(c) == seq![c]);
    }
}

pub proof fn lemma_trim_start_empty_or_kept(x: Seq<char>, sep: Sep)
    ensures
        trim_start_by(x, sep).len() == 0 || !sep_matches(sep, trim_start_by(x, sep)[0]),
        trim_start_by(x, sep).is_suffix_of(x),
    decreases x.len(),
{
    if x.len() > 0 && sep_matches(sep, x[0]) {
        lemma_trim_start_empty_or_kept(x.drop_first(), sep);
        let t = trim_start_by(x, sep);
        assert forall|i: int| 0 <= i < t.len() implies t[i] == x[x.len() - t.len() + i] by {
            assert(x.drop_first()[x.drop_first().len() - t.len() + i] == x[x.len() - t.len() + i]);
        }
    }
}

pub proof fn lemma_trim_end_kept(x: Seq<char>, sep: Sep)
    ensures
        trim_end_by(x, sep).len() == 0 || !sep_matches(sep, trim_end_by(x, sep).last()),
        trim_end_by(x, sep).is_prefix_of(x),
    decreases x.len(),
{
    if x.len() > 0 && sep_matches(sep, x.last()) {
        lemma_trim_end_kept(x.drop_last(), sep);
        let t = trim_end_by(x, sep);
        assert forall|i: int| 0 <= i < t.len() implies t[i] == x[i] by {
            assert(x.drop_last()[i] == x[i]);
        }
    }
}

/// A trimmed text begins and ends with characters that are not trimmed, and
/// trimming what ends in one more trimmed character changes nothing.
pub proof fn lemma_trim_ends(x: Seq<char>, sep: Sep)
    ensures
        trim_by(x, sep).len() > 0 ==> !sep_matches(sep, trim_by(x, sep)[0]) && !sep_matches(
            sep,
            trim_by(x, sep).last(),
        ),
{
    let y = trim_start_by(x, sep);
    lemma_trim_start_empty_or_kept(x, sep);
    lemma_trim_end_kept(y, sep);
    let t = trim_end_by(y, sep);
    if t.len() > 0 {
        assert(t[0] == y[0]);
    }
}

pub proof fn lemma_trim_push_trimmed(x: Seq<char>, c: char, sep: Sep)
    requires
        sep_matches(sep, c),
    ensures
        trim_by(x.push(c), sep) == trim_by(x, sep),
{
    lemma_trim_start_push(x, c, sep);
    let y = trim_start_by(x, sep);
    if y.len() > 0 {
        assert(y.push(c).drop_last() == y);
    } else {
        assert(seq![c].drop_first() == Seq::<char>::empty());
        assert(trim_start_by(seq![c], sep) == trim_start_by(Seq::<char>::empty(), sep));
    }
}

/// A text that begins and ends with untrimmed characters is its own trim.
pub proof fn lemma_trim_identity(x: Seq<char>, sep: Sep)
    requires
        x.len() > 0,
        !sep_matches(sep, x[0]),
        !sep_matches(sep, x.last()),
    ensures
        trim_by(x, sep) == x,
{
}

/// Splitting keeps out what the text keeps out.
pub proof fn lemma_split_by_keeps_free(s: Seq<char>, sep: Sep, other: Sep)
    requires
        free_of(s, other),
    ensures
        forall|i: int| 0 <= i < split_by(s, sep).len() ==> free_of(#[trigger] split_by(s, sep)[i], other),
    decreases s.len(),
{
    if s.len() > 0 {
        let d = s.drop_last();
        assert(free_of(d, other)) by {
            assert forall|i: int| 0 <= i < d.len() implies !sep_matches(other, #[trigger] d[i]) by {
                assert(d[i] == s[i]);
            }
        }
        lemma_split_by_keeps_free(d, sep, other);
        lemma_split_by_len(d, sep);
        let p = split_by(d, sep);
        let q = split_by(s, sep);
        assert(!sep_matches(other, s[s.len() - 1]));
        assert forall|i: int| 0 <= i < q.len() implies free_of(#[trigger] q[i], other) by {
            if i < p.len() - 1 {
                assert(q[i] == p[i]);
            } else if i == p.len() - 1 {
                if !sep_matches(sep, s.last()) {
                    assert(q[i] == p[i].push(s.last()));
                    assert(free_of(p[i], other));
                    assert forall|j: int| 0 <= j < q[i].len() implies !sep_matches(
                        other,
                        #[trigger] q[i][j],
                    ) by {
                        if j < p[i].len() {
                            assert(q[i][j] == p[i][j]);
                        }
                    }
                } else {
                    assert(q[i] == p[i]);
                }
            } else {
                assert(q[i] == Seq::<char>::empty());
            }
        }
    } else {
        assert(split_by(s, sep)[0] == Seq::<char>::empty());
    }
}

/// Trimming keeps out what the text keeps out.
pub proof fn lemma_trim_keeps_free(x: Seq<char>, sep: Sep, other: Sep)
    requires
        free_of(x, other),
    ensures
        free_of(trim_by(x, sep), other),
{
    let y = trim_start_by(x, sep);
    lemma_trim_start_empty_or_kept(x, sep);
    lemma_trim_end_kept(y, sep);
    let t = trim_by(x, sep);
    assert forall|i: int| 0 <= i < t.len() implies !sep_matches(other, #[trigger] t[i]) by {
        assert(t[i] == y[i]);
        assert(y[i] == x[x.len() - y.len() + i]);
    }
}

/// The lines of a text hold no `'\n'`.
pub proof fn lemma_lines_free(s: Seq<char>)
    ensures
        forall|i: int| 0 <= i < lines(s).len() ==> free_of(#[trigger] lines(s)[i], Sep::Char('\n')),
{
    let p = split_by(s, Sep::Char('\n'));
    lemma_split_by_pieces(s, Sep::Char('\n'));
    let body = p.drop_last().map_values(|l: Seq<char>| strip_cr(l));
    assert forall|i: int| 0 <= i < lines(s).len() implies free_of(
        #[trigger] lines(s)[i],
        Sep::Char('\n'),
    ) by {
        if i < body.len() {
            let l = p[i];
            assert(free_of(l, Sep::Char('\n')));
            assert(lines(s)[i] == strip_cr(l));
            assert forall|j: int| 0 <= j < strip_cr(l).len() implies !sep_matches(
                Sep::Char('\n'),
                #[trigger] strip_cr(l)[j],
            ) by {
                assert(strip_cr(l)[j] == l[j]);
            }
        } else {
            assert(lines(s)[i] == p.last());
        }
    }
}

} // verus!
