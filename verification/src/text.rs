//! Character-level helpers: white space, trimming, splitting at a
//! character, reading numbers in a radix and one per line, and writing
//! numbers padded with zeros.
use vstd::prelude::*;

verus! {

/// Whether a character is white space in Unicode.
pub open spec fn is_white_space(c: char) -> bool {
    let n = c as u32;
    ||| 9 <= n <= 13
    ||| n == 0x20
    ||| n == 0x85
    ||| n == 0xA0
    ||| n == 0x1680
    ||| 0x2000 <= n <= 0x200A
    ||| n == 0x2028
    ||| n == 0x2029
    ||| n == 0x202F
    ||| n == 0x205F
    ||| n == 0x3000
}

/// Number of white space characters at the front.
pub open spec fn leading_space(s: Seq<char>) -> nat
    decreases s.len(),
{
    if s.len() > 0 && is_white_space(s[0]) {
        1 + leading_space(s.drop_first())
    } else {
        0
    }
}

/// Number of white space characters at the back.
pub open spec fn trailing_space(s: Seq<char>) -> nat
    decreases s.len(),
{
    if s.len() > 0 && is_white_space(s.last()) {
        1 + trailing_space(s.drop_last())
    } else {
        0
    }
}

/// The text without white space at either end.
pub open spec fn spec_trim(s: Seq<char>) -> Seq<char> {
    let t = s.subrange(leading_space(s) as int, s.len() as int);
    t.subrange(0, t.len() - trailing_space(t))
}

/// Position of the first occurrence of `c`.
pub open spec fn first_index(s: Seq<char>, c: char) -> Option<int>
    decreases s.len(),
{
    if s.len() == 0 {
        None
    } else if s[0] == c {
        Some(0)
    } else {
        match first_index(s.drop_first(), c) {
            Some(i) => Some(i + 1),
            None => None,
        }
    }
}

/// The text before and after the first occurrence of `c`.
pub open spec fn spec_split_once(s: Seq<char>, c: char) -> Option<(Seq<char>, Seq<char>)> {
    match first_index(s, c) {
        Some(i) => Some((s.subrange(0, i), s.subrange(i + 1, s.len() as int))),
        None => None,
    }
}

/// Whether `s` begins with `p`.
pub open spec fn starts_with(s: Seq<char>, p: Seq<char>) -> bool {
    p.len() <= s.len() && s.subrange(0, p.len() as int) == p
}

/// The value of a digit in `radix` (at most 10), if it is one.
pub open spec fn digit_value(c: char, radix: nat) -> Option<nat> {
    let n = c as u32;
    if 48 <= n < 48 + radix {
        Some((n - 48) as nat)
    } else {
        None
    }
}

/// The value of a non-empty run of digits in `radix`.
pub open spec fn digits_value(s: Seq<char>, radix: nat) -> Option<nat>
    decreases s.len(),
{
    if s.len() == 0 {
        None
    } else {
        match digit_value(s.last(), radix) {
            Some(d) => if s.len() == 1 {
                Some(d)
            } else {
                match digits_value(s.drop_last(), radix) {
                    Some(v) => Some(v * radix + d),
                    None => None,
                }
            },
            None => None,
        }
    }
}

/// An unsigned 32-bit number in `radix`: an optional `+` and at least one
/// digit, no more than `u32::MAX`.
pub open spec fn spec_parse_u32(s: Seq<char>, radix: nat) -> Option<u32> {
    let digits = if s.len() > 0 && s[0] == '+' {
        s.drop_first()
    } else {
        s
    };
    match digits_value(digits, radix) {
        Some(v) => if v <= u32::MAX {
            Some(v as u32)
        } else {
            None
        },
        None => None,
    }
}

/// A signed 32-bit decimal number: an optional sign and at least one digit,
/// within the range of `i32`.
pub open spec fn spec_parse_i32(s: Seq<char>) -> Option<i32> {
    if s.len() > 0 && s[0] == '-' {
        match digits_value(s.drop_first(), 10) {
            Some(v) => if v <= 0x8000_0000 {
                Some((-v) as i32)
            } else {
                None
            },
            None => None,
        }
    } else {
        let digits = if s.len() > 0 && s[0] == '+' {
            s.drop_first()
        } else {
            s
        };
        match digits_value(digits, 10) {
            Some(v) => if v <= 0x7fff_ffff {
                Some(v as i32)
            } else {
                None
            },
            None => None,
        }
    }
}

/// The characters of a string.
pub fn chars_of(s: &str) -> (r: Vec<char>)
    ensures
        r@ == s@,
{
    let n = s.unicode_len();
    let mut out: Vec<char> = Vec::new();
    let mut i: usize = 0;
    while i < n
        invariant
            i <= n,
            n == s@.len(),
            out@ == s@.subrange(0, i as int),
        decreases n - i,
    {
        out.push(s.get_char(i));
        i += 1;
        assert(out@ =~= s@.subrange(0, i as int));
    }
    assert(out@ =~= s@);
    out
}

/// Whether a character is white space in Unicode.
pub fn white_space(c: char) -> (r: bool)
    ensures
        r == is_white_space(c),
{
    let n = c as u32;
    (9 <= n && n <= 13) || n == 0x20 || n == 0x85 || n == 0xA0 || n == 0x1680 || (0x2000 <= n && n
        <= 0x200A) || n == 0x2028 || n == 0x2029 || n == 0x202F || n == 0x205F || n == 0x3000
}

pub proof fn lemma_leading_space_exact(s: Seq<char>, k: int)
    requires
        0 <= k <= s.len(),
        forall|i: int| 0 <= i < k ==> is_white_space(#[trigger] s[i]),
        k < s.len() ==> !is_white_space(s[k]),
    ensures
        leading_space(s) == k,
    decreases s.len(),
{
    if k > 0 {
        assert(is_white_space(s[0]));
        assert forall|i: int| 0 <= i < k - 1 implies is_white_space(#[trigger] s.drop_first()[i]) by {
            assert(s.drop_first()[i] == s[i + 1]);
        }
        lemma_leading_space_exact(s.drop_first(), k - 1);
    }
}

pub proof fn lemma_trailing_space_exact(s: Seq<char>, k: int)
    requires
        0 <= k <= s.len(),
        forall|i: int| s.len() - k <= i < s.len() ==> is_white_space(#[trigger] s[i]),
        k < s.len() ==> !is_white_space(s[s.len() - 1 - k]),
    ensures
        trailing_space(s) == k,
    decreases s.len(),
{
    if k > 0 {
        assert(is_white_space(s[s.len() - 1]));
        assert forall|i: int| s.drop_last().len() - (k - 1) <= i < s.drop_last().len() implies is_white_space(
            #[trigger] s.drop_last()[i],
        ) by {
            assert(s.drop_last()[i] == s[i]);
        }
        lemma_trailing_space_exact(s.drop_last(), k - 1);
    } else {
        if s.len() > 0 {
            assert(!is_white_space(s.last()));
        }
    }
}

/// The bounds of the trimmed text within `s[lo..hi]`.
pub fn trim_bounds(s: &Vec<char>, lo: usize, hi: usize) -> (r: (usize, usize))
    requires
        lo <= hi <= s@.len(),
    ensures
        lo <= r.0 <= r.1 <= hi,
        s@.subrange(r.0 as int, r.1 as int) == spec_trim(s@.subrange(lo as int, hi as int)),
{
    let ghost t = s@.subrange(lo as int, hi as int);
    let mut a = lo;
    while a < hi && white_space(s[a])
        invariant
            lo <= a <= hi,
            hi <= s@.len(),
            t == s@.subrange(lo as int, hi as int),
            forall|i: int| 0 <= i < a - lo ==> is_white_space(#[trigger] t[i]),
        decreases hi - a,
    {
        a += 1;
    }
    proof {
        lemma_leading_space_exact(t, a - lo);
    }
    let ghost u = t.subrange(a - lo, t.len() as int);
    assert(u =~= s@.subrange(a as int, hi as int));
    let mut b = hi;
    while b > a && white_space(s[b - 1])
        invariant
            a <= b <= hi,
            hi <= s@.len(),
            u == s@.subrange(a as int, hi as int),
            forall|i: int| b - a <= i < u.len() ==> is_white_space(#[trigger] u[i]),
        decreases b - a,
    {
        b -= 1;
    }
    proof {
        lemma_trailing_space_exact(u, (hi - b) as int);
        assert(u.subrange(0, u.len() - (hi - b)) =~= s@.subrange(a as int, b as int));
    }
    (a, b)
}

/// Position of the first `c` in `s[lo..hi]`.
pub fn find_char(s: &Vec<char>, lo: usize, hi: usize, c: char) -> (r: Option<usize>)
    requires
        lo <= hi <= s@.len(),
    ensures
        match first_index(s@.subrange(lo as int, hi as int), c) {
            Some(i) => r is Some && r->0 == lo + i,
            None => r is None,
        },
        r matches Some(i) ==> lo <= i < hi && s@[i as int] == c,
{
    let mut i = lo;
    while i < hi
        invariant
            lo <= i <= hi,
            hi <= s@.len(),
            forall|j: int| lo <= j < i ==> s@[j] != c,
        decreases hi - i,
    {
        if s[i] == c {
            proof {
                lemma_first_index_at(s@.subrange(lo as int, hi as int), c, i - lo);
            }
            return Some(i);
        }
        i += 1;
    }
    proof {
        lemma_first_index_none(s@.subrange(lo as int, hi as int), c);
    }
    None
}

/// The first occurrence is within the text, holds `c`, and no earlier
/// character is `c`.
pub proof fn lemma_first_index_bounds(s: Seq<char>, c: char)
    ensures
        first_index(s, c) matches Some(i) ==> 0 <= i < s.len() && s[i] == c && forall|j: int|
            0 <= j < i ==> s[j] != c,
        first_index(s, c) is None ==> forall|j: int| 0 <= j < s.len() ==> s[j] != c,
    decreases s.len(),
{
    if s.len() > 0 {
        lemma_first_index_bounds(s.drop_first(), c);
        assert forall|j: int| 0 < j < s.len() implies s[j] == s.drop_first()[j - 1] by {}
    }
}

/// `String::push` from std: appends one character to the string.
#[verifier::external_body]
pub(crate) fn push_char(s: &mut String, c: char)
    ensures
        final(s)@ == old(s)@.push(c),
{
    s.push(c);
}

pub proof fn lemma_first_index_at(s: Seq<char>, c: char, k: int)
    requires
        0 <= k < s.len(),
        s[k] == c,
        forall|j: int| 0 <= j < k ==> s[j] != c,
    ensures
        first_index(s, c) == Some(k),
    decreases s.len(),
{
    if k > 0 {
        assert(s[0] != c);
        assert forall|j: int| 0 <= j < k - 1 implies s.drop_first()[j] != c by {
            assert(s.drop_first()[j] == s[j + 1]);
        }
        lemma_first_index_at(s.drop_first(), c, k - 1);
    }
}

proof fn lemma_first_index_none(s: Seq<char>, c: char)
    requires
        forall|j: int| 0 <= j < s.len() ==> s[j] != c,
    ensures
        first_index(s, c) is None,
    decreases s.len(),
{
    if s.len() > 0 {
        assert forall|j: int| 0 <= j < s.len() - 1 implies s.drop_first()[j] != c by {
            assert(s.drop_first()[j] == s[j + 1]);
        }
        lemma_first_index_none(s.drop_first(), c);
    }
}

/// Whether `s[lo..hi]` is exactly the literal `lit`.
pub fn equals_literal(s: &Vec<char>, lo: usize, hi: usize, lit: &str) -> (r: bool)
    requires
        lo <= hi <= s@.len(),
    ensures
        r == (s@.subrange(lo as int, hi as int) == lit@),
{
    let n = lit.unicode_len();
    if hi - lo != n {
        return false;
    }
    let mut i: usize = 0;
    while i < n
        invariant
            i <= n,
            n == lit@.len(),
            hi - lo == n,
            hi <= s@.len(),
            forall|j: int| 0 <= j < i ==> s@[lo + j] == lit@[j],
        decreases n - i,
    {
        if s[lo + i] != lit.get_char(i) {
            assert(s@.subrange(lo as int, hi as int)[i as int] != lit@[i as int]);
            return false;
        }
        i += 1;
    }
    assert(s@.subrange(lo as int, hi as int) =~= lit@);
    true
}

/// Whether `s[lo..hi]` begins with the literal `lit`.
pub fn starts_with_literal(s: &Vec<char>, lo: usize, hi: usize, lit: &str) -> (r: bool)
    requires
        lo <= hi <= s@.len(),
    ensures
        r == starts_with(s@.subrange(lo as int, hi as int), lit@),
{
    let n = lit.unicode_len();
    if hi - lo < n {
        return false;
    }
    let r = equals_literal(s, lo, lo + n, lit);
    assert(s@.subrange(lo as int, hi as int).subrange(0, n as int) =~= s@.subrange(
        lo as int,
        lo + n,
    ));
    r
}

proof fn lemma_digits_push(s: Seq<char>, radix: nat, k: int)
    requires
        0 < k < s.len(),
    ensures
        digits_value(s.subrange(0, k + 1), radix) == match digits_value(s.subrange(0, k), radix) {
            Some(v) => match digit_value(s[k], radix) {
                Some(d) => Some(v * radix + d),
                None => None::<nat>,
            },
            None => if digit_value(s[k], radix) is Some {
                None::<nat>
            } else {
                None::<nat>
            },
        },
{
    let t = s.subrange(0, k + 1);
    assert(t.drop_last() =~= s.subrange(0, k));
    assert(t.last() == s[k]);
}

/// The value of the digits `s[start..hi]` in `radix` (2 to 10), when there
/// is at least one, all are digits, and the value fits in 32 bits.
fn parse_digits(s: &Vec<char>, start: usize, hi: usize, radix: u32) -> (r: Option<u32>)
    requires
        start <= hi <= s@.len(),
        2 <= radix <= 10,
    ensures
        r == (match digits_value(s@.subrange(start as int, hi as int), radix as nat) {
            Some(v) => if v <= u32::MAX {
                Some(v as u32)
            } else {
                None
            },
            None => None,
        }),
{
    let ghost digits = s@.subrange(start as int, hi as int);
    if start == hi {
        return None;
    }
    let mut value: u64 = 0;
    let mut i = start;
    while i < hi
        invariant
            start <= i <= hi,
            start < hi,
            hi <= s@.len(),
            2 <= radix <= 10,
            digits == s@.subrange(start as int, hi as int),
            value <= u32::MAX,
            i == start ==> value == 0,
            i > start ==> digits_value(digits.subrange(0, i - start), radix as nat) == Some(
                value as nat,
            ),
        decreases hi - i,
    {
        let c = s[i] as u32;
        if !(48 <= c && c < 48 + radix) {
            proof {
                lemma_digits_invalid(digits, radix as nat, i - start);
            }
            return None;
        }
        let d = (c - 48) as u64;
        proof {
            if i > start {
                lemma_digits_push(digits, radix as nat, i - start);
            } else {
                assert(digits.subrange(0, 1).last() == digits[0]);
            }
        }
        assert(value * (radix as u64) <= 0xffff_ffff * 10) by (nonlinear_arith)
            requires
                value <= 0xffff_ffff,
                radix <= 10,
        ;
        let nv = value * (radix as u64) + d;
        assert(digits.subrange(0, i - start + 1).last() == digits[i - start]);
        assert(digit_value(digits[i - start], radix as nat) == Some(d as nat));
        proof {
            let k = i - start;
            if k > 0 {
                lemma_digits_push(digits, radix as nat, k);
                assert(digits_value(digits.subrange(0, k), radix as nat) == Some(value as nat));
                assert(nv as nat == (value as nat) * (radix as nat) + (d as nat));
                assert(digits_value(digits.subrange(0, k + 1), radix as nat) == Some(nv as nat));
            } else {
                let one = digits.subrange(0, 1);
                assert(one.len() == 1);
                assert(one.last() == digits[0]);
                assert(digit_value(one.last(), radix as nat) == Some(d as nat));
                assert(digits_value(one, radix as nat) == Some(d as nat));
                assert(value == 0);
                assert(value * (radix as u64) == 0) by (nonlinear_arith)
                    requires
                        value == 0,
                ;
                assert(nv == d);
            }
        }
        assert(digits_value(digits.subrange(0, i - start + 1), radix as nat) == Some(nv as nat));
        if nv > 0xffff_ffff {
            proof {
                lemma_digits_grow(digits, radix as nat, (i - start + 1) as int);
            }
            return None;
        }
        value = nv;
        i += 1;
    }
    assert(digits.subrange(0, hi - start) =~= digits);
    Some(value as u32)
}

/// A number in `radix` (2 to 10) written in `s[lo..hi]`, as Rust's
/// `u32::from_str_radix` reads it.
pub fn parse_u32(s: &Vec<char>, lo: usize, hi: usize, radix: u32) -> (r: Option<u32>)
    requires
        lo <= hi <= s@.len(),
        2 <= radix <= 10,
    ensures
        r == spec_parse_u32(s@.subrange(lo as int, hi as int), radix as nat),
{
    let ghost t = s@.subrange(lo as int, hi as int);
    let mut start = lo;
    if lo < hi && s[lo] == '+' {
        start = lo + 1;
    }
    assert(s@.subrange(start as int, hi as int) =~= if t.len() > 0 && t[0] == '+' {
        t.drop_first()
    } else {
        t
    });
    parse_digits(s, start, hi, radix)
}

/// A signed decimal number written in `s[lo..hi]`, as Rust's
/// `i32::from_str_radix` reads it.
pub fn parse_i32(s: &Vec<char>, lo: usize, hi: usize) -> (r: Option<i32>)
    requires
        lo <= hi <= s@.len(),
    ensures
        r == spec_parse_i32(s@.subrange(lo as int, hi as int)),
{
    let ghost t = s@.subrange(lo as int, hi as int);
    if lo < hi && s[lo] == '-' {
        assert(s@.subrange(lo + 1, hi as int) =~= t.drop_first());
        match parse_digits(s, lo + 1, hi, 10) {
            Some(v) => if v <= 0x8000_0000 {
                if v == 0x8000_0000 {
                    Some(i32::MIN)
                } else {
                    Some(-(v as i32))
                }
            } else {
                None
            },
            None => None,
        }
    } else {
        let mut start = lo;
        if lo < hi && s[lo] == '+' {
            start = lo + 1;
        }
        assert(s@.subrange(start as int, hi as int) =~= if t.len() > 0 && t[0] == '+' {
            t.drop_first()
        } else {
            t
        });
        match parse_digits(s, start, hi, 10) {
            Some(v) => if v <= 0x7fff_ffff {
                Some(v as i32)
            } else {
                None
            },
            None => None,
        }
    }
}

proof fn lemma_digits_invalid(s: Seq<char>, radix: nat, k: int)
    requires
        0 <= k < s.len(),
        digit_value(s[k], radix) is None,
    ensures
        digits_value(s, radix) is None,
    decreases s.len(),
{
    if k < s.len() - 1 {
        lemma_digits_invalid(s.drop_last(), radix, k);
    }
}

proof fn lemma_digits_monotone(s: Seq<char>, radix: nat, k: int)
    requires
        0 < k <= s.len(),
        radix >= 1,
        digits_value(s, radix) is Some,
    ensures
        digits_value(s.subrange(0, k), radix) is Some,
        digits_value(s.subrange(0, k), radix)->0 <= digits_value(s, radix)->0,
    decreases s.len(),
{
    if k < s.len() {
        assert(s.drop_last().len() > 0);
        lemma_digits_monotone(s.drop_last(), radix, k);
        assert(s.drop_last().subrange(0, k) =~= s.subrange(0, k));
        let v = digits_value(s.drop_last(), radix)->0;
        let d = digit_value(s.last(), radix)->0;
        assert(v * radix + d >= v) by (nonlinear_arith)
            requires
                radix >= 1,
                d >= 0,
                v >= 0,
        ;
    } else {
        assert(s.subrange(0, k) =~= s);
    }
}

proof fn lemma_digits_grow(s: Seq<char>, radix: nat, k: int)
    requires
        0 < k <= s.len(),
        radix >= 1,
        digits_value(s.subrange(0, k), radix) is Some,
        digits_value(s.subrange(0, k), radix)->0 > u32::MAX,
    ensures
        !(digits_value(s, radix) is Some && digits_value(s, radix)->0 <= u32::MAX),
{
    if digits_value(s, radix) is Some {
        lemma_digits_monotone(s, radix, k);
    }
}

/// Where the first line of `s` ends, and where the next begins: lines end
/// at `\n`, a `\r` before it is dropped, and the last line may lack one.
pub open spec fn spec_line_bounds(s: Seq<char>) -> (int, int) {
    match first_index(s, '\n') {
        Some(i) => (if i > 0 && s[i - 1] == '\r' {
            i - 1
        } else {
            i
        }, i + 1),
        None => (s.len() as int, s.len() as int),
    }
}

/// The numbers written one per line, in decimal with white space around
/// them, each below `limit`; empty lines are skipped. `None` when a line
/// holds no such number.
pub open spec fn spec_decimal_lines(s: Seq<char>, limit: nat) -> Option<Seq<u32>>
    decreases s.len(),
{
    if s.len() == 0 {
        Some(Seq::empty())
    } else {
        let (e, next) = spec_line_bounds(s);
        let line = s.subrange(0, e);
        let head: Option<Seq<u32>> = if line.len() == 0 {
            Some(Seq::empty())
        } else {
            match spec_parse_u32(spec_trim(line), 10) {
                Some(v) => if v < limit {
                    Some(seq![v])
                } else {
                    None
                },
                None => None,
            }
        };
        proof {
            lemma_first_index_bounds(s, '\n');
        }
        match head {
            Some(h) => match spec_decimal_lines(s.subrange(next, s.len() as int), limit) {
                Some(t) => Some(h + t),
                None => None,
            },
            None => None,
        }
    }
}

/// The lines of a text: split at each `\n`, a `\r` before it dropped, the
/// last line without one kept when it is not empty.
pub open spec fn spec_lines(s: Seq<char>) -> Seq<Seq<char>>
    decreases s.len(),
{
    if s.len() == 0 {
        Seq::empty()
    } else {
        let (e, next) = spec_line_bounds(s);
        proof {
            lemma_first_index_bounds(s, '\n');
        }
        seq![s.subrange(0, e)] + spec_lines(s.subrange(next, s.len() as int))
    }
}

/// Whether a line is empty or holds, with white space around it, a decimal
/// number below `limit`.
pub open spec fn spec_line_ok(line: Seq<char>, limit: nat) -> bool {
    line.len() == 0 || (spec_parse_u32(spec_trim(line), 10) matches Some(v) && v < limit)
}

/// The numbers are refused exactly when some line is neither empty nor a
/// decimal number below the limit.
pub proof fn lemma_decimal_lines_refused(s: Seq<char>, limit: nat)
    ensures
        spec_decimal_lines(s, limit) is None <==> exists|k: int|
            0 <= k < spec_lines(s).len() && !spec_line_ok(#[trigger] spec_lines(s)[k], limit),
    decreases s.len(),
{
    if s.len() > 0 {
        lemma_first_index_bounds(s, '\n');
        let (e, next) = spec_line_bounds(s);
        let rest = s.subrange(next, s.len() as int);
        lemma_decimal_lines_refused(rest, limit);
        let ls = spec_lines(s);
        let rl = spec_lines(rest);
        assert(ls == seq![s.subrange(0, e)] + rl);
        assert forall|k: int| 0 <= k < rl.len() implies ls[k + 1] == rl[k] by {}
        let line0 = s.subrange(0, e);
        assert(ls[0] == line0);
        assert(spec_decimal_lines(s, limit) is None <==> (!spec_line_ok(line0, limit)
            || spec_decimal_lines(rest, limit) is None));
        if exists|k: int| 0 <= k < rl.len() && !spec_line_ok(#[trigger] rl[k], limit) {
            let k = choose|k: int| 0 <= k < rl.len() && !spec_line_ok(#[trigger] rl[k], limit);
            assert(!spec_line_ok(ls[k + 1], limit));
        }
        if exists|k: int| 0 <= k < ls.len() && !spec_line_ok(#[trigger] ls[k], limit) {
            let k = choose|k: int| 0 <= k < ls.len() && !spec_line_ok(#[trigger] ls[k], limit);
            if k > 0 {
                assert(!spec_line_ok(rl[k - 1], limit));
            }
        }
    }
}

/// Reads the numbers written one per line (see `spec_decimal_lines`).
pub fn decimal_lines(data: &str, limit: u32) -> (r: Option<Vec<u32>>)
    ensures
        match spec_decimal_lines(data@, limit as nat) {
            Some(v) => r is Some && r->0@ == v,
            None => r is None,
        },
        r is None <==> exists|k: int|
            0 <= k < spec_lines(data@).len() && !spec_line_ok(
                #[trigger] spec_lines(data@)[k],
                limit as nat,
            ),
{
    proof {
        lemma_decimal_lines_refused(data@, limit as nat);
    }
    let s = chars_of(data);
    let n = s.len();
    let mut out: Vec<u32> = Vec::new();
    let mut start: usize = 0;
    assert(s@.subrange(0, n as int) =~= data@);
    while start < n
        invariant
            start <= n,
            n == s@.len(),
            s@ == data@,
            spec_decimal_lines(data@, limit as nat) == match spec_decimal_lines(
                s@.subrange(start as int, n as int),
                limit as nat,
            ) {
                Some(t) => Some(out@ + t),
                None => None,
            },
        decreases n - start,
    {
        let ghost rest = s@.subrange(start as int, n as int);
        proof {
            lemma_first_index_bounds(rest, '\n');
        }
        let (end, next) = match find_char(&s, start, n, '\n') {
            Some(i) => {
                if i > start && s[i - 1] == '\r' {
                    (i - 1, i + 1)
                } else {
                    (i, i + 1)
                }
            },
            None => (n, n),
        };
        let ghost (e, nx) = spec_line_bounds(rest);
        assert(e == end - start && nx == next - start);
        assert(rest.subrange(0, e) =~= s@.subrange(start as int, end as int));
        assert(rest.subrange(nx, rest.len() as int) =~= s@.subrange(next as int, n as int));
        let ghost before = out@;
        if end > start {
            let (a, b) = trim_bounds(&s, start, end);
            match parse_u32(&s, a, b, 10) {
                Some(v) => {
                    if v < limit {
                        out.push(v);
                    } else {
                        proof {
                            lemma_decimal_lines_refused(data@, limit as nat);
                        }
                        return None;
                    }
                },
                None => {
                    proof {
                        lemma_decimal_lines_refused(data@, limit as nat);
                    }
                    return None;
                },
            }
        }
        proof {
            // The line's numbers, then those of the lines after it.
            let head = out@.subrange(before.len() as int, out@.len() as int);
            let t = spec_decimal_lines(s@.subrange(next as int, n as int), limit as nat);
            assert(out@ =~= before + head);
            if t is Some {
                assert(before + (head + t->0) =~= out@ + t->0);
            }
        }
        start = next;
    }
    assert(s@.subrange(n as int, n as int) =~= Seq::<char>::empty());
    assert(out@ + Seq::<u32>::empty() =~= out@);
    Some(out)
}

/// The digits of a number in `radix` (2 to 10), most significant first.
pub open spec fn spec_digits(v: nat, radix: nat) -> Seq<char>
    decreases v,
{
    if radix < 2 || v < radix {
        seq![(48 + v) as char]
    } else {
        proof {
            assert(v / radix < v) by (nonlinear_arith)
                requires
                    radix >= 2,
                    v >= radix,
            ;
        }
        spec_digits(v / radix, radix).push((48 + v % radix) as char)
    }
}

/// Reading back the digits that `spec_digits` writes gives the number:
/// every character is a digit of the radix, and their value is `v`.
pub proof fn law_digits_read_back(v: nat, radix: nat)
    requires
        2 <= radix <= 10,
    ensures
        spec_digits(v, radix).len() >= 1,
        forall|k: int|
            0 <= k < spec_digits(v, radix).len() ==> digit_value(
                #[trigger] spec_digits(v, radix)[k],
                radix,
            ) is Some,
        digits_value(spec_digits(v, radix), radix) == Some(v),
    decreases v,
{
    let d = spec_digits(v, radix);
    if v < radix {
        assert(((48 + v) as char) as u32 == 48 + v);
        assert(digit_value(d.last(), radix) == Some(v));
    } else {
        assert(v / radix < v && v % radix < radix && (v / radix) * radix + v % radix == v)
            by (nonlinear_arith)
            requires
                radix >= 2,
                v >= radix,
        ;
        law_digits_read_back(v / radix, radix);
        let prefix = spec_digits(v / radix, radix);
        let c = (48 + v % radix) as char;
        assert(c as u32 == 48 + v % radix);
        assert(d == prefix.push(c));
        assert(d.drop_last() =~= prefix);
        assert forall|k: int| 0 <= k < d.len() implies digit_value(#[trigger] d[k], radix) is Some by {
            if k < prefix.len() {
                assert(d[k] == prefix[k]);
            }
        }
    }
}

/// Text whose first and last characters are not white space is its own
/// trimmed text.
pub proof fn lemma_trim_unchanged(s: Seq<char>)
    requires
        s.len() >= 1,
        !is_white_space(s[0]),
        !is_white_space(s.last()),
    ensures
        spec_trim(s) == s,
{
    assert(leading_space(s) == 0);
    let t = s.subrange(0, s.len() as int);
    assert(t =~= s);
    assert(trailing_space(t) == 0);
    assert(t.subrange(0, t.len() as int) =~= s);
}

/// A number in `radix`, padded on the left with zeros to `width` digits.
pub open spec fn spec_padded(v: nat, radix: nat, width: nat) -> Seq<char> {
    let d = spec_digits(v, radix);
    Seq::new((if d.len() < width { width - d.len() } else { 0 }) as nat, |i: int| '0') + d
}

/// A number in octal, padded on the left with zeros to `width` digits.
pub open spec fn spec_octal_padded(v: nat, width: nat) -> Seq<char> {
    spec_padded(v, 8, width)
}

/// The digits of a number in `radix` (see `spec_digits`).
fn digits(v: u64, radix: u64) -> (r: Vec<char>)
    requires
        2 <= radix <= 10,
    ensures
        r@ == spec_digits(v as nat, radix as nat),
    decreases v,
{
    if v < radix {
        let mut out: Vec<char> = Vec::new();
        out.push(((48 + v) as u8) as char);
        assert(out@ =~= spec_digits(v as nat, radix as nat));
        out
    } else {
        assert(v / radix < v) by (nonlinear_arith)
            requires
                radix >= 2,
                v >= radix,
        ;
        let mut out = digits(v / radix, radix);
        out.push(((48 + v % radix) as u8) as char);
        out
    }
}

/// A number in `radix` (2 to 10) padded with zeros to `width` digits.
fn format_padded(v: u64, radix: u64, width: usize) -> (r: String)
    requires
        2 <= radix <= 10,
    ensures
        r@ == spec_padded(v as nat, radix as nat, width as nat),
{
    let digits = digits(v, radix);
    let mut out = String::new();
    let mut pad: usize = 0;
    let n = if digits.len() < width {
        width - digits.len()
    } else {
        0
    };
    while pad < n
        invariant
            pad <= n,
            out@ == Seq::new(pad as nat, |i: int| '0'),
        decreases n - pad,
    {
        push_char(&mut out, '0');
        pad += 1;
        assert(out@ =~= Seq::new(pad as nat, |i: int| '0'));
    }
    let ghost zeros = out@;
    let mut i: usize = 0;
    while i < digits.len()
        invariant
            i <= digits@.len(),
            out@ == zeros + digits@.subrange(0, i as int),
        decreases digits@.len() - i,
    {
        push_char(&mut out, digits[i]);
        i += 1;
        assert(out@ =~= zeros + digits@.subrange(0, i as int));
    }
    assert(digits@.subrange(0, i as int) =~= digits@);
    out
}

/// A number in octal padded with zeros to `width` digits, as Rust's
/// `{:0>6o}` writes it for a width of six.
pub fn format_octal(v: u64, width: usize) -> (r: String)
    ensures
        r@ == spec_octal_padded(v as nat, width as nat),
{
    format_padded(v, 8, width)
}

/// A number in decimal, as Rust's `{}` writes it.
pub fn format_decimal(v: u64) -> (r: String)
    ensures
        r@ == spec_digits(v as nat, 10),
{
    let r = format_padded(v, 10, 0);
    assert(r@ =~= spec_digits(v as nat, 10));
    r
}

/// A number in binary padded with zeros to `width` digits, as Rust's
/// `{:0>5b}` writes it for a width of five.
pub fn format_binary(v: u64, width: usize) -> (r: String)
    ensures
        r@ == spec_padded(v as nat, 2, width as nat),
{
    format_padded(v, 2, width)
}

} // verus!
