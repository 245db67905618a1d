//! Paper tape: a sequence of 6-bit frames, each held in a `u8` below 64.
use vstd::prelude::*;
use crate::text::{
    chars_of, decimal_lines, push_char, spec_decimal_lines, spec_line_bounds, first_index, spec_trim,
    is_white_space, spec_parse_u32, digits_value, lemma_first_index_at, lemma_first_index_bounds,
    lemma_leading_space_exact, lemma_trailing_space_exact, lemma_decimal_lines_refused,
    spec_line_ok, spec_lines,
};

verus! {

/// A paper tape: 6-bit frames in the order they are punched.
pub type Tape = Vec<u8>;

/// Whether every frame of a tape fits in 6 bits.
pub open spec fn is_tape(t: Seq<u8>) -> bool {
    forall|i: int| 0 <= i < t.len() ==> #[trigger] t[i] < 64
}

/// The three 6-bit frames of an 18-bit word, most significant first.
pub open spec fn spec_split_bioctal(word: int) -> Seq<u8> {
    seq![((word / 4096) % 64) as u8, ((word / 64) % 64) as u8, (word % 64) as u8]
}

/// The 18-bit word made of three 6-bit frames, most significant first.
pub open spec fn spec_join_bioctal(b0: int, b1: int, b2: int) -> int {
    b0 * 4096 + b1 * 64 + b2
}

/// An empty tape.
pub fn new() -> (t: Tape)
    ensures
        t@ == Seq::<u8>::empty(),
{
    Vec::new()
}

/// Splits an 18-bit word into three 6-bit frames, most significant first.
pub fn split_bioctal(word: &u32) -> (r: Vec<u8>)
    requires
        *word <= 0o777777,
    ensures
        r@ == spec_split_bioctal(*word as int),
        is_tape(r@),
{
    let w = *word;
    assert((w >> 12u32) & 0o77u32 == (w / 4096) % 64) by (bit_vector);
    assert((w >> 6u32) & 0o77u32 == (w / 64) % 64) by (bit_vector);
    assert(w & 0o77u32 == w % 64) by (bit_vector);
    let upper = ((w >> 12) & 0o77) as u8;
    let middle = ((w >> 6) & 0o77) as u8;
    let lower = (w & 0o77) as u8;
    let mut v = Vec::new();
    v.push(upper);
    v.push(middle);
    v.push(lower);
    assert(v@ =~= spec_split_bioctal(w as int));
    v
}

/// A tape being read frame by frame from the front.
pub struct TapeReader {
    tape: Vec<u8>,
    pos: usize,
}

impl TapeReader {
    #[verifier::type_invariant]
    spec fn position_in_tape(self) -> bool {
        self.pos <= self.tape.len()
    }

    /// The frames that have not been read yet.
    pub closed spec fn remaining(self) -> Seq<u8> {
        self.tape@.subrange(self.pos as int, self.tape.len() as int)
    }

    /// Starts reading a tape at its first frame.
    pub fn new(tape: Vec<u8>) -> (r: TapeReader)
        ensures
            r.remaining() == tape@,
    {
        let r = TapeReader { tape, pos: 0 };
        assert(r.remaining() =~= r.tape@);
        r
    }

    /// The number of frames not read yet.
    pub fn len(&self) -> (n: usize)
        ensures
            n == self.remaining().len(),
    {
        proof {
            use_type_invariant(self);
        }
        self.tape.len() - self.pos
    }

    /// The next frame, without consuming it.
    pub fn peek(&self) -> (r: Option<u8>)
        ensures
            r == if self.remaining().len() > 0 {
                Some(self.remaining()[0])
            } else {
                None::<u8>
            },
    {
        proof {
            use_type_invariant(self);
        }
        if self.pos < self.tape.len() {
            Some(self.tape[self.pos])
        } else {
            None
        }
    }

    /// Consumes and returns the next frame.
    pub fn next(&mut self) -> (r: Option<u8>)
        ensures
            old(self).remaining().len() > 0 ==> r == Some(old(self).remaining()[0])
                && final(self).remaining() == old(self).remaining().drop_first(),
            old(self).remaining().len() == 0 ==> r is None && final(self).remaining() == old(
                self,
            ).remaining(),
    {
        proof {
            use_type_invariant(&*self);
        }
        if self.pos < self.tape.len() {
            let f = self.tape[self.pos];
            self.pos = self.pos + 1;
            assert(self.remaining() =~= old(self).remaining().drop_first());
            Some(f)
        } else {
            None
        }
    }
}

/// Reads three frames and joins them into an 18-bit word, most significant
/// frame first.
pub fn join_bioctal(tape: &mut TapeReader) -> (r: u32)
    requires
        old(tape).remaining().len() >= 3,
        is_tape(old(tape).remaining()),
    ensures
        r == spec_join_bioctal(
            old(tape).remaining()[0] as int,
            old(tape).remaining()[1] as int,
            old(tape).remaining()[2] as int,
        ),
        r <= 0o777777,
        final(tape).remaining() == old(tape).remaining().subrange(3, old(tape).remaining().len() as int),
{
    let ghost rem = tape.remaining();
    let b0 = tape.next().unwrap() as u32;
    let b1 = tape.next().unwrap() as u32;
    let b2 = tape.next().unwrap() as u32;
    assert(rem[0] < 64 && rem[1] < 64 && rem[2] < 64);
    assert((b0 << 12u32) | (b1 << 6u32) | b2 == b0 * 4096 + b1 * 64 + b2) by (bit_vector)
        requires
            b0 < 64u32,
            b1 < 64u32,
            b2 < 64u32,
    ;
    assert(tape.remaining() =~= rem.subrange(3, rem.len() as int));
    (b0 << 12) | (b1 << 6) | b2
}

/// Joining the frames of a split word gives the word back.
pub proof fn law_join_split_bioctal(word: int)
    requires
        0 <= word <= 0o777777,
    ensures
        ({
            let f = spec_split_bioctal(word);
            spec_join_bioctal(f[0] as int, f[1] as int, f[2] as int) == word
        }),
        is_tape(spec_split_bioctal(word)),
{
    let f = spec_split_bioctal(word);
    assert(f[0] as int == word / 4096);
    assert(word / 64 == (word / 4096) * 64 + (word / 64) % 64) by {
        vstd::arithmetic::div_mod::lemma_div_denominator(word, 64, 64);
    }
}

/// The bytes of a binary tape file: one frame per byte.
pub fn serialize_bin(tape: &Tape) -> (r: Vec<u8>)
    ensures
        r@ == tape@,
{
    let mut out: Vec<u8> = Vec::new();
    let mut i: usize = 0;
    while i < tape.len()
        invariant
            i <= tape.len(),
            out@ == tape@.subrange(0, i as int),
        decreases tape.len() - i,
    {
        out.push(tape[i]);
        i += 1;
        assert(out@ =~= tape@.subrange(0, i as int));
    }
    out
}

/// The low 6 bits of each byte.
pub open spec fn spec_deserialize_bin(data: Seq<u8>) -> Seq<u8> {
    data.map_values(|b: u8| (b % 64) as u8)
}

/// The tape read from a binary file: the low 6 bits of each byte.
pub fn deserialize_bin(data: &[u8]) -> (t: Tape)
    ensures
        t@ == spec_deserialize_bin(data@),
        is_tape(t@),
{
    let mut out: Vec<u8> = Vec::new();
    let mut i: usize = 0;
    while i < data.len()
        invariant
            i <= data@.len(),
            out@.len() == i,
            forall|j: int| 0 <= j < i ==> #[trigger] out@[j] == data@[j] % 64,
        decreases data@.len() - i,
    {
        let b = data[i];
        assert(b & 0o77u8 == b % 64) by (bit_vector);
        out.push(b & 0o77);
        i += 1;
    }
    assert(out@ =~= spec_deserialize_bin(data@));
    out
}

/// Reading back a written binary tape gives the same tape.
pub proof fn law_bin_roundtrip(tape: Seq<u8>)
    requires
        is_tape(tape),
    ensures
        spec_deserialize_bin(tape) == tape,
{
    assert forall|i: int| 0 <= i < tape.len() implies spec_deserialize_bin(tape)[i] == tape[i] by {
        assert(tape[i] < 64);
    }
    assert(spec_deserialize_bin(tape) =~= tape);
}

/// The decimal digits of a number, most significant first.
pub open spec fn spec_decimal(v: nat) -> Seq<char>
    decreases v,
{
    if v < 10 {
        seq![(48 + v) as char]
    } else {
        spec_decimal(v / 10).push((48 + v % 10) as char)
    }
}

/// One frame in the text tape format: a space, the frame's value in
/// decimal, a space and a newline.
pub open spec fn spec_frame_text(v: u8) -> Seq<char> {
    seq![' '] + spec_decimal(v as nat) + seq![' ', '\n']
}

/// A tape in the text format (`.76` files): one line per frame.
pub open spec fn spec_serialize_bioctal(t: Seq<u8>) -> Seq<char>
    decreases t.len(),
{
    if t.len() == 0 {
        Seq::empty()
    } else {
        spec_frame_text(t[0]) + spec_serialize_bioctal(t.drop_first())
    }
}

/// The tape read from the text format: one decimal frame value per line,
/// white space around it, empty lines skipped; `None` when a line holds no
/// number below 64.
pub open spec fn spec_deserialize_bioctal(s: Seq<char>) -> Option<Seq<u8>> {
    match spec_decimal_lines(s, 64) {
        Some(v) => Some(v.map_values(|x: u32| x as u8)),
        None => None,
    }
}

/// The digit character of a value below ten.
fn digit_char(d: u8) -> (c: char)
    requires
        d < 10,
    ensures
        c == (48 + d) as char,
{
    (48 + d) as char
}

/// Writes a tape in the text format (see `spec_serialize_bioctal`).
pub fn serialize_bioctal(tape: &Tape) -> (r: String)
    ensures
        r@ == spec_serialize_bioctal(tape@),
{
    let mut out = String::new();
    let mut i: usize = 0;
    assert(tape@.subrange(0, tape@.len() as int) =~= tape@);
    while i < tape.len()
        invariant
            i <= tape@.len(),
            out@ + spec_serialize_bioctal(tape@.subrange(i as int, tape@.len() as int))
                == spec_serialize_bioctal(tape@),
        decreases tape@.len() - i,
    {
        let v = tape[i];
        let ghost rest = tape@.subrange(i as int, tape@.len() as int);
        assert(rest.drop_first() =~= tape@.subrange(i + 1, tape@.len() as int));
        assert(rest[0] == v);
        let ghost before = out@;
        push_char(&mut out, ' ');
        if v >= 100 {
            push_char(&mut out, digit_char(v / 100));
        }
        if v >= 10 {
            push_char(&mut out, digit_char((v / 10) % 10));
        }
        push_char(&mut out, digit_char(v % 10));
        proof {
            let d = spec_decimal(v as nat);
            if v >= 100 {
                assert(spec_decimal((v / 10) as nat) == spec_decimal((v / 100) as nat).push(
                    (48 + (v / 10) % 10) as char,
                ));
                assert(d =~= seq![(48 + v / 100) as char, (48 + (v / 10) % 10) as char, (48 + v % 10) as char]);
            } else if v >= 10 {
                assert((v / 10) % 10 == v / 10);
                assert(spec_decimal((v / 10) as nat) == seq![(48 + v / 10) as char]);
                assert(d =~= seq![(48 + (v / 10) % 10) as char, (48 + v % 10) as char]);
            } else {
                assert(d =~= seq![(48 + v % 10) as char]);
            }
            assert(out@ =~= before + seq![' '] + d);
        }
        push_char(&mut out, ' ');
        push_char(&mut out, '\n');
        proof {
            assert(out@ =~= before + spec_frame_text(v));
            assert(spec_serialize_bioctal(rest) == spec_frame_text(v) + spec_serialize_bioctal(
                rest.drop_first(),
            ));
            assert(out@ + spec_serialize_bioctal(tape@.subrange(i + 1, tape@.len() as int)) =~= before
                + spec_serialize_bioctal(rest));
        }
        i += 1;
    }
    assert(tape@.subrange(i as int, tape@.len() as int) =~= Seq::<u8>::empty());
    assert(out@ + Seq::<char>::empty() =~= out@);
    out
}

/// Reads a tape written in the text format (see
/// `spec_deserialize_bioctal`). A line that holds no symbol of six bits is
/// not taken as fatal: it gives `None`, and the caller decides what to do
/// with a bad tape.
pub fn deserialize_bioctal(data: &str) -> (r: Option<Tape>)
    ensures
        r matches Some(t) ==> Some(t@) == spec_deserialize_bioctal(data@) && is_tape(t@),
        r is None <==> spec_deserialize_bioctal(data@) is None,
        r is None <==> exists|k: int|
            0 <= k < spec_lines(data@).len() && !spec_line_ok(#[trigger] spec_lines(data@)[k], 64),
{
    proof {
        lemma_decimal_lines_refused(data@, 64);
    }
    let values = match decimal_lines(data, 64) {
        Some(v) => v,
        None => {
            return None;
        },
    };
    proof {
        lemma_decimal_lines_bound(data@, 64);
    }
    let mut out: Vec<u8> = Vec::new();
    let mut i: usize = 0;
    while i < values.len()
        invariant
            i <= values@.len(),
            forall|j: int| 0 <= j < values@.len() ==> #[trigger] values@[j] < 64,
            out@.len() == i,
            forall|j: int| 0 <= j < i ==> #[trigger] out@[j] == values@[j] as u8,
        decreases values@.len() - i,
    {
        out.push(values[i] as u8);
        i += 1;
    }
    assert(out@ =~= values@.map_values(|x: u32| x as u8));
    Some(out)
}

/// Every number that `spec_decimal_lines` reads lies below the limit.
pub proof fn lemma_decimal_lines_bound(s: Seq<char>, limit: nat)
    ensures
        spec_decimal_lines(s, limit) matches Some(v) ==> forall|j: int|
            0 <= j < v.len() ==> #[trigger] v[j] < limit,
    decreases s.len(),
{
    if s.len() > 0 {
        crate::text::lemma_first_index_bounds(s, '\n');
        let (e, next) = spec_line_bounds(s);
        lemma_decimal_lines_bound(s.subrange(next, s.len() as int), limit);
    }
}

/// The decimal digits of a number are digits, and read back as the number.
proof fn lemma_decimal_digits(v: nat)
    ensures
        spec_decimal(v).len() >= 1,
        forall|j: int|
            0 <= j < spec_decimal(v).len() ==> 48 <= (#[trigger] spec_decimal(v)[j]) as u32 <= 57,
        digits_value(spec_decimal(v), 10) == Some(v),
    decreases v,
{
    if v >= 10 {
        lemma_decimal_digits(v / 10);
        let d = spec_decimal(v);
        assert(d.drop_last() =~= spec_decimal(v / 10));
        assert forall|j: int| 0 <= j < d.len() implies 48 <= (#[trigger] d[j]) as u32 <= 57 by {
            if j < d.len() - 1 {
                assert(d[j] == spec_decimal(v / 10)[j]);
            }
        }
    }
}

/// The numbers read from a tape written in the text format are its frames.
proof fn lemma_decimal_lines_serialized(t: Seq<u8>)
    requires
        is_tape(t),
    ensures
        spec_decimal_lines(spec_serialize_bioctal(t), 64) == Some(t.map_values(|x: u8| x as u32)),
    decreases t.len(),
{
    if t.len() == 0 {
        assert(t.map_values(|x: u8| x as u32) =~= Seq::<u32>::empty());
    } else {
        let v = t[0];
        let f = spec_frame_text(v);
        let d = spec_decimal(v as nat);
        let rest = spec_serialize_bioctal(t.drop_first());
        let s = spec_serialize_bioctal(t);
        assert(s == f + rest);
        lemma_decimal_digits(v as nat);
        let k = f.len() - 1;
        assert(f.len() == d.len() + 3);
        assert forall|j: int| 0 <= j < k implies s[j] != '\n' by {
            if 1 <= j < 1 + d.len() {
                assert(s[j] == d[j - 1]);
            }
        }
        assert(s[k] == '\n');
        lemma_first_index_at(s, '\n', k);
        assert(s[k - 1] == ' ');
        assert(spec_line_bounds(s) == (k, k + 1));
        let line = s.subrange(0, k);
        assert(line =~= seq![' '] + d + seq![' ']);
        assert forall|j: int| 0 <= j < d.len() implies !is_white_space(#[trigger] d[j]) by {}
        lemma_leading_space_exact(line, 1);
        let inner = line.subrange(1, line.len() as int);
        assert(inner =~= d + seq![' ']);
        lemma_trailing_space_exact(inner, 1);
        assert(spec_trim(line) =~= d);
        assert(d[0] != '+');
        assert(spec_parse_u32(d, 10) == Some(v as u32));
        assert(s.subrange(k + 1, s.len() as int) =~= rest);
        lemma_decimal_lines_serialized(t.drop_first());
        assert(t.map_values(|x: u8| x as u32) =~= seq![v as u32] + t.drop_first().map_values(
            |x: u8| x as u32,
        ));
    }
}

/// Reading back a tape written in the text format gives the same tape.
pub proof fn law_bioctal_roundtrip(t: Seq<u8>)
    requires
        is_tape(t),
    ensures
        spec_deserialize_bioctal(spec_serialize_bioctal(t)) == Some(t),
{
    lemma_decimal_lines_serialized(t);
    assert(t.map_values(|x: u8| x as u32).map_values(|x: u32| x as u8) =~= t);
}

/// Whether `s` ends with `suffix`.
pub open spec fn ends_with(s: Seq<char>, suffix: Seq<char>) -> bool {
    suffix.len() <= s.len() && s.subrange(s.len() - suffix.len(), s.len() as int) == suffix
}

/// Whether `s` ends with the literal `suffix`.
fn ends_with_literal(s: &Vec<char>, suffix: &str) -> (r: bool)
    ensures
        r == ends_with(s@, suffix@),
{
    let n = suffix.unicode_len();
    if n > s.len() {
        return false;
    }
    let len = s.len();
    let start = len - n;
    let mut i: usize = 0;
    while i < n
        invariant
            i <= n,
            n == suffix@.len(),
            start + n == len,
            len == s@.len(),
            forall|j: int| 0 <= j < i ==> s@[start + j] == suffix@[j],
        decreases n - i,
    {
        if s[start + i] != suffix.get_char(i) {
            assert(s@.subrange(start as int, s@.len() as int)[i as int] != suffix@[i as int]);
            return false;
        }
        i += 1;
    }
    assert(s@.subrange(start as int, s@.len() as int) =~= suffix@);
    true
}

/// Whether a tape file's name marks the text format: it ends with `.76`
/// or `.76+`; other files hold one frame per byte.
pub fn is_bioctal_name(name: &str) -> (r: bool)
    ensures
        r == (ends_with(name@, ".76"@) || ends_with(name@, ".76+"@)),
{
    let chars = chars_of(name);
    ends_with_literal(&chars, ".76") || ends_with_literal(&chars, ".76+")
}

} // verus!
