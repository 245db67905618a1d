//! The assembler: reads assembly source line by line into org blocks, lays
//! the code out at addresses while collecting labels, and encodes it as a
//! `.76` tape.
use vstd::prelude::*;
use crate::instruction::{Instruction, instruction_wf, parse_mnemonic, spec_parse_mnemonic};
use crate::bits::lemma_mark_bits;
use crate::memory::{
    Layout, LayoutSegment, LayoutView, all_words, layout_wf, segment_wf, spec_encode_layout,
};
use crate::tape::Tape;
use crate::text::{
    chars_of, equals_literal, find_char, first_index, parse_i32, parse_u32, spec_parse_i32,
    spec_parse_u32, spec_split_once, spec_trim, starts_with, starts_with_literal, trim_bounds,
    spec_digits, law_digits_read_back, lemma_trim_unchanged, digit_value,
};

verus! {

/// Why a program cannot be assembled.
#[derive(Debug, Clone, Copy, PartialEq, Eq, Structural)]
pub enum AssembleError {
    /// A number that does not fit in an 18-bit word.
    ValueTooLarge,
    /// A label offset that is not a decimal number in the 18-bit signed range.
    InvalidOffset,
    /// A `>` label with nothing after it on the line.
    MissingLabelSeparator { line: usize },
    /// An `ORG` whose operand is not a number.
    OrgWithoutAddress { line: usize },
    /// A mnemonic that names no instruction.
    UnknownInstruction { line: usize },
    /// Code before the first `ORG`.
    NoOrgBlock { line: usize },
    /// A label that is used but never defined.
    UndefinedSymbol,
    /// An `ORG` block that holds no code.
    EmptyBlock,
    /// A string or block longer than an 18-bit count.
    TooLong,
}

/// An operand: a number, an offset from the current location (`LOK`), or
/// a label with an offset.
pub enum Operand {
    Number { value: u32 },
    Lok { offset: i32 },
    Symbol { label: String, offset: i32 },
}

/// An operand as plain values.
pub enum OperandView {
    Number { value: u32 },
    Lok { offset: i32 },
    Symbol { label: Seq<char>, offset: i32 },
}

impl View for Operand {
    type V = OperandView;

    open spec fn view(&self) -> OperandView {
        match self {
            Operand::Number { value } => OperandView::Number { value: *value },
            Operand::Lok { offset } => OperandView::Lok { offset: *offset },
            Operand::Symbol { label, offset } => OperandView::Symbol {
                label: label@,
                offset: *offset,
            },
        }
    }
}

/// Whether an operand's number fits in 18 bits and its offset in 18 signed
/// bits.
pub open spec fn operand_wf(o: OperandView) -> bool {
    match o {
        OperandView::Number { value } => value <= 0o777777,
        OperandView::Lok { offset } => -0o400000 <= offset <= 0o377777,
        OperandView::Symbol { offset, .. } => -0o400000 <= offset <= 0o377777,
    }
}

/// A number operand: `&O` (or `&o`) or `&` then an octal number, or a
/// decimal number, with white space around it. `Ok(None)` when it is no
/// number; an error when the number does not fit in 18 bits.
pub open spec fn spec_parse_number(s: Seq<char>) -> Result<Option<u32>, AssembleError> {
    let t = spec_trim(s);
    let v = if t.len() >= 2 && t[0] == '&' && (t[1] == 'O' || t[1] == 'o') {
        spec_parse_u32(spec_trim(t.subrange(2, t.len() as int)), 8)
    } else if t.len() >= 1 && t[0] == '&' {
        spec_parse_u32(spec_trim(t.drop_first()), 8)
    } else {
        spec_parse_u32(t, 10)
    };
    match v {
        Some(v) => if v <= 0o777777 {
            Ok(Some(v))
        } else {
            Err(AssembleError::ValueTooLarge)
        },
        None => Ok(None),
    }
}

/// A number written in octal digits behind `&` or `&O`, or in decimal
/// digits, is read back as that number: `&17` and `&O17` are fifteen,
/// `17` is seventeen.
pub proof fn law_number_read_back(v: u32)
    requires
        v <= 0o777777,
    ensures
        spec_parse_number(seq!['&'] + spec_digits(v as nat, 8)) == Ok::<
            Option<u32>,
            AssembleError,
        >(Some(v)),
        spec_parse_number(seq!['&', 'O'] + spec_digits(v as nat, 8)) == Ok::<
            Option<u32>,
            AssembleError,
        >(Some(v)),
        spec_parse_number(spec_digits(v as nat, 10)) == Ok::<Option<u32>, AssembleError>(Some(v)),
{
    let o = spec_digits(v as nat, 8);
    let d = spec_digits(v as nat, 10);
    law_digits_read_back(v as nat, 8);
    law_digits_read_back(v as nat, 10);
    assert(digit_value(o[0], 8) is Some);
    assert(digit_value(o[o.len() - 1], 8) is Some);
    assert(digit_value(d[0], 10) is Some);
    assert(digit_value(d[d.len() - 1], 10) is Some);
    lemma_trim_unchanged(o);
    lemma_trim_unchanged(d);
    let a = seq!['&'] + o;
    assert(a[0] == '&' && a.last() == o.last());
    lemma_trim_unchanged(a);
    assert(a[1] == o[0]);
    assert(a.drop_first() =~= o);
    let b = seq!['&', 'O'] + o;
    assert(b[0] == '&' && b[1] == 'O' && b.last() == o.last());
    lemma_trim_unchanged(b);
    assert(b.subrange(2, b.len() as int) =~= o);
}

/// A label offset read as a decimal number, negated after a `-`, that
/// must fit in 18 signed bits.
pub open spec fn spec_offset(s: Seq<char>, negative: bool) -> Result<i32, AssembleError> {
    match spec_parse_i32(s) {
        Some(v) => {
            let w = if negative {
                -v
            } else {
                v as int
            };
            if (negative && v == i32::MIN) || w < -0o400000 || w > 0o377777 {
                Err(AssembleError::InvalidOffset)
            } else {
                Ok(w as i32)
            }
        },
        None => Err(AssembleError::InvalidOffset),
    }
}

/// An operand: a number, else `LABEL`, `LABEL+n` or `LABEL-n` (split at
/// the first `+`, or else the first `-`), where the label `LOK` stands for
/// the current location.
pub open spec fn spec_parse_operand(s: Seq<char>) -> Result<OperandView, AssembleError> {
    match spec_parse_number(s) {
        Err(e) => Err(e),
        Ok(Some(value)) => Ok(OperandView::Number { value }),
        Ok(None) => {
            let lo: (Seq<char>, Result<i32, AssembleError>) = match spec_split_once(s, '+') {
                Some(p) => (p.0, spec_offset(p.1, false)),
                None => match spec_split_once(s, '-') {
                    Some(p) => (p.0, spec_offset(p.1, true)),
                    None => (s, Ok(0i32)),
                },
            };
            match lo.1 {
                Err(e) => Err(e),
                Ok(offset) => if lo.0 == "LOK"@ {
                    Ok(OperandView::Lok { offset })
                } else {
                    Ok(OperandView::Symbol { label: lo.0, offset })
                },
            }
        },
    }
}

/// An 18-bit address moved by a signed offset, wrapping around.
pub open spec fn spec_apply_offset(address: int, offset: int) -> int {
    (address + offset + 0o1000000) % 0o1000000
}

impl Operand {
    /// Reads a number operand from `s[lo..hi]` (see `spec_parse_number`).
    fn parse_number(s: &Vec<char>, lo: usize, hi: usize) -> (r: Result<Option<u32>, AssembleError>)
        requires
            lo <= hi <= s@.len(),
        ensures
            r == spec_parse_number(s@.subrange(lo as int, hi as int)),
    {
        let ghost sv = s@.subrange(lo as int, hi as int);
        let (a, b) = trim_bounds(s, lo, hi);
        let ghost t = s@.subrange(a as int, b as int);
        let v = if b - a >= 2 && s[a] == '&' && (s[a + 1] == 'O' || s[a + 1] == 'o') {
            let (c, d) = trim_bounds(s, a + 2, b);
            assert(s@.subrange(a + 2, b as int) =~= t.subrange(2, t.len() as int));
            parse_u32(s, c, d, 8)
        } else if b - a >= 1 && s[a] == '&' {
            let (c, d) = trim_bounds(s, a + 1, b);
            assert(s@.subrange(a + 1, b as int) =~= t.drop_first());
            parse_u32(s, c, d, 8)
        } else {
            parse_u32(s, a, b, 10)
        };
        match v {
            Some(v) => if v <= 0o777777 {
                Ok(Some(v))
            } else {
                Err(AssembleError::ValueTooLarge)
            },
            None => Ok(None),
        }
    }

    fn offset(s: &Vec<char>, lo: usize, hi: usize, negative: bool) -> (r: Result<i32, AssembleError>)
        requires
            lo <= hi <= s@.len(),
        ensures
            r == spec_offset(s@.subrange(lo as int, hi as int), negative),
    {
        match parse_i32(s, lo, hi) {
            Some(v) => {
                if negative && v == i32::MIN {
                    return Err(AssembleError::InvalidOffset);
                }
                let w = if negative {
                    -v
                } else {
                    v
                };
                if w < -0o400000 || w > 0o377777 {
                    Err(AssembleError::InvalidOffset)
                } else {
                    Ok(w)
                }
            },
            None => Err(AssembleError::InvalidOffset),
        }
    }

    /// Reads an operand from `line[lo..hi]`, whose characters are `s`.
    fn parse(line: &str, s: &Vec<char>, lo: usize, hi: usize) -> (r: Result<Operand, AssembleError>)
        requires
            s@ == line@,
            lo <= hi <= s@.len(),
        ensures
            match spec_parse_operand(s@.subrange(lo as int, hi as int)) {
                Ok(o) => r is Ok && r->Ok_0@ == o && operand_wf(o),
                Err(e) => r == Err::<Operand, AssembleError>(e),
            },
    {
        let ghost sv = s@.subrange(lo as int, hi as int);
        match Self::parse_number(s, lo, hi)? {
            Some(value) => {
                return Ok(Operand::Number { value });
            },
            None => {},
        }
        let (label_end, offset) = match find_char(s, lo, hi, '+') {
            Some(i) => {
                assert(s@.subrange(lo as int, i as int) =~= sv.subrange(0, i - lo));
                assert(s@.subrange(i + 1, hi as int) =~= sv.subrange(i - lo + 1, sv.len() as int));
                assert(spec_split_once(sv, '+') == Some(
                    (s@.subrange(lo as int, i as int), s@.subrange(i + 1, hi as int)),
                ));
                (i, Self::offset(s, i + 1, hi, false))
            },
            None => match find_char(s, lo, hi, '-') {
                Some(i) => {
                    assert(s@.subrange(lo as int, i as int) =~= sv.subrange(0, i - lo));
                    assert(s@.subrange(i + 1, hi as int) =~= sv.subrange(
                        i - lo + 1,
                        sv.len() as int,
                    ));
                    assert(spec_split_once(sv, '+') is None);
                    assert(spec_split_once(sv, '-') == Some(
                        (s@.subrange(lo as int, i as int), s@.subrange(i + 1, hi as int)),
                    ));
                    (i, Self::offset(s, i + 1, hi, true))
                },
                None => {
                    assert(s@.subrange(lo as int, hi as int) == sv);
                    (hi, Ok(0))
                },
            },
        };
        let offset = offset?;
        if equals_literal(s, lo, label_end, "LOK") {
            Ok(Operand::Lok { offset })
        } else {
            let label = String::from_str(line.substring_char(lo, label_end));
            Ok(Operand::Symbol { label, offset })
        }
    }

    /// An 18-bit address moved by a signed offset, wrapping around.
    fn apply_offset(address: u32, offset: i32) -> (r: u32)
        requires
            address <= 0o777777,
            -0o400000 <= offset <= 0o377777,
        ensures
            r == spec_apply_offset(address as int, offset as int),
            r <= 0o777777,
    {
        let sum = (address as i64) + (offset as i64) + 0o1000000;
        (sum % 0o1000000) as u32
    }
}

/// Labels and their addresses; a later definition of a label replaces an
/// earlier one.
pub struct SymbolTable {
    entries: Vec<(Vec<char>, u32)>,
}

/// The map made by inserting the entries in order.
pub open spec fn table_map(entries: Seq<(Seq<char>, u32)>) -> Map<Seq<char>, u32>
    decreases entries.len(),
{
    if entries.len() == 0 {
        Map::empty()
    } else {
        table_map(entries.drop_last()).insert(entries.last().0, entries.last().1)
    }
}

impl SymbolTable {
    pub closed spec fn entry_views(&self) -> Seq<(Seq<char>, u32)> {
        self.entries@.map_values(|e: (Vec<char>, u32)| (e.0@, e.1))
    }

    pub closed spec fn addresses_wf(&self) -> bool {
        forall|i: int| 0 <= i < self.entries@.len() ==> #[trigger] self.entries@[i].1 <= 0o777777
    }
}

impl View for SymbolTable {
    type V = Map<Seq<char>, u32>;

    open spec fn view(&self) -> Map<Seq<char>, u32> {
        table_map(self.entry_views())
    }
}

proof fn lemma_table_found(e: Seq<(Seq<char>, u32)>, k: Seq<char>, i: int)
    requires
        0 <= i < e.len(),
        e[i].0 == k,
        forall|j: int| i < j < e.len() ==> e[j].0 != k,
    ensures
        table_map(e).dom().contains(k),
        table_map(e)[k] == e[i].1,
    decreases e.len(),
{
    if i < e.len() - 1 {
        assert forall|j: int| i < j < e.drop_last().len() implies e.drop_last()[j].0 != k by {
            assert(e.drop_last()[j] == e[j]);
        }
        lemma_table_found(e.drop_last(), k, i);
    }
}

proof fn lemma_table_absent(e: Seq<(Seq<char>, u32)>, k: Seq<char>)
    requires
        forall|j: int| 0 <= j < e.len() ==> e[j].0 != k,
    ensures
        !table_map(e).dom().contains(k),
    decreases e.len(),
{
    if e.len() > 0 {
        assert forall|j: int| 0 <= j < e.drop_last().len() implies e.drop_last()[j].0 != k by {
            assert(e.drop_last()[j] == e[j]);
        }
        lemma_table_absent(e.drop_last(), k);
    }
}

impl SymbolTable {
    /// An empty table.
    pub fn new() -> (t: SymbolTable)
        ensures
            t@ == Map::<Seq<char>, u32>::empty(),
            t.addresses_wf(),
    {
        let t = SymbolTable { entries: Vec::new() };
        assert(t.entry_views() =~= Seq::<(Seq<char>, u32)>::empty());
        t
    }

    /// Defines `label` at `address`, replacing an earlier definition.
    pub fn insert(&mut self, label: Vec<char>, address: u32)
        requires
            old(self).addresses_wf(),
            address <= 0o777777,
        ensures
            final(self)@ == old(self)@.insert(label@, address),
            final(self).addresses_wf(),
    {
        let ghost before = self.entry_views();
        self.entries.push((label, address));
        assert(self.entry_views().drop_last() =~= before);
        assert(self.entry_views().last() == (label@, address));
    }

    /// The address of the label `s[lo..hi]`, if it is defined.
    pub fn get(&self, s: &Vec<char>, lo: usize, hi: usize) -> (r: Option<u32>)
        requires
            lo <= hi <= s@.len(),
            self.addresses_wf(),
        ensures
            self@.dom().contains(s@.subrange(lo as int, hi as int)) ==> r == Some(
                self@[s@.subrange(lo as int, hi as int)],
            ),
            !self@.dom().contains(s@.subrange(lo as int, hi as int)) ==> r is None,
            r matches Some(v) ==> v <= 0o777777,
    {
        let ghost k = s@.subrange(lo as int, hi as int);
        let ghost e = self.entry_views();
        let mut i = self.entries.len();
        while i > 0
            invariant
                i <= self.entries@.len(),
                e == self.entry_views(),
                k == s@.subrange(lo as int, hi as int),
                lo <= hi <= s@.len(),
                self.addresses_wf(),
                forall|j: int| i <= j < e.len() ==> e[j].0 != k,
            decreases i,
        {
            i -= 1;
            if chars_equal(&self.entries[i].0, s, lo, hi) {
                proof {
                    lemma_table_found(e, k, i as int);
                }
                return Some(self.entries[i].1);
            }
        }
        proof {
            lemma_table_absent(e, k);
        }
        None
    }
}

/// Whether `a` equals `s[lo..hi]`.
fn chars_equal(a: &Vec<char>, s: &Vec<char>, lo: usize, hi: usize) -> (r: bool)
    requires
        lo <= hi <= s@.len(),
    ensures
        r == (a@ == s@.subrange(lo as int, hi as int)),
{
    if a.len() != hi - lo {
        return false;
    }
    let mut i: usize = 0;
    while i < a.len()
        invariant
            i <= a@.len(),
            a@.len() == hi - lo,
            hi <= s@.len(),
            forall|j: int| 0 <= j < i ==> a@[j] == s@[lo + j],
        decreases a@.len() - i,
    {
        if a[i] != s[lo + i] {
            assert(a@[i as int] != s@.subrange(lo as int, hi as int)[i as int]);
            return false;
        }
        i += 1;
    }
    assert(a@ =~= s@.subrange(lo as int, hi as int));
    true
}

/// The value of an operand at `address`: a number as it is, `LOK` and
/// labels (white space trimmed) moved by their offsets; an error for an
/// undefined label.
pub open spec fn spec_evaluate(o: OperandView, address: int, symbols: Map<Seq<char>, u32>) -> Result<
    u32,
    AssembleError,
> {
    match o {
        OperandView::Number { value } => Ok(value),
        OperandView::Lok { offset } => Ok(spec_apply_offset(address, offset as int) as u32),
        OperandView::Symbol { label, offset } => if symbols.dom().contains(spec_trim(label)) {
            Ok(spec_apply_offset(symbols[spec_trim(label)] as int, offset as int) as u32)
        } else {
            Err(AssembleError::UndefinedSymbol)
        },
    }
}

impl Operand {
    /// The operand's value at `address` (see `spec_evaluate`).
    pub fn evaluate(&self, address: u32, symbols: &SymbolTable) -> (r: Result<u32, AssembleError>)
        requires
            address <= 0o777777,
            operand_wf(self@),
            symbols.addresses_wf(),
        ensures
            r == spec_evaluate(self@, address as int, symbols@),
            r matches Ok(v) ==> v <= 0o777777,
    {
        match self {
            Operand::Number { value } => Ok(*value),
            Operand::Lok { offset } => Ok(Self::apply_offset(address, *offset)),
            Operand::Symbol { label, offset } => {
                let chars = chars_of(label.as_str());
                let (a, b) = trim_bounds(&chars, 0, chars.len());
                assert(chars@.subrange(0, chars@.len() as int) =~= label@);
                match symbols.get(&chars, a, b) {
                    Some(v) => Ok(Self::apply_offset(v, *offset)),
                    None => Err(AssembleError::UndefinedSymbol),
                }
            },
        }
    }

    /// A copy of the operand.
    pub fn duplicate(&self) -> (r: Operand)
        ensures
            r@ == self@,
    {
        match self {
            Operand::Number { value } => Operand::Number { value: *value },
            Operand::Lok { offset } => Operand::Lok { offset: *offset },
            Operand::Symbol { label, offset } => Operand::Symbol {
                label: label.clone(),
                offset: *offset,
            },
        }
    }
}

/// A unit of code at one address: an instruction with an optional operand,
/// a data word, or an ASCII string (one character per word when `wide`,
/// else two).
pub enum Code {
    Instruction { instruction: Instruction, operand: Option<Operand> },
    Data { value: Operand },
    AsciiString { data: Vec<u8>, wide: bool },
}

/// A unit of code as plain values.
pub enum CodeView {
    Instruction { instruction: Instruction, operand: Option<OperandView> },
    Data { value: OperandView },
    AsciiString { data: Seq<u8>, wide: bool },
}

impl View for Code {
    type V = CodeView;

    open spec fn view(&self) -> CodeView {
        match self {
            Code::Instruction { instruction, operand } => CodeView::Instruction {
                instruction: *instruction,
                operand: match operand {
                    Some(o) => Some(o@),
                    None => None,
                },
            },
            Code::Data { value } => CodeView::Data { value: value@ },
            Code::AsciiString { data, wide } => CodeView::AsciiString { data: data@, wide: *wide },
        }
    }
}

pub open spec fn code_wf(c: CodeView) -> bool {
    match c {
        CodeView::Instruction { instruction, operand } => instruction_wf(instruction) && match operand {
            Some(o) => operand_wf(o),
            None => true,
        },
        CodeView::Data { value } => operand_wf(value),
        CodeView::AsciiString { .. } => true,
    }
}

/// A word of the assembled program: a value, or an instruction with its
/// operand's value, still to be encoded.
pub enum Word {
    Value { value: u32 },
    Instruction { instruction: Instruction, operand: u32 },
}

/// The words of an ASCII string. Wide: one character per word. Narrow:
/// two per word, the first in the upper nine bits, padded with a space.
/// Bit 8 of the last character's nine bits marks the end of the string.
pub open spec fn spec_ascii_words(data: Seq<u8>, wide: bool) -> Seq<u32> {
    let n = data.len();
    if wide {
        Seq::new(n, |i: int| (data[i] + (if i + 1 == n { 256int } else { 0int })) as u32)
    } else {
        Seq::new(
            ((n + 1) / 2) as nat,
            |i: int|
                {
                    let up = data[2 * i] + (if 2 * i + 1 == n { 256int } else { 0int });
                    let low = (if 2 * i + 1 < n { data[2 * i + 1] as int } else { 32int }) + (if 2
                        * i + 2 == n { 256int } else { 0int });
                    (up * 512 + low) as u32
                },
        )
    }
}

/// The number of words a unit of code takes; an error for a string whose
/// length, taken modulo 2^32, needs more than an 18-bit count.
pub open spec fn spec_code_len(c: CodeView) -> Result<u32, AssembleError> {
    match c {
        CodeView::AsciiString { data, wide } => {
            let n = data.len() % 0x1_0000_0000;
            if wide {
                if n <= 0o777777 {
                    Ok(n as u32)
                } else {
                    Err(AssembleError::TooLong)
                }
            } else if n < 0xffff_ffff && (n + 1) / 2 <= 0o777777 {
                Ok(((n + 1) / 2) as u32)
            } else {
                Err(AssembleError::TooLong)
            }
        },
        _ => Ok(1),
    }
}

/// The words of a unit of code placed at `address`.
pub open spec fn spec_code_words(c: CodeView, address: int, symbols: Map<Seq<char>, u32>) -> Result<
    Seq<Word>,
    AssembleError,
> {
    match c {
        CodeView::Instruction { instruction, operand } => match operand {
            None => Ok(seq![Word::Instruction { instruction, operand: 0 }]),
            Some(o) => match spec_evaluate(o, address, symbols) {
                Ok(v) => Ok(seq![Word::Instruction { instruction, operand: v }]),
                Err(e) => Err(e),
            },
        },
        CodeView::Data { value } => match spec_evaluate(value, address, symbols) {
            Ok(v) => Ok(seq![Word::Value { value: v }]),
            Err(e) => Err(e),
        },
        CodeView::AsciiString { data, wide } => Ok(
            spec_ascii_words(data, wide).map_values(|v: u32| Word::Value { value: v }),
        ),
    }
}

/// Whether `ws` are the words `spec` with each instruction encoded by `f`.
pub open spec fn words_resolve<F: Fn(Instruction, u32) -> u32>(
    ws: Seq<u32>,
    spec: Seq<Word>,
    f: F,
) -> bool {
    &&& ws.len() == spec.len()
    &&& forall|i: int|
        0 <= i < ws.len() ==> match #[trigger] spec[i] {
            Word::Value { value } => ws[i] == value,
            Word::Instruction { instruction, operand } => call_ensures(
                f,
                (instruction, operand),
                ws[i],
            ),
        }
}

/// Whether `f` can encode every instruction, into an 18-bit word.
pub open spec fn encoder_wf<F: Fn(Instruction, u32) -> u32>(f: F) -> bool {
    &&& forall|i: Instruction, o: u32| call_requires(f, (i, o))
    &&& forall|i: Instruction, o: u32, w: u32| call_ensures(f, (i, o), w) ==> w <= 0o777777
}

/// The words of a unit of code: as many as its length says (for strings
/// shorter than 2^32 characters); a data word is its operand's value at the
/// code's address; a wide string holds one character a word, the last one
/// marked by bit 8 (set with a bitwise or).
pub proof fn law_code_words(c: CodeView, address: int, symbols: Map<Seq<char>, u32>)
    requires
        c matches CodeView::AsciiString { data, .. } ==> data.len() <= u32::MAX,
    ensures
        spec_code_len(c) matches Ok(n) ==> (spec_code_words(c, address, symbols) matches Ok(ws)
            ==> ws.len() == n),
        c matches CodeView::Data { value } ==> (spec_evaluate(value, address, symbols) matches Ok(
            v,
        ) ==> spec_code_words(c, address, symbols) == Ok::<Seq<Word>, AssembleError>(
            seq![Word::Value { value: v }],
        )),
        c matches CodeView::AsciiString { data, wide } ==> (wide ==> forall|i: int|
            0 <= i < data.len() ==> spec_code_words(c, address, symbols)->Ok_0[i] == Word::Value {
                value: (data[i] as u32) | (if i + 1 == data.len() {
                    0o400u32
                } else {
                    0u32
                }),
            }),
{
    if let CodeView::AsciiString { data, wide } = c {
        if wide {
            assert forall|i: int| 0 <= i < data.len() implies spec_code_words(
                c,
                address,
                symbols,
            )->Ok_0[i] == Word::Value {
                value: (data[i] as u32) | (if i + 1 == data.len() {
                    0o400u32
                } else {
                    0u32
                }),
            } by {
                lemma_mark_bits(data[i] as u32);
            }
        }
    }
}

/// A copy of a byte sequence.
fn copy_bytes(data: &Vec<u8>) -> (r: Vec<u8>)
    ensures
        r@ == data@,
{
    let mut out: Vec<u8> = Vec::new();
    let mut i: usize = 0;
    while i < data.len()
        invariant
            i <= data.len(),
            out@ == data@.subrange(0, i as int),
        decreases data.len() - i,
    {
        out.push(data[i]);
        i += 1;
        assert(out@ =~= data@.subrange(0, i as int));
    }
    assert(out@ =~= data@);
    out
}

impl Code {
    /// A copy of the code.
    pub fn duplicate(&self) -> (r: Code)
        ensures
            r@ == self@,
    {
        match self {
            Code::Instruction { instruction, operand } => Code::Instruction {
                instruction: *instruction,
                operand: match operand {
                    Some(o) => Some(o.duplicate()),
                    None => None,
                },
            },
            Code::Data { value } => Code::Data { value: value.duplicate() },
            Code::AsciiString { data, wide } => Code::AsciiString {
                data: copy_bytes(data),
                wide: *wide,
            },
        }
    }

    /// The number of words the code takes (see `spec_code_len`).
    pub fn len(&self) -> (r: Result<u32, AssembleError>)
        ensures
            r == spec_code_len(self@),
    {
        match self {
            Code::AsciiString { data, wide } => {
                let len = data.len() as u64;
                let n = len as u32;
                assert(n == len % 0x1_0000_0000u64) by (bit_vector)
                    requires
                        n == len as u32,
                ;
                if *wide {
                    if n <= 0o777777 {
                        Ok(n)
                    } else {
                        Err(AssembleError::TooLong)
                    }
                } else if n < 0xffff_ffff && (n + 1) / 2 <= 0o777777 {
                    Ok((n + 1) / 2)
                } else {
                    Err(AssembleError::TooLong)
                }
            },
            _ => Ok(1),
        }
    }

    /// The words of the code placed at `address`, with each instruction
    /// encoded by `encode_instruction`.
    pub fn encode<F: Fn(Instruction, u32) -> u32>(
        &self,
        address: u32,
        symbols: &SymbolTable,
        encode_instruction: &F,
    ) -> (r: Result<Vec<u32>, AssembleError>)
        requires
            address <= 0o777777,
            code_wf(self@),
            symbols.addresses_wf(),
            encoder_wf(*encode_instruction),
        ensures
            match spec_code_words(self@, address as int, symbols@) {
                Ok(ws) => r is Ok && words_resolve(r->Ok_0@, ws, *encode_instruction) && forall|
                    i: int,
                | 0 <= i < r->Ok_0@.len() ==> #[trigger] r->Ok_0@[i] <= 0o777777,
                Err(e) => r == Err::<Vec<u32>, AssembleError>(e),
            },
    {
        match self {
            Code::Instruction { instruction, operand } => {
                let v = match operand {
                    Some(o) => o.evaluate(address, symbols)?,
                    None => 0,
                };
                let w = encode_instruction(*instruction, v);
                let mut out: Vec<u32> = Vec::new();
                out.push(w);
                Ok(out)
            },
            Code::Data { value } => {
                let v = value.evaluate(address, symbols)?;
                let mut out: Vec<u32> = Vec::new();
                out.push(v);
                Ok(out)
            },
            Code::AsciiString { data, wide } => {
                let words = ascii_words(data, *wide);
                let ghost spec_ws = spec_ascii_words(data@, *wide).map_values(
                    |v: u32| Word::Value { value: v },
                );
                assert forall|i: int| 0 <= i < words@.len() implies match #[trigger] spec_ws[i] {
                    Word::Value { value } => words@[i] == value,
                    Word::Instruction { instruction, operand } => call_ensures(
                        *encode_instruction,
                        (instruction, operand),
                        words@[i],
                    ),
                } by {}
                Ok(words)
            },
        }
    }
}

/// The words of an ASCII string (see `spec_ascii_words`).
fn ascii_words(data: &Vec<u8>, wide: bool) -> (r: Vec<u32>)
    ensures
        r@ == spec_ascii_words(data@, wide),
        forall|i: int| 0 <= i < r@.len() ==> #[trigger] r@[i] <= 0o777777,
{
    let n = data.len();
    let mut out: Vec<u32> = Vec::new();
    if wide {
        let mut i: usize = 0;
        while i < n
            invariant
                i <= n,
                n == data@.len(),
                out@.len() == i,
                forall|j: int| 0 <= j < i ==> #[trigger] out@[j] == spec_ascii_words(data@, true)[j],
                forall|j: int| 0 <= j < i ==> #[trigger] out@[j] <= 0o777777,
            decreases n - i,
        {
            let b = data[i] as u32;
            let bit: u32 = if i + 1 == n { 256 } else { 0 };
            assert(b | bit == b + bit) by (bit_vector)
                requires
                    b < 256u32,
                    bit == 0u32 || bit == 256u32,
            ;
            out.push(b | bit);
            i += 1;
        }
        assert(out@ =~= spec_ascii_words(data@, true));
    } else {
        let m = n / 2 + n % 2;
        assert(m == (n + 1) / 2);
        let mut i: usize = 0;
        while i < m
            invariant
                i <= m,
                m == (n + 1) / 2,
                n == data@.len(),
                out@.len() == i,
                forall|j: int| 0 <= j < i ==> #[trigger] out@[j] == spec_ascii_words(data@, false)[j],
                forall|j: int| 0 <= j < i ==> #[trigger] out@[j] <= 0o777777,
            decreases m - i,
        {
            let up_byte = data[2 * i] as u32;
            let up_bit: u32 = if 2 * i + 1 == n { 256 } else { 0 };
            let low_byte: u32 = if 2 * i + 1 < n { data[2 * i + 1] as u32 } else { 32 };
            let low_bit: u32 = if 2 * i + 1 == n - 1 { 256 } else { 0 };
            let up = up_byte | up_bit;
            let low = low_byte | low_bit;
            let w = (up << 9) | low;
            assert(w == (up_byte + up_bit) * 512 + (low_byte + low_bit) && w <= 0o777777) by (bit_vector)
                requires
                    up_byte < 256u32,
                    low_byte < 256u32,
                    up_bit == 0u32 || up_bit == 256u32,
                    low_bit == 0u32 || low_bit == 256u32,
                    up == up_byte | up_bit,
                    low == low_byte | low_bit,
                    w == (up << 9u32) | low,
            ;
            out.push(w);
            i += 1;
        }
        assert(out@ =~= spec_ascii_words(data@, false));
    }
    out
}

/// A line of source: its position, its code, comment and label, and
/// whether its code must start at an even address.
pub struct Line {
    pub source_line: usize,
    pub code: Option<Code>,
    pub comment: Option<String>,
    pub label: Option<String>,
    pub even_align: bool,
}

pub struct LineView {
    pub source_line: usize,
    pub code: Option<CodeView>,
    pub comment: Option<Seq<char>>,
    pub label: Option<Seq<char>>,
    pub even_align: bool,
}

impl View for Line {
    type V = LineView;

    open spec fn view(&self) -> LineView {
        LineView {
            source_line: self.source_line,
            code: match self.code {
                Some(c) => Some(c@),
                None => None,
            },
            comment: match self.comment {
                Some(c) => Some(c@),
                None => None,
            },
            label: match self.label {
                Some(c) => Some(c@),
                None => None,
            },
            even_align: self.even_align,
        }
    }
}

/// The lines that follow an `ORG`, to be placed from its address on.
pub struct OrgBlock {
    pub beginning_address: u32,
    pub lines: Vec<Line>,
}

pub struct OrgBlockView {
    pub beginning_address: u32,
    pub lines: Seq<LineView>,
}

impl View for OrgBlock {
    type V = OrgBlockView;

    open spec fn view(&self) -> OrgBlockView {
        OrgBlockView {
            beginning_address: self.beginning_address,
            lines: self.lines@.map_values(|l: Line| l@),
        }
    }
}

/// A parsed program: its start address operand and its org blocks.
pub struct Program {
    pub start_address: Operand,
    pub blocks: Vec<OrgBlock>,
}

pub struct ProgramView {
    pub start_address: OperandView,
    pub blocks: Seq<OrgBlockView>,
}

impl View for Program {
    type V = ProgramView;

    open spec fn view(&self) -> ProgramView {
        ProgramView {
            start_address: self.start_address@,
            blocks: self.blocks@.map_values(|b: OrgBlock| b@),
        }
    }
}

pub open spec fn block_wf(b: OrgBlockView) -> bool {
    &&& b.beginning_address <= 0o777777
    &&& forall|j: int|
        0 <= j < b.lines.len() ==> match #[trigger] b.lines[j].code {
            Some(c) => code_wf(c),
            None => true,
        }
}

pub open spec fn program_wf(p: ProgramView) -> bool {
    &&& operand_wf(p.start_address)
    &&& forall|i: int| 0 <= i < p.blocks.len() ==> block_wf(#[trigger] p.blocks[i])
}

/// The code of a line's text after its label (see `spec_parse_line`).
pub open spec fn spec_parse_code(rest: Seq<char>, idx: int) -> Result<
    Option<CodeView>,
    AssembleError,
> {
    let sp = spec_split_once(rest, ' ');
    if sp is None && rest.len() == 0 {
        Ok(None)
    } else if starts_with(rest, "EVEN"@) || starts_with(rest, "END"@) {
        Ok(None)
    } else {
        match sp {
            Some(p) => if p.0 == "DATA"@ {
                match spec_parse_operand(p.1) {
                    Ok(o) => Ok(Some(CodeView::Data { value: o })),
                    Err(e) => Err(e),
                }
            } else if p.0 == "AS"@ {
                Ok(Some(CodeView::AsciiString { data: vstd::utf8::encode_utf8(p.1), wide: false }))
            } else if p.0 == "AW"@ {
                Ok(Some(CodeView::AsciiString { data: vstd::utf8::encode_utf8(p.1), wide: true }))
            } else {
                match spec_parse_mnemonic(p.0) {
                    Some(i) => match spec_parse_operand(p.1) {
                        Ok(o) => Ok(Some(CodeView::Instruction { instruction: i, operand: Some(o) })),
                        Err(e) => Err(e),
                    },
                    None => Err(AssembleError::UnknownInstruction { line: idx as usize }),
                }
            },
            None => match spec_parse_mnemonic(rest) {
                Some(i) => Ok(Some(CodeView::Instruction { instruction: i, operand: None })),
                None => Err(AssembleError::UnknownInstruction { line: idx as usize }),
            },
        }
    }
}

/// The line `idx` added to the program. The text after the first `;` is a
/// comment. `SADD a` sets the start address operand; `ORG n` begins a block
/// at the number `n`. Otherwise a line may begin with `>LABEL ` and holds
/// nothing, `EVEN` (align to an even address), `END`, `DATA operand`,
/// `AS text` or `AW text` (ASCII strings, narrow or wide), or a mnemonic
/// with an optional operand after a space.
pub open spec fn spec_parse_line(p: ProgramView, idx: int, line: Seq<char>) -> Result<
    ProgramView,
    AssembleError,
> {
    let cs = spec_split_once(line, ';');
    let body = match cs {
        Some(q) => q.0,
        None => line,
    };
    let comment = match cs {
        Some(q) => Some(q.1),
        None => None,
    };
    let sp = spec_split_once(body, ' ');
    if sp is Some && sp.unwrap().0 == "SADD"@ {
        match spec_parse_operand(sp.unwrap().1) {
            Ok(o) => Ok(ProgramView { start_address: o, ..p }),
            Err(e) => Err(e),
        }
    } else if sp is Some && sp.unwrap().0 == "ORG"@ {
        match spec_parse_number(sp.unwrap().1) {
            Ok(Some(a)) => Ok(
                ProgramView {
                    blocks: p.blocks.push(OrgBlockView { beginning_address: a, lines: Seq::empty() }),
                    ..p
                },
            ),
            Ok(None) => Err(AssembleError::OrgWithoutAddress { line: idx as usize }),
            Err(e) => Err(e),
        }
    } else {
        let labelled: Result<(Option<Seq<char>>, Seq<char>), AssembleError> = if body.len() > 0
            && body[0] == '>' {
            match spec_split_once(body.drop_first(), ' ') {
                Some(q) => Ok((Some(q.0), q.1)),
                None => Err(AssembleError::MissingLabelSeparator { line: idx as usize }),
            }
        } else {
            Ok((None, body))
        };
        match labelled {
            Err(e) => Err(e),
            Ok(lr) => match spec_parse_code(lr.1, idx) {
                Err(e) => Err(e),
                Ok(code) => if p.blocks.len() == 0 {
                    Err(AssembleError::NoOrgBlock { line: idx as usize })
                } else {
                    let last = p.blocks.last();
                    let l = LineView {
                        source_line: idx as usize,
                        code,
                        comment,
                        label: lr.0,
                        even_align: starts_with(spec_trim(lr.1), "EVEN"@),
                    };
                    Ok(
                        ProgramView {
                            blocks: p.blocks.drop_last().push(
                                OrgBlockView { lines: last.lines.push(l), ..last },
                            ),
                            ..p
                        },
                    )
                },
            },
        }
    }
}

/// The program read from the first `n` lines.
pub open spec fn spec_parse_prefix(lines: Seq<Seq<char>>, n: nat) -> Result<
    ProgramView,
    AssembleError,
>
    decreases n,
{
    if n == 0 {
        Ok(ProgramView { start_address: OperandView::Number { value: 0 }, blocks: Seq::empty() })
    } else {
        match spec_parse_prefix(lines, (n - 1) as nat) {
            Ok(p) => spec_parse_line(p, n - 1, lines[n - 1]),
            Err(e) => Err(e),
        }
    }
}

/// The program read from the lines of the source.
pub open spec fn spec_parse(lines: Seq<Seq<char>>) -> Result<ProgramView, AssembleError> {
    spec_parse_prefix(lines, lines.len())
}

/// A copy of a byte slice.
fn bytes_to_vec(data: &[u8]) -> (r: Vec<u8>)
    ensures
        r@ == data@,
{
    let mut out: Vec<u8> = Vec::new();
    let mut i: usize = 0;
    while i < data.len()
        invariant
            i <= data@.len(),
            out@ == data@.subrange(0, i as int),
        decreases data@.len() - i,
    {
        out.push(data[i]);
        i += 1;
        assert(out@ =~= data@.subrange(0, i as int));
    }
    assert(out@ =~= data@);
    out
}

/// The code in `line[lo..hi]`, the text after a line's label.
fn parse_code(line: &str, s: &Vec<char>, lo: usize, hi: usize, idx: usize) -> (r: Result<
    Option<Code>,
    AssembleError,
>)
    requires
        s@ == line@,
        lo <= hi <= s@.len(),
    ensures
        match spec_parse_code(s@.subrange(lo as int, hi as int), idx as int) {
            Ok(c) => r is Ok && match c {
                Some(c) => r->Ok_0 is Some && r->Ok_0->0@ == c && code_wf(c),
                None => r->Ok_0 is None,
            },
            Err(e) => r == Err::<Option<Code>, AssembleError>(e),
        },
{
    let ghost rest = s@.subrange(lo as int, hi as int);
    let sp = find_char(s, lo, hi, ' ');
    if sp.is_none() && lo == hi {
        return Ok(None);
    }
    if starts_with_literal(s, lo, hi, "EVEN") || starts_with_literal(s, lo, hi, "END") {
        return Ok(None);
    }
    match sp {
        Some(i) => {
            assert(s@.subrange(lo as int, i as int) =~= rest.subrange(0, i - lo));
            assert(s@.subrange(i + 1, hi as int) =~= rest.subrange(i - lo + 1, rest.len() as int));
            if equals_literal(s, lo, i, "DATA") {
                let o = Operand::parse(line, s, i + 1, hi)?;
                Ok(Some(Code::Data { value: o }))
            } else if equals_literal(s, lo, i, "AS") {
                let text = line.substring_char(i + 1, hi);
                let data = bytes_to_vec(text.as_bytes());
                Ok(Some(Code::AsciiString { data, wide: false }))
            } else if equals_literal(s, lo, i, "AW") {
                let text = line.substring_char(i + 1, hi);
                let data = bytes_to_vec(text.as_bytes());
                Ok(Some(Code::AsciiString { data, wide: true }))
            } else {
                match parse_mnemonic(s, lo, i) {
                    Some(instruction) => {
                        let o = Operand::parse(line, s, i + 1, hi)?;
                        Ok(Some(Code::Instruction { instruction, operand: Some(o) }))
                    },
                    None => Err(AssembleError::UnknownInstruction { line: idx }),
                }
            }
        },
        None => match parse_mnemonic(s, lo, hi) {
            Some(instruction) => Ok(Some(Code::Instruction { instruction, operand: None })),
            None => Err(AssembleError::UnknownInstruction { line: idx }),
        },
    }
}

/// Adds the line `idx` to the program (see `spec_parse_line`).
fn parse_line(program: &mut Program, idx: usize, line: &str) -> (r: Result<(), AssembleError>)
    requires
        program_wf(old(program)@),
    ensures
        match spec_parse_line(old(program)@, idx as int, line@) {
            Ok(p) => r is Ok && final(program)@ == p && program_wf(p),
            Err(e) => r == Err::<(), AssembleError>(e),
        },
{
    let s = chars_of(line);
    let n = s.len();
    assert(s@.subrange(0, n as int) =~= line@);
    let ghost lv = line@;
    let (body_end, comment) = match find_char(&s, 0, n, ';') {
        Some(i) => {
            let c = String::from_str(line.substring_char(i + 1, n));
            (i, Some(c))
        },
        None => (n, None),
    };
    let ghost body = s@.subrange(0, body_end as int);
    assert(body == match spec_split_once(lv, ';') {
        Some(q) => q.0,
        None => lv,
    });
    let sp = find_char(&s, 0, body_end, ' ');
    assert(s@.subrange(0, body_end as int) == body);
    match sp {
        Some(i) => {
            assert(s@.subrange(0, i as int) =~= body.subrange(0, i as int));
            assert(s@.subrange(i + 1, body_end as int) =~= body.subrange(i + 1, body.len() as int));
            if equals_literal(&s, 0, i, "SADD") {
                let o = Operand::parse(line, &s, i + 1, body_end)?;
                program.start_address = o;
                return Ok(());
            }
            if equals_literal(&s, 0, i, "ORG") {
                match Operand::parse_number(&s, i + 1, body_end)? {
                    Some(a) => {
                        let ghost before = program.blocks@.map_values(|b: OrgBlock| b@);
                        let nb = OrgBlock { beginning_address: a, lines: Vec::new() };
                        assert(nb@.lines =~= Seq::<LineView>::empty());
                        program.blocks.push(nb);
                        assert(program@.blocks =~= before.push(
                            OrgBlockView { beginning_address: a, lines: Seq::empty() },
                        ));
                        assert(program_wf(program@)) by {
                            assert forall|k: int| 0 <= k < program@.blocks.len() implies block_wf(
                                #[trigger] program@.blocks[k],
                            ) by {
                                if k < before.len() {
                                    assert(program@.blocks[k] == old(program)@.blocks[k]);
                                }
                            }
                        }
                        return Ok(());
                    },
                    None => {
                        return Err(AssembleError::OrgWithoutAddress { line: idx });
                    },
                }
            }
        },
        None => {},
    }
    add_code_line(program, idx, line, &s, body_end, comment)
}

/// Adds a line that is neither `SADD` nor `ORG` to the last block.
#[verifier::rlimit(30)]
fn add_code_line(
    program: &mut Program,
    idx: usize,
    line: &str,
    s: &Vec<char>,
    body_end: usize,
    comment: Option<String>,
) -> (r: Result<(), AssembleError>)
    requires
        program_wf(old(program)@),
        s@ == line@,
        body_end <= s@.len(),
    ensures
        ({
            let body = s@.subrange(0, body_end as int);
            let labelled: Result<(Option<Seq<char>>, Seq<char>), AssembleError> = if body.len() > 0
                && body[0] == '>' {
                match spec_split_once(body.drop_first(), ' ') {
                    Some(q) => Ok((Some(q.0), q.1)),
                    None => Err(AssembleError::MissingLabelSeparator { line: idx }),
                }
            } else {
                Ok((None, body))
            };
            match labelled {
                Err(e) => r == Err::<(), AssembleError>(e),
                Ok(lr) => match spec_parse_code(lr.1, idx as int) {
                    Err(e) => r == Err::<(), AssembleError>(e),
                    Ok(code) => if old(program)@.blocks.len() == 0 {
                        r == Err::<(), AssembleError>(AssembleError::NoOrgBlock { line: idx })
                    } else {
                        let last = old(program)@.blocks.last();
                        let l = LineView {
                            source_line: idx,
                            code,
                            comment: match comment {
                                Some(c) => Some(c@),
                                None => None,
                            },
                            label: lr.0,
                            even_align: starts_with(spec_trim(lr.1), "EVEN"@),
                        };
                        &&& r is Ok
                        &&& final(program)@ == ProgramView {
                            blocks: old(program)@.blocks.drop_last().push(
                                OrgBlockView { lines: last.lines.push(l), ..last },
                            ),
                            ..old(program)@
                        }
                        &&& program_wf(final(program)@)
                    },
                },
            }
        }),
{
    let ghost body = s@.subrange(0, body_end as int);
    let (label, rlo, rhi) = if body_end > 0 && s[0] == '>' {
        match find_char(s, 1, body_end, ' ') {
            Some(j) => {
                assert(s@.subrange(1, body_end as int) =~= body.drop_first());
                assert(s@.subrange(1, j as int) =~= body.drop_first().subrange(0, j - 1));
                assert(s@.subrange(j + 1, body_end as int) =~= body.drop_first().subrange(
                    j as int,
                    body.drop_first().len() as int,
                ));
                let l = String::from_str(line.substring_char(1, j));
                (Some(l), j + 1, body_end)
            },
            None => {
                assert(s@.subrange(1, body_end as int) =~= body.drop_first());
                return Err(AssembleError::MissingLabelSeparator { line: idx });
            },
        }
    } else {
        (None, 0, body_end)
    };
    let code = parse_code(line, s, rlo, rhi, idx)?;
    let (a, b) = trim_bounds(s, rlo, rhi);
    let even_align = starts_with_literal(s, a, b, "EVEN");
    if program.blocks.len() == 0 {
        return Err(AssembleError::NoOrgBlock { line: idx });
    }
    let ghost before = program.blocks@.map_values(|b: OrgBlock| b@);
    let mut last = program.blocks.pop().unwrap();
    let ghost last_view = last@;
    assert(before.last() == last_view);
    let new_line = Line { source_line: idx, code, comment, label, even_align };
    let ghost lview = new_line@;
    let ghost prev_lines = last.lines@.map_values(|l: Line| l@);
    last.lines.push(new_line);
    assert(last.lines@.map_values(|l: Line| l@) =~= prev_lines.push(lview));
    program.blocks.push(last);
    assert(program@.blocks =~= before.drop_last().push(
        OrgBlockView { lines: last_view.lines.push(lview), ..last_view },
    ));
    assert(program_wf(program@)) by {
        assert forall|k: int| 0 <= k < program@.blocks.len() implies block_wf(
            #[trigger] program@.blocks[k],
        ) by {
            if k < before.len() - 1 {
                assert(program@.blocks[k] == old(program)@.blocks[k]);
            } else {
                assert(block_wf(old(program)@.blocks[k]));
                let bl = program@.blocks[k];
                assert forall|j: int| 0 <= j < bl.lines.len() implies match #[trigger] bl.lines[j].code {
                    Some(c) => code_wf(c),
                    None => true,
                } by {
                    if j < last_view.lines.len() {
                        assert(bl.lines[j] == last_view.lines[j]);
                    }
                }
            }
        }
    }
    Ok(())
}

proof fn lemma_parse_error_stays(lines: Seq<Seq<char>>, n: nat, m: nat)
    requires
        n <= m <= lines.len(),
        spec_parse_prefix(lines, n) is Err,
    ensures
        spec_parse_prefix(lines, m) == spec_parse_prefix(lines, n),
    decreases m - n,
{
    if m > n {
        lemma_parse_error_stays(lines, n, (m - 1) as nat);
    }
}

/// Reads the lines of assembly source into a program (see `spec_parse`).
pub fn parse(lines: &Vec<&str>) -> (r: Result<Program, AssembleError>)
    ensures
        match spec_parse(lines@.map_values(|l: &str| l@)) {
            Ok(p) => r is Ok && r->Ok_0@ == p && program_wf(p),
            Err(e) => r is Err && r->Err_0 == e,
        },
{
    let ghost ls = lines@.map_values(|l: &str| l@);
    let mut program = Program { start_address: Operand::Number { value: 0 }, blocks: Vec::new() };
    assert(program@.blocks =~= Seq::<OrgBlockView>::empty());
    let mut i: usize = 0;
    while i < lines.len()
        invariant
            i <= lines@.len(),
            ls == lines@.map_values(|l: &str| l@),
            spec_parse_prefix(ls, i as nat) == Ok::<ProgramView, AssembleError>(program@),
            program_wf(program@),
        decreases lines@.len() - i,
    {
        let line: &str = lines[i];
        assert(ls[i as int] == line@);
        match parse_line(&mut program, i, line) {
            Ok(()) => {},
            Err(e) => {
                proof {
                    lemma_parse_error_stays(ls, (i + 1) as nat, ls.len());
                }
                return Err(e);
            },
        }
        i += 1;
    }
    assert(ls.len() == lines@.len());
    Ok(program)
}

/// Where the layout of a block stands: the next address, the code placed so
/// far with its addresses, and the labels defined so far.
pub struct LayoutProgress {
    pub address: int,
    pub entries: Seq<(u32, CodeView)>,
    pub symbols: Map<Seq<char>, u32>,
}

/// A zero word placed at an odd address when the next code must start at
/// an even one.
pub open spec fn spec_pad(s: LayoutProgress, even_align: bool) -> LayoutProgress {
    if even_align && s.address % 2 == 1 {
        LayoutProgress {
            address: (s.address + 1) % 0o1000000,
            entries: s.entries.push(
                (s.address as u32, CodeView::Data { value: OperandView::Number { value: 0 } }),
            ),
            symbols: s.symbols,
        }
    } else {
        s
    }
}

/// One more line laid out: a zero word pads to an even address when the
/// line asks for one; code is placed at the address, which its label then
/// names, and the address moves past it (18-bit, wrapping).
pub open spec fn spec_layout_line(s: LayoutProgress, l: LineView) -> Result<
    LayoutProgress,
    AssembleError,
> {
    let padded = spec_pad(s, l.even_align);
    match l.code {
        None => Ok(padded),
        Some(c) => match spec_code_len(c) {
            Ok(n) => Ok(
                LayoutProgress {
                    address: (padded.address + n) % 0o1000000,
                    entries: padded.entries.push((padded.address as u32, c)),
                    symbols: match l.label {
                        Some(label) => padded.symbols.insert(label, padded.address as u32),
                        None => padded.symbols,
                    },
                },
            ),
            Err(e) => Err(e),
        },
    }
}

/// `EVEN` pads only odd addresses: the code of a line that asks for an
/// even address is placed at the address rounded up to even (18-bit,
/// wrapping), after one zero word when the address was odd and after none
/// when it was even; a line without code at an even address changes
/// nothing.
pub proof fn law_even_pads_only_odd(s: LayoutProgress, l: LineView)
    requires
        0 <= s.address <= 0o777777,
        l.even_align,
    ensures
        l.code matches Some(c) ==> (spec_code_len(c) is Ok ==> (spec_layout_line(s, l) matches Ok(
            r,
        ) && {
            let a = (s.address + s.address % 2) % 0o1000000;
            &&& a % 2 == 0
            &&& r.entries.len() == s.entries.len() + 1 + s.address % 2
            &&& r.entries.last() == (a as u32, c)
            &&& s.address % 2 == 0 ==> r.entries == s.entries.push((s.address as u32, c))
            &&& s.address % 2 == 1 ==> r.entries[s.entries.len() as int] == (
                s.address as u32,
                CodeView::Data { value: OperandView::Number { value: 0 } },
            )
        })),
        l.code is None && s.address % 2 == 0 ==> spec_layout_line(s, l) == Ok::<
            LayoutProgress,
            AssembleError,
        >(s),
{
}

/// The first `n` lines of a block laid out.
pub open spec fn spec_layout_lines(lines: Seq<LineView>, n: nat, start: LayoutProgress) -> Result<
    LayoutProgress,
    AssembleError,
>
    decreases n,
{
    if n == 0 {
        Ok(start)
    } else {
        match spec_layout_lines(lines, (n - 1) as nat, start) {
            Ok(s) => spec_layout_line(s, lines[n - 1]),
            Err(e) => Err(e),
        }
    }
}

/// The first `n` blocks laid out, each from its beginning address, with
/// labels collected across all blocks.
pub open spec fn spec_layout_blocks(blocks: Seq<OrgBlockView>, n: nat) -> Result<
    (Seq<Seq<(u32, CodeView)>>, Map<Seq<char>, u32>),
    AssembleError,
>
    decreases n,
{
    if n == 0 {
        Ok((Seq::empty(), Map::empty()))
    } else {
        match spec_layout_blocks(blocks, (n - 1) as nat) {
            Ok(prev) => {
                let b = blocks[n - 1];
                match spec_layout_lines(
                    b.lines,
                    b.lines.len(),
                    LayoutProgress {
                        address: b.beginning_address as int,
                        entries: Seq::empty(),
                        symbols: prev.1,
                    },
                ) {
                    Ok(s) => Ok((prev.0.push(s.entries), s.symbols)),
                    Err(e) => Err(e),
                }
            },
            Err(e) => Err(e),
        }
    }
}

/// The code of the program placed at addresses, block by block, and the
/// labels with their addresses.
pub open spec fn spec_layout(p: ProgramView) -> Result<
    (Seq<Seq<(u32, CodeView)>>, Map<Seq<char>, u32>),
    AssembleError,
> {
    spec_layout_blocks(p.blocks, p.blocks.len())
}

/// The views of laid-out code.
pub open spec fn layout_entries_view(v: Vec<Vec<(u32, Code)>>) -> Seq<Seq<(u32, CodeView)>> {
    v@.map_values(|b: Vec<(u32, Code)>| b@.map_values(|e: (u32, Code)| (e.0, e.1@)))
}

pub open spec fn entries_wf(es: Seq<(u32, CodeView)>) -> bool {
    forall|j: int| 0 <= j < es.len() ==> (#[trigger] es[j]).0 <= 0o777777 && code_wf(es[j].1)
}

proof fn lemma_layout_error_stays_lines(lines: Seq<LineView>, n: nat, m: nat, start: LayoutProgress)
    requires
        n <= m <= lines.len(),
        spec_layout_lines(lines, n, start) is Err,
    ensures
        spec_layout_lines(lines, m, start) == spec_layout_lines(lines, n, start),
    decreases m - n,
{
    if m > n {
        lemma_layout_error_stays_lines(lines, n, (m - 1) as nat, start);
    }
}

proof fn lemma_layout_error_stays_blocks(blocks: Seq<OrgBlockView>, n: nat, m: nat)
    requires
        n <= m <= blocks.len(),
        spec_layout_blocks(blocks, n) is Err,
    ensures
        spec_layout_blocks(blocks, m) == spec_layout_blocks(blocks, n),
    decreases m - n,
{
    if m > n {
        lemma_layout_error_stays_blocks(blocks, n, (m - 1) as nat);
    }
}

/// Lays out one block from its beginning address (see `spec_layout_line`).
#[verifier::rlimit(30)]
fn layout_block(block: &OrgBlock, symbols: &mut SymbolTable) -> (r: Result<
    Vec<(u32, Code)>,
    AssembleError,
>)
    requires
        block_wf(block@),
        old(symbols).addresses_wf(),
    ensures
        match spec_layout_lines(
            block@.lines,
            block@.lines.len(),
            LayoutProgress {
                address: block.beginning_address as int,
                entries: Seq::empty(),
                symbols: old(symbols)@,
            },
        ) {
            Ok(s) => r is Ok && r->Ok_0@.map_values(|e: (u32, Code)| (e.0, e.1@)) == s.entries
                && final(symbols)@ == s.symbols && final(symbols).addresses_wf() && entries_wf(
                s.entries,
            ),
            Err(e) => r == Err::<Vec<(u32, Code)>, AssembleError>(e),
        },
{
    let ghost start = LayoutProgress {
        address: block.beginning_address as int,
        entries: Seq::empty(),
        symbols: old(symbols)@,
    };
    let ghost lines = block@.lines;
    let mut entries: Vec<(u32, Code)> = Vec::new();
    let mut address = block.beginning_address;
    let mut i: usize = 0;
    assert(entries@.map_values(|e: (u32, Code)| (e.0, e.1@)) =~= Seq::<(u32, CodeView)>::empty());
    while i < block.lines.len()
        invariant
            i <= block.lines@.len(),
            lines == block@.lines,
            start == (LayoutProgress {
                address: block.beginning_address as int,
                entries: Seq::<(u32, CodeView)>::empty(),
                symbols: old(symbols)@,
            }),
            block_wf(block@),
            address <= 0o777777,
            symbols.addresses_wf(),
            spec_layout_lines(lines, i as nat, start) == Ok::<LayoutProgress, AssembleError>(
                LayoutProgress {
                    address: address as int,
                    entries: entries@.map_values(|e: (u32, Code)| (e.0, e.1@)),
                    symbols: symbols@,
                },
            ),
            entries_wf(entries@.map_values(|e: (u32, Code)| (e.0, e.1@))),
        decreases block.lines@.len() - i,
    {
        let line = &block.lines[i];
        assert(lines[i as int] == line@);
        let ghost ev = entries@.map_values(|e: (u32, Code)| (e.0, e.1@));
        let ghost before = LayoutProgress { address: address as int, entries: ev, symbols: symbols@ };
        if line.even_align && address % 2 == 1 {
            let old_address = address;
            entries.push((address, Code::Data { value: Operand::Number { value: 0 } }));
            address = crate::arith::wrapping_add_18(address, 1);
            assert(entries@.map_values(|e: (u32, Code)| (e.0, e.1@)) =~= ev.push(
                (old_address, CodeView::Data { value: OperandView::Number { value: 0 } }),
            ));
        }
        let ghost ev1 = entries@.map_values(|e: (u32, Code)| (e.0, e.1@));
        assert(spec_pad(before, line.even_align) == LayoutProgress {
            address: address as int,
            entries: ev1,
            symbols: symbols@,
        });
        match &line.code {
            Some(code) => {
                assert(lines[i as int].code == Some(code@));
                assert(code_wf(code@));
                let n = match code.len() {
                    Ok(n) => n,
                    Err(e) => {
                        proof {
                            assert(spec_layout_lines(lines, (i + 1) as nat, start) == spec_layout_line(before, lines[i as int]));
                            assert(spec_layout_lines(lines, (i + 1) as nat, start) == Err::<LayoutProgress, AssembleError>(e));
                            lemma_layout_error_stays_lines(
                                lines,
                                (i + 1) as nat,
                                lines.len(),
                                start,
                            );
                            assert(spec_layout_lines(block@.lines, block@.lines.len(), start) == Err::<LayoutProgress, AssembleError>(e));
                        }
                        return Err(e);
                    },
                };
                match &line.label {
                    Some(label) => {
                        let key = chars_of(label.as_str());
                        symbols.insert(key, address);
                    },
                    None => {},
                }
                entries.push((address, code.duplicate()));
                assert(entries@.map_values(|e: (u32, Code)| (e.0, e.1@)) =~= ev1.push(
                    (address, code@),
                ));
                address = crate::arith::wrapping_add_18(address, n);
            },
            None => {},
        }
        i += 1;
    }
    Ok(entries)
}

/// Places the code of every block at its addresses and collects the labels
/// (see `spec_layout`).
pub fn layout(program: &Program) -> (r: Result<(Vec<Vec<(u32, Code)>>, SymbolTable), AssembleError>)
    requires
        program_wf(program@),
    ensures
        match spec_layout(program@) {
            Ok(p) => r is Ok && layout_entries_view(r->Ok_0.0) == p.0 && r->Ok_0.1@ == p.1
                && r->Ok_0.1.addresses_wf() && forall|i: int|
                0 <= i < p.0.len() ==> entries_wf(#[trigger] p.0[i]),
            Err(e) => r == Err::<(Vec<Vec<(u32, Code)>>, SymbolTable), AssembleError>(e),
        },
{
    let ghost bs = program@.blocks;
    let mut symbols = SymbolTable::new();
    let mut blocks: Vec<Vec<(u32, Code)>> = Vec::new();
    let mut i: usize = 0;
    assert(layout_entries_view(blocks) =~= Seq::<Seq<(u32, CodeView)>>::empty());
    while i < program.blocks.len()
        invariant
            i <= program.blocks@.len(),
            bs == program@.blocks,
            program_wf(program@),
            symbols.addresses_wf(),
            spec_layout_blocks(bs, i as nat) == Ok::<
                (Seq<Seq<(u32, CodeView)>>, Map<Seq<char>, u32>),
                AssembleError,
            >((layout_entries_view(blocks), symbols@)),
            forall|j: int|
                0 <= j < layout_entries_view(blocks).len() ==> entries_wf(
                    #[trigger] layout_entries_view(blocks)[j],
                ),
        decreases program.blocks@.len() - i,
    {
        let block = &program.blocks[i];
        assert(bs[i as int] == block@);
        assert(block_wf(block@));
        match layout_block(block, &mut symbols) {
            Ok(entries) => {
                let ghost before = layout_entries_view(blocks);
                blocks.push(entries);
                assert(layout_entries_view(blocks) =~= before.push(
                    entries@.map_values(|e: (u32, Code)| (e.0, e.1@)),
                ));
            },
            Err(e) => {
                proof {
                    lemma_layout_error_stays_blocks(bs, (i + 1) as nat, bs.len());
                }
                return Err(e);
            },
        }
        i += 1;
    }
    assert(bs.len() == program.blocks@.len());
    Ok((blocks, symbols))
}

/// The words of laid-out code, in order.
pub open spec fn spec_entries_words(es: Seq<(u32, CodeView)>, symbols: Map<Seq<char>, u32>) -> Result<
    Seq<Word>,
    AssembleError,
>
    decreases es.len(),
{
    if es.len() == 0 {
        Ok(Seq::empty())
    } else {
        match spec_entries_words(es.drop_last(), symbols) {
            Ok(ws) => match spec_code_words(es.last().1, es.last().0 as int, symbols) {
                Ok(w) => Ok(ws + w),
                Err(e) => Err(e),
            },
            Err(e) => Err(e),
        }
    }
}

/// The segments of laid-out blocks: each starts at its first code's
/// address and holds the words of its code; an empty block is an error.
pub open spec fn spec_encode_blocks(
    blocks: Seq<Seq<(u32, CodeView)>>,
    symbols: Map<Seq<char>, u32>,
) -> Result<Seq<(u32, Seq<Word>)>, AssembleError>
    decreases blocks.len(),
{
    if blocks.len() == 0 {
        Ok(Seq::empty())
    } else {
        match spec_encode_blocks(blocks.drop_last(), symbols) {
            Ok(segs) => {
                let b = blocks.last();
                if b.len() == 0 {
                    Err(AssembleError::EmptyBlock)
                } else {
                    match spec_entries_words(b, symbols) {
                        Ok(ws) => Ok(segs.push((b[0].0, ws))),
                        Err(e) => Err(e),
                    }
                }
            },
            Err(e) => Err(e),
        }
    }
}

/// The start address (the start operand evaluated at address 0), then the
/// segments of the laid-out blocks.
pub open spec fn spec_encode(
    blocks: Seq<Seq<(u32, CodeView)>>,
    symbols: Map<Seq<char>, u32>,
    start: OperandView,
) -> Result<(u32, Seq<(u32, Seq<Word>)>), AssembleError> {
    match spec_evaluate(start, 0, symbols) {
        Ok(a) => match spec_encode_blocks(blocks, symbols) {
            Ok(segs) => Ok((a, segs)),
            Err(e) => Err(e),
        },
        Err(e) => Err(e),
    }
}

/// Whether `l` holds the start address `a` and the segments `segs`, with
/// each instruction encoded by `f`.
pub open spec fn layout_resolves<F: Fn(Instruction, u32) -> u32>(
    l: LayoutView,
    a: u32,
    segs: Seq<(u32, Seq<Word>)>,
    f: F,
) -> bool {
    &&& l.start_address == a
    &&& l.segments.len() == segs.len()
    &&& forall|i: int|
        0 <= i < segs.len() ==> {
            &&& (#[trigger] l.segments[i]).start_addr == segs[i].0
            &&& words_resolve(l.segments[i].data, segs[i].1, f)
        }
}

proof fn lemma_entries_error_stays(es: Seq<(u32, CodeView)>, symbols: Map<Seq<char>, u32>, n: int)
    requires
        0 <= n <= es.len(),
        spec_entries_words(es.subrange(0, n), symbols) is Err,
    ensures
        spec_entries_words(es, symbols) == spec_entries_words(es.subrange(0, n), symbols),
    decreases es.len() - n,
{
    if n < es.len() {
        assert(es.subrange(0, n + 1).drop_last() =~= es.subrange(0, n));
        lemma_entries_error_stays(es, symbols, n + 1);
    } else {
        assert(es.subrange(0, n) =~= es);
    }
}

proof fn lemma_blocks_error_stays(
    bs: Seq<Seq<(u32, CodeView)>>,
    symbols: Map<Seq<char>, u32>,
    n: int,
)
    requires
        0 <= n <= bs.len(),
        spec_encode_blocks(bs.subrange(0, n), symbols) is Err,
    ensures
        spec_encode_blocks(bs, symbols) == spec_encode_blocks(bs.subrange(0, n), symbols),
    decreases bs.len() - n,
{
    if n < bs.len() {
        assert(bs.subrange(0, n + 1).drop_last() =~= bs.subrange(0, n));
        lemma_blocks_error_stays(bs, symbols, n + 1);
    } else {
        assert(bs.subrange(0, n) =~= bs);
    }
}

/// The words of one laid-out block (see `spec_entries_words`).
fn encode_entries<F: Fn(Instruction, u32) -> u32>(
    entries: &Vec<(u32, Code)>,
    symbols: &SymbolTable,
    encode_instruction: &F,
) -> (r: Result<Vec<u32>, AssembleError>)
    requires
        entries_wf(entries@.map_values(|e: (u32, Code)| (e.0, e.1@))),
        symbols.addresses_wf(),
        encoder_wf(*encode_instruction),
    ensures
        match spec_entries_words(entries@.map_values(|e: (u32, Code)| (e.0, e.1@)), symbols@) {
            Ok(ws) => r is Ok && words_resolve(r->Ok_0@, ws, *encode_instruction) && all_words(
                r->Ok_0@,
            ),
            Err(e) => r == Err::<Vec<u32>, AssembleError>(e),
        },
{
    let ghost es = entries@.map_values(|e: (u32, Code)| (e.0, e.1@));
    let mut out: Vec<u32> = Vec::new();
    let ghost mut ws: Seq<Word> = Seq::empty();
    let mut i: usize = 0;
    assert(es.subrange(0, 0) =~= Seq::<(u32, CodeView)>::empty());
    while i < entries.len()
        invariant
            i <= entries@.len(),
            es == entries@.map_values(|e: (u32, Code)| (e.0, e.1@)),
            entries_wf(es),
            symbols.addresses_wf(),
            encoder_wf(*encode_instruction),
            spec_entries_words(es.subrange(0, i as int), symbols@) == Ok::<Seq<Word>, AssembleError>(ws),
            words_resolve(out@, ws, *encode_instruction),
            all_words(out@),
        decreases entries@.len() - i,
    {
        let (address, code) = &entries[i];
        assert(es[i as int] == (*address, code@));
        assert(es[i as int].0 <= 0o777777 && code_wf(es[i as int].1));
        assert(es.subrange(0, i + 1).drop_last() =~= es.subrange(0, i as int));
        assert(es.subrange(0, i + 1).last() == es[i as int]);
        match code.encode(*address, symbols, encode_instruction) {
            Ok(mut words) => {
                let ghost w = match spec_code_words(code@, *address as int, symbols@) {
                    Ok(w) => w,
                    Err(_) => Seq::empty(),
                };
                let ghost before = out@;
                let ghost wbefore = ws;
                out.append(&mut words);
                proof {
                    ws = ws + w;
                    assert forall|k: int| 0 <= k < out@.len() implies match #[trigger] ws[k] {
                        Word::Value { value } => out@[k] == value,
                        Word::Instruction { instruction, operand } => call_ensures(
                            *encode_instruction,
                            (instruction, operand),
                            out@[k],
                        ),
                    } by {
                        if k < before.len() {
                            assert(ws[k] == wbefore[k]);
                            assert(out@[k] == before[k]);
                        } else {
                            assert(ws[k] == w[k - before.len()]);
                        }
                    }
                }
            },
            Err(e) => {
                proof {
                    lemma_entries_error_stays(es, symbols@, i + 1);
                }
                return Err(e);
            },
        }
        i += 1;
    }
    assert(es.subrange(0, i as int) =~= es);
    Ok(out)
}

/// Whether every address and word of a layout fits in 18 bits.
pub open spec fn layout_words_wf(l: LayoutView) -> bool {
    &&& l.start_address <= 0o777777
    &&& forall|i: int|
        0 <= i < l.segments.len() ==> (#[trigger] l.segments[i]).start_addr <= 0o777777
            && all_words(l.segments[i].data)
}

/// Encodes laid-out blocks into a memory layout (see `spec_encode`), each
/// instruction by `encode_instruction`.
pub fn encode<F: Fn(Instruction, u32) -> u32>(
    program_layout: Vec<Vec<(u32, Code)>>,
    symbols: &SymbolTable,
    program: &Program,
    encode_instruction: &F,
) -> (r: Result<Layout, AssembleError>)
    requires
        operand_wf(program@.start_address),
        symbols.addresses_wf(),
        forall|i: int|
            0 <= i < layout_entries_view(program_layout).len() ==> entries_wf(
                #[trigger] layout_entries_view(program_layout)[i],
            ),
        encoder_wf(*encode_instruction),
    ensures
        match spec_encode(layout_entries_view(program_layout), symbols@, program@.start_address) {
            Ok(p) => r is Ok && layout_resolves(r->Ok_0@, p.0, p.1, *encode_instruction)
                && layout_words_wf(r->Ok_0@),
            Err(e) => r == Err::<Layout, AssembleError>(e),
        },
{
    let ghost bs = layout_entries_view(program_layout);
    let start_address = program.start_address.evaluate(0, symbols)?;
    let mut segments: Vec<LayoutSegment> = Vec::new();
    let ghost mut segs: Seq<(u32, Seq<Word>)> = Seq::empty();
    let mut i: usize = 0;
    assert(bs.subrange(0, 0) =~= Seq::<Seq<(u32, CodeView)>>::empty());
    while i < program_layout.len()
        invariant
            i <= program_layout@.len(),
            bs == layout_entries_view(program_layout),
            spec_evaluate(program@.start_address, 0, symbols@) == Ok::<u32, AssembleError>(
                start_address,
            ),
            start_address <= 0o777777,
            symbols.addresses_wf(),
            encoder_wf(*encode_instruction),
            forall|j: int| 0 <= j < bs.len() ==> entries_wf(#[trigger] bs[j]),
            spec_encode_blocks(bs.subrange(0, i as int), symbols@) == Ok::<
                Seq<(u32, Seq<Word>)>,
                AssembleError,
            >(segs),
            segments@.len() == segs.len(),
            forall|j: int|
                0 <= j < segs.len() ==> {
                    &&& (#[trigger] segments@[j]).start_addr == segs[j].0
                    &&& segments@[j].start_addr <= 0o777777
                    &&& words_resolve(segments@[j].data@, segs[j].1, *encode_instruction)
                    &&& all_words(segments@[j].data@)
                },
        decreases program_layout@.len() - i,
    {
        let block = &program_layout[i];
        let ghost b = block@.map_values(|e: (u32, Code)| (e.0, e.1@));
        assert(bs[i as int] == b);
        assert(bs.subrange(0, i + 1).drop_last() =~= bs.subrange(0, i as int));
        assert(bs.subrange(0, i + 1).last() == b);
        if block.len() == 0 {
            proof {
                lemma_blocks_error_stays(bs, symbols@, i + 1);
            }
            return Err(AssembleError::EmptyBlock);
        }
        let start_addr = block[0].0;
        assert(b[0].0 == start_addr);
        assert(entries_wf(b));
        assert(b[0].0 <= 0o777777);
        match encode_entries(block, symbols, encode_instruction) {
            Ok(data) => {
                let ghost ws = match spec_entries_words(b, symbols@) {
                    Ok(ws) => ws,
                    Err(_) => Seq::empty(),
                };
                segments.push(LayoutSegment { start_addr, data });
                proof {
                    segs = segs.push((start_addr, ws));
                }
            },
            Err(e) => {
                proof {
                    lemma_blocks_error_stays(bs, symbols@, i + 1);
                }
                return Err(e);
            },
        }
        i += 1;
    }
    assert(bs.subrange(0, i as int) =~= bs);
    let l = Layout { segments, start_address };
    assert(l@.segments.len() == segs.len());
    assert forall|j: int| 0 <= j < segs.len() implies {
        &&& (#[trigger] l@.segments[j]).start_addr == segs[j].0
        &&& words_resolve(l@.segments[j].data, segs[j].1, *encode_instruction)
    } by {
        assert(l@.segments[j] == segments@[j]@);
    }
    assert forall|j: int| 0 <= j < l@.segments.len() implies (#[trigger] l@.segments[j]).start_addr
        <= 0o777777 && all_words(l@.segments[j].data) by {
        assert(l@.segments[j] == segments@[j]@);
    }
    Ok(l)
}

/// Whether a segment holds more words than an 18-bit count.
pub open spec fn has_long_segment(segs: Seq<(u32, Seq<Word>)>) -> bool {
    exists|i: int| 0 <= i < segs.len() && (#[trigger] segs[i]).1.len() > 0o777777
}

/// The whole assembly of source lines: parse, lay out, encode, and refuse a
/// segment too long for the tape format.
pub open spec fn spec_assemble(ls: Seq<Seq<char>>) -> Result<
    (u32, Seq<(u32, Seq<Word>)>),
    AssembleError,
> {
    match spec_parse(ls) {
        Ok(p) => match spec_layout(p) {
            Ok(l) => match spec_encode(l.0, l.1, p.start_address) {
                Ok(x) => if has_long_segment(x.1) {
                    Err(AssembleError::TooLong)
                } else {
                    Ok(x)
                },
                Err(e) => Err(e),
            },
            Err(e) => Err(e),
        },
        Err(e) => Err(e),
    }
}

/// Assembling is parsing, then laying out, then encoding: when the lines
/// parse to `p`, `p` lays out to blocks and labels, and these encode to a
/// start address and segments with none too long for the tape format, the
/// assembly is exactly that start address and those segments; when any
/// stage refuses the program, the assembly is refused with its error.
pub proof fn law_assemble_composes(ls: Seq<Seq<char>>)
    ensures
        spec_parse(ls) matches Ok(p) ==> (spec_layout(p) matches Ok(l) ==> (spec_encode(
            l.0,
            l.1,
            p.start_address,
        ) matches Ok(x) ==> spec_assemble(ls) == if has_long_segment(x.1) {
            Err::<(u32, Seq<(u32, Seq<Word>)>), AssembleError>(AssembleError::TooLong)
        } else {
            Ok(x)
        })),
        spec_parse(ls) matches Err(e) ==> spec_assemble(ls) == Err::<
            (u32, Seq<(u32, Seq<Word>)>),
            AssembleError,
        >(e),
        spec_parse(ls) matches Ok(p) ==> (spec_layout(p) matches Err(e) ==> spec_assemble(ls)
            == Err::<(u32, Seq<(u32, Seq<Word>)>), AssembleError>(e)),
        spec_parse(ls) matches Ok(p) ==> (spec_layout(p) matches Ok(l) ==> (spec_encode(
            l.0,
            l.1,
            p.start_address,
        ) matches Err(e) ==> spec_assemble(ls) == Err::<(u32, Seq<(u32, Seq<Word>)>), AssembleError>(
            e,
        ))),
{
}

/// Whether `t` is the `.76` tape of the assembled program `x` (start
/// address and segments), its instructions encoded by `f`.
pub open spec fn assembles_to<F: Fn(Instruction, u32) -> u32>(
    x: (u32, Seq<(u32, Seq<Word>)>),
    f: F,
    t: Seq<u8>,
) -> bool {
    exists|l: LayoutView|
        #[trigger] layout_resolves(l, x.0, x.1, f) && layout_wf(l) && t == spec_encode_layout(l)
}

/// Whether `f` gives one word for each instruction and operand.
pub open spec fn encoder_deterministic<F: Fn(Instruction, u32) -> u32>(f: F) -> bool {
    forall|i: Instruction, o: u32, w1: u32, w2: u32|
        #![trigger call_ensures(f, (i, o), w1), call_ensures(f, (i, o), w2)]
        call_ensures(f, (i, o), w1) && call_ensures(f, (i, o), w2) ==> w1 == w2
}

/// Assembling gives one tape: two tapes that `assemble` may give for the
/// same lines, with an encoder that gives one word for each instruction
/// and operand, are the same tape.
pub proof fn law_assemble_deterministic<F: Fn(Instruction, u32) -> u32>(
    ls: Seq<Seq<char>>,
    f: F,
    t1: Seq<u8>,
    t2: Seq<u8>,
)
    requires
        encoder_deterministic(f),
        spec_assemble(ls) matches Ok(x) && assembles_to(x, f, t1) && assembles_to(x, f, t2),
    ensures
        t1 == t2,
{
    let x = spec_assemble(ls)->Ok_0;
    let l1 = choose|l: LayoutView|
        #[trigger] layout_resolves(l, x.0, x.1, f) && layout_wf(l) && t1 == spec_encode_layout(l);
    let l2 = choose|l: LayoutView|
        #[trigger] layout_resolves(l, x.0, x.1, f) && layout_wf(l) && t2 == spec_encode_layout(l);
    assert forall|i: int| 0 <= i < l1.segments.len() implies #[trigger] l1.segments[i]
        == l2.segments[i] by {
        let a = l1.segments[i].data;
        let b = l2.segments[i].data;
        let ws = x.1[i].1;
        assert(words_resolve(a, ws, f));
        assert(words_resolve(b, ws, f));
        assert forall|k: int| 0 <= k < a.len() implies a[k] == b[k] by {
            match ws[k] {
                Word::Value { value } => {},
                Word::Instruction { instruction, operand } => {
                    assert(call_ensures(f, (instruction, operand), a[k]));
                    assert(call_ensures(f, (instruction, operand), b[k]));
                },
            }
        }
        assert(a =~= b);
    }
    assert(l1.segments =~= l2.segments);
    assert(l1 == l2);
}

/// Assembles source lines into a `.76` tape (see `spec_assemble`), each
/// instruction encoded by `encode_instruction`.
pub fn assemble<F: Fn(Instruction, u32) -> u32>(lines: &Vec<&str>, encode_instruction: F) -> (r:
    Result<Tape, AssembleError>)
    requires
        encoder_wf(encode_instruction),
    ensures
        match spec_assemble(lines@.map_values(|l: &str| l@)) {
            Ok(x) => r is Ok && assembles_to(x, encode_instruction, r->Ok_0@),
            Err(e) => r == Err::<Tape, AssembleError>(e),
        },
{
    let ghost ls = lines@.map_values(|l: &str| l@);
    let program = parse(lines)?;
    let (program_layout, symbols) = layout(&program)?;
    let memory_layout = encode(program_layout, &symbols, &program, &encode_instruction)?;
    let ghost x = spec_encode(
        spec_layout(program@)->Ok_0.0,
        spec_layout(program@)->Ok_0.1,
        program@.start_address,
    )->Ok_0;
    assert(spec_parse(ls) == Ok::<ProgramView, AssembleError>(program@));
    assert(layout_resolves(memory_layout@, x.0, x.1, encode_instruction));
    let ghost outcome = if has_long_segment(x.1) {
        Err::<(u32, Seq<(u32, Seq<Word>)>), AssembleError>(AssembleError::TooLong)
    } else {
        Ok(x)
    };
    assert(spec_assemble(ls) == outcome);
    let mut i: usize = 0;
    while i < memory_layout.segments.len()
        invariant
            i <= memory_layout.segments@.len(),
            ls == lines@.map_values(|l: &str| l@),
            spec_assemble(ls) == outcome,
            outcome == (if has_long_segment(x.1) {
                Err::<(u32, Seq<(u32, Seq<Word>)>), AssembleError>(AssembleError::TooLong)
            } else {
                Ok(x)
            }),
            layout_resolves(memory_layout@, x.0, x.1, encode_instruction),
            forall|j: int|
                0 <= j < i ==> (#[trigger] memory_layout.segments@[j]).data@.len() <= 0o777777,
        decreases memory_layout.segments@.len() - i,
    {
        if memory_layout.segments[i].data.len() > 0o777777 {
            proof {
                assert(memory_layout@.segments[i as int] == memory_layout.segments@[i as int]@);
                assert(x.1[i as int].1.len() > 0o777777);
                assert(has_long_segment(x.1));
            }
            return Err(AssembleError::TooLong);
        }
        i += 1;
    }
    proof {
        assert forall|j: int| 0 <= j < memory_layout@.segments.len() implies segment_wf(
            #[trigger] memory_layout@.segments[j],
        ) by {
            assert(memory_layout@.segments[j] == memory_layout.segments@[j]@);
        }
        if has_long_segment(x.1) {
            let j = choose|j: int| 0 <= j < x.1.len() && (#[trigger] x.1[j]).1.len() > 0o777777;
            assert(memory_layout@.segments[j] == memory_layout.segments@[j]@);
            assert(memory_layout.segments@[j].data@.len() <= 0o777777);
        }
    }
    let ghost l = memory_layout@;
    let t = memory_layout.encode_76();
    assert(layout_resolves(l, x.0, x.1, encode_instruction));
    Ok(t)
}

} // verus!
