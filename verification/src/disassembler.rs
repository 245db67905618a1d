//! The analysis behind the disassembler: which addresses instructions jump
//! to, call, return through or read as data and arrays, the strings held in
//! memory, and how a jump target is shown.
use vstd::prelude::*;
use crate::instruction::Instruction;
use crate::emulator::{
    MachineView, continue_with, jump_with, spec_execute, spec_jump_condition, spec_p_addr,
};
use crate::memory::{Layout, LayoutView};
use crate::text::push_char;

verus! {

/// How an instruction refers to an address in its bank.
#[derive(Debug, Clone, Copy, PartialEq, Eq, Structural)]
pub enum Reference {
    /// A jump, conditional or not.
    Jump,
    /// A return jump: the start of a subroutine.
    ReturnJump,
    /// An indirect jump: the return word of a subroutine.
    Return,
    /// A single word of data.
    Data,
    /// The base of an indexed array.
    Array,
}

/// The reference an instruction makes, with its 12-bit address field;
/// `None` for instructions that refer to no address.
pub open spec fn spec_reference(i: Instruction) -> Option<(Reference, u16)> {
    match i {
        Instruction::JP { y } | Instruction::JPAUZ { y } | Instruction::JPALZ { y }
        | Instruction::JPAUNZ { y } | Instruction::JPALNZ { y } | Instruction::JPAUP { y }
        | Instruction::JPALP { y } | Instruction::JPAUNG { y } | Instruction::JPALNG { y } => Some(
            (Reference::Jump, y),
        ),
        Instruction::RJP { y } => Some((Reference::ReturnJump, y)),
        Instruction::IJP { y } => Some((Reference::Return, y)),
        Instruction::CMAL { y } | Instruction::SLSU { y } | Instruction::CMSK { y }
        | Instruction::ENTAU { y } | Instruction::ENTAL { y } | Instruction::ADDAL { y }
        | Instruction::SUBAL { y } | Instruction::ADDA { y } | Instruction::SUBA { y }
        | Instruction::MULAL { y } | Instruction::DIVA { y } | Instruction::ENTB { y }
        | Instruction::ENTBK { u: y } | Instruction::CL { y } | Instruction::STRB { y }
        | Instruction::STRAL { y } | Instruction::STRAU { y } | Instruction::SLSET { y }
        | Instruction::SLCL { y } | Instruction::SLCP { y } | Instruction::BSK { y }
        | Instruction::ISK { y } | Instruction::ENTALK { u: y } | Instruction::ADDALK { u: y }
        | Instruction::STRICR { y } | Instruction::STRADR { y } | Instruction::STRSR { y } => Some(
            (Reference::Data, y),
        ),
        Instruction::CMALB { y } | Instruction::SLSUB { y } | Instruction::CMSKB { y }
        | Instruction::ENTAUB { y } | Instruction::ENTALB { y } | Instruction::ADDALB { y }
        | Instruction::SUBALB { y } | Instruction::ADDAB { y } | Instruction::SUBAB { y }
        | Instruction::MULALB { y } | Instruction::DIVAB { y } | Instruction::ENTBB { y }
        | Instruction::ENTBKB { u: y } | Instruction::CLB { y } | Instruction::STRBB { y }
        | Instruction::STRALB { y } | Instruction::STRAUB { y } => Some((Reference::Array, y)),
        _ => None,
    }
}

/// The jumps that the disassembler lists are the instructions that move P
/// to their address field in P's bank: an unconditional jump, and a
/// conditional jump whenever its condition holds, is classified as a jump
/// to the address it goes to; and an instruction classified as a jump
/// either goes there or continues with the next word.
pub proof fn law_jumps_are_jump_references(
    s: MachineView,
    i: Instruction,
    compare: bool,
    equal: bool,
    greater: bool,
)
    ensures
        (i is JP || spec_jump_condition(s, i, compare, equal, greater)) ==> (spec_reference(
            i,
        ) matches Some((Reference::Jump, y)) && spec_execute(s, i, compare, equal, greater)
            == jump_with(MachineView { p: spec_p_addr(s, y as int) as u32, ..s })),
        spec_reference(i) matches Some((Reference::Jump, y)) ==> (spec_execute(
            s,
            i,
            compare,
            equal,
            greater,
        ) == jump_with(MachineView { p: spec_p_addr(s, y as int) as u32, ..s }) || spec_execute(
            s,
            i,
            compare,
            equal,
            greater,
        ) == continue_with(s)),
{
}

/// The reference an instruction makes (see `spec_reference`).
pub fn reference(i: Instruction) -> (r: Option<(Reference, u16)>)
    ensures
        r == spec_reference(i),
{
    match i {
        Instruction::JP { y } | Instruction::JPAUZ { y } | Instruction::JPALZ { y }
        | Instruction::JPAUNZ { y } | Instruction::JPALNZ { y } | Instruction::JPAUP { y }
        | Instruction::JPALP { y } | Instruction::JPAUNG { y } | Instruction::JPALNG { y } => Some(
            (Reference::Jump, y),
        ),
        Instruction::RJP { y } => Some((Reference::ReturnJump, y)),
        Instruction::IJP { y } => Some((Reference::Return, y)),
        Instruction::CMAL { y } | Instruction::SLSU { y } | Instruction::CMSK { y }
        | Instruction::ENTAU { y } | Instruction::ENTAL { y } | Instruction::ADDAL { y }
        | Instruction::SUBAL { y } | Instruction::ADDA { y } | Instruction::SUBA { y }
        | Instruction::MULAL { y } | Instruction::DIVA { y } | Instruction::ENTB { y }
        | Instruction::ENTBK { u: y } | Instruction::CL { y } | Instruction::STRB { y }
        | Instruction::STRAL { y } | Instruction::STRAU { y } | Instruction::SLSET { y }
        | Instruction::SLCL { y } | Instruction::SLCP { y } | Instruction::BSK { y }
        | Instruction::ISK { y } | Instruction::ENTALK { u: y } | Instruction::ADDALK { u: y }
        | Instruction::STRICR { y } | Instruction::STRADR { y } | Instruction::STRSR { y } => Some(
            (Reference::Data, y),
        ),
        Instruction::CMALB { y } | Instruction::SLSUB { y } | Instruction::CMSKB { y }
        | Instruction::ENTAUB { y } | Instruction::ENTALB { y } | Instruction::ADDALB { y }
        | Instruction::SUBALB { y } | Instruction::ADDAB { y } | Instruction::SUBAB { y }
        | Instruction::MULALB { y } | Instruction::DIVAB { y } | Instruction::ENTBB { y }
        | Instruction::ENTBKB { u: y } | Instruction::CLB { y } | Instruction::STRBB { y }
        | Instruction::STRALB { y } | Instruction::STRAUB { y } => Some((Reference::Array, y)),
        _ => None,
    }
}

/// The address `y` in the bank of `addr`: the upper six bits of `addr`
/// with `y` as the lower twelve.
pub open spec fn spec_target(addr: int, y: int) -> int {
    (addr / 4096) * 4096 + y
}

/// The address `y` in the bank of `addr` (see `spec_target`).
pub fn target(addr: u32, y: u16) -> (r: u32)
    requires
        addr <= 0o777777,
        y <= 0o7777,
    ensures
        r == spec_target(addr as int, y as int),
        r <= 0o777777,
{
    let yy = y as u32;
    assert((addr & 0o770000u32) | yy == (addr / 4096) * 4096 + yy) by (bit_vector)
        requires
            addr <= 0o777777u32,
            yy <= 0o7777u32,
    ;
    (addr & 0o770000) | yy
}

/// Whether a sequence of addresses is strictly increasing: a sorted set.
pub open spec fn sorted_set(v: Seq<u32>) -> bool {
    forall|i: int, j: int| 0 <= i < j < v.len() ==> v[i] < v[j]
}

/// Adds an address to a sorted set, keeping it sorted.
pub fn insert_sorted(v: &mut Vec<u32>, x: u32)
    requires
        sorted_set(old(v)@),
    ensures
        sorted_set(final(v)@),
        final(v)@.to_set() == old(v)@.to_set().insert(x),
{
    let mut i: usize = 0;
    while i < v.len() && v[i] < x
        invariant
            i <= v@.len(),
            sorted_set(v@),
            forall|j: int| 0 <= j < i ==> v@[j] < x,
        decreases v@.len() - i,
    {
        i += 1;
    }
    if i < v.len() && v[i] == x {
        assert(old(v)@.to_set().insert(x) =~= old(v)@.to_set()) by {
            assert(old(v)@.to_set().contains(x)) by {
                assert(old(v)@[i as int] == x);
            }
        }
        return;
    }
    let ghost before = v@;
    v.insert(i, x);
    assert(v@ == before.insert(i as int, x));
    assert forall|a: int, b: int| 0 <= a < b < v@.len() implies v@[a] < v@[b] by {
        if b < i {
        } else if b == i {
        } else if a < i {
            assert(v@[b] == before[b - 1]);
        } else if a == i {
            assert(v@[b] == before[b - 1]);
            assert(before[i as int] >= x);
            if b - 1 > i {
                assert(before[i as int] < before[b - 1]);
            }
        } else {
            assert(v@[a] == before[a - 1]);
            assert(v@[b] == before[b - 1]);
        }
    }
    assert forall|y: u32| v@.to_set().contains(y) <==> before.to_set().insert(x).contains(y) by {
        if v@.to_set().contains(y) {
            let k = choose|k: int| 0 <= k < v@.len() && v@[k] == y;
            if k < i {
                assert(before[k] == y);
            } else if k > i {
                assert(before[k - 1] == y);
            }
        }
        if before.to_set().contains(y) {
            let k = choose|k: int| 0 <= k < before.len() && before[k] == y;
            if k < i {
                assert(v@[k] == y);
            } else {
                assert(v@[k + 1] == y);
            }
        }
        if y == x {
            assert(v@[i as int] == x);
        }
    }
    assert(v@.to_set() =~= before.to_set().insert(x));
}

/// The union of two sorted sets, sorted.
pub fn union_sorted(a: &Vec<u32>, b: &Vec<u32>) -> (r: Vec<u32>)
    requires
        sorted_set(a@),
        sorted_set(b@),
    ensures
        sorted_set(r@),
        r@.to_set() == a@.to_set().union(b@.to_set()),
{
    let mut out: Vec<u32> = Vec::new();
    let mut i: usize = 0;
    while i < a.len()
        invariant
            i <= a@.len(),
            sorted_set(out@),
            out@.to_set() == a@.subrange(0, i as int).to_set(),
        decreases a@.len() - i,
    {
        insert_sorted(&mut out, a[i]);
        assert(a@.subrange(0, i + 1).to_set() =~= a@.subrange(0, i as int).to_set().insert(a@[i as int])) by {
            assert(a@.subrange(0, i + 1) =~= a@.subrange(0, i as int).push(a@[i as int]));
            a@.subrange(0, i as int).lemma_push_to_set_commute(a@[i as int]);
        }
        i += 1;
    }
    assert(a@.subrange(0, i as int) =~= a@);
    let mut j: usize = 0;
    while j < b.len()
        invariant
            j <= b@.len(),
            sorted_set(out@),
            out@.to_set() == a@.to_set().union(b@.subrange(0, j as int).to_set()),
        decreases b@.len() - j,
    {
        insert_sorted(&mut out, b[j]);
        assert(b@.subrange(0, j + 1).to_set() =~= b@.subrange(0, j as int).to_set().insert(b@[j as int])) by {
            assert(b@.subrange(0, j + 1) =~= b@.subrange(0, j as int).push(b@[j as int]));
            b@.subrange(0, j as int).lemma_push_to_set_commute(b@[j as int]);
        }
        assert(out@.to_set() =~= a@.to_set().union(b@.subrange(0, j + 1).to_set()));
        j += 1;
    }
    assert(b@.subrange(0, j as int) =~= b@);
    out
}

/// The position of an address in a sorted set, which numbers its label.
pub fn position(v: &Vec<u32>, x: u32) -> (r: Option<usize>)
    requires
        sorted_set(v@),
    ensures
        match r {
            Some(k) => k < v@.len() && v@[k as int] == x,
            None => !v@.contains(x),
        },
{
    let mut i: usize = 0;
    while i < v.len()
        invariant
            i <= v@.len(),
            forall|j: int| 0 <= j < i ==> v@[j] != x,
        decreases v@.len() - i,
    {
        if v[i] == x {
            return Some(i);
        }
        i += 1;
    }
    None
}

/// The address of word `o` of a segment that starts at `start` (18-bit,
/// wrapping).
pub open spec fn word_address(start: int, o: int) -> int {
    (start + o) % 0o1000000
}

/// The references made by the first `n` words of a segment, in order, each
/// with its target address.
pub open spec fn word_references(start: int, decoded: Seq<Option<Instruction>>, n: nat) -> Seq<
    (Reference, u32),
>
    decreases n,
{
    if n == 0 {
        Seq::empty()
    } else {
        let prev = word_references(start, decoded, (n - 1) as nat);
        match decoded[n - 1] {
            Some(i) => match spec_reference(i) {
                Some(r) => prev.push(
                    (r.0, spec_target(word_address(start, n - 1), r.1 as int) as u32),
                ),
                None => prev,
            },
            None => prev,
        }
    }
}

/// The references made by the words of the first `n` segments, in order.
pub open spec fn segment_references(
    l: LayoutView,
    decoded: Seq<Seq<Option<Instruction>>>,
    n: nat,
) -> Seq<(Reference, u32)>
    decreases n,
{
    if n == 0 {
        Seq::empty()
    } else {
        segment_references(l, decoded, (n - 1) as nat) + word_references(
            l.segments[n - 1].start_addr as int,
            decoded[n - 1],
            decoded[n - 1].len(),
        )
    }
}

/// Whether the decoded words match the layout, one per word, with fields
/// of their widths, in segments of 18-bit addresses and lengths.
pub open spec fn decoding_fits(l: LayoutView, decoded: Seq<Seq<Option<Instruction>>>) -> bool {
    &&& decoded.len() == l.segments.len()
    &&& forall|s: int|
        0 <= s < l.segments.len() ==> {
            &&& (#[trigger] l.segments[s]).start_addr <= 0o777777
            &&& l.segments[s].data.len() <= 0o777777
            &&& decoded[s].len() == l.segments[s].data.len()
            &&& forall|o: int|
                0 <= o < decoded[s].len() ==> (#[trigger] decoded[s][o] matches Some(i)
                    ==> crate::instruction::instruction_wf(i))
        }
}

/// The references that the decoded words of a layout make, segment by
/// segment and word by word, with their target addresses.
pub fn references(layout: &Layout, decoded: &Vec<Vec<Option<Instruction>>>) -> (r: Vec<
    (Reference, u32),
>)
    requires
        decoding_fits(layout@, decoded@.map_values(|d: Vec<Option<Instruction>>| d@)),
    ensures
        r@ == segment_references(
            layout@,
            decoded@.map_values(|d: Vec<Option<Instruction>>| d@),
            decoded@.len(),
        ),
{
    let ghost l = layout@;
    let ghost dv = decoded@.map_values(|d: Vec<Option<Instruction>>| d@);
    let mut out: Vec<(Reference, u32)> = Vec::new();
    let mut s: usize = 0;
    while s < decoded.len()
        invariant
            s <= decoded@.len(),
            l == layout@,
            dv == decoded@.map_values(|d: Vec<Option<Instruction>>| d@),
            decoding_fits(l, dv),
            out@ == segment_references(l, dv, s as nat),
        decreases decoded@.len() - s,
    {
        let start = layout.segments[s].start_addr;
        let words = &decoded[s];
        assert(l.segments[s as int] == layout.segments@[s as int]@);
        assert(dv[s as int] == words@);
        assert(l.segments[s as int].start_addr <= 0o777777);
        let ghost prefix = out@;
        let mut o: usize = 0;
        while o < words.len()
            invariant
                o <= words@.len(),
                words@.len() <= 0o777777,
                start <= 0o777777,
                forall|k: int|
                    0 <= k < words@.len() ==> (#[trigger] words@[k] matches Some(i)
                        ==> crate::instruction::instruction_wf(i)),
                out@ == prefix + word_references(start as int, words@, o as nat),
            decreases words@.len() - o,
        {
            match words[o] {
                Some(i) => match reference(i) {
                    Some((kind, y)) => {
                        assert(words@[o as int] == Some(i));
                        assert(crate::instruction::instruction_wf(i));
                        assert(y <= 0o7777);
                        let addr = crate::arith::wrapping_add_18(start, o as u32);
                        let t = target(addr, y);
                        out.push((kind, t));
                        assert(out@ =~= prefix + word_references(start as int, words@, (o + 1) as nat));
                    },
                    None => {
                        assert(out@ =~= prefix + word_references(start as int, words@, (o + 1) as nat));
                    },
                },
                None => {
                    assert(out@ =~= prefix + word_references(start as int, words@, (o + 1) as nat));
                },
            }
            o += 1;
        }
        s += 1;
    }
    out
}

/// The sorted set of the addresses that references of `kind` target.
pub fn targets_of(refs: &Vec<(Reference, u32)>, kind: Reference) -> (r: Vec<u32>)
    ensures
        sorted_set(r@),
        forall|x: u32|
            r@.contains(x) <==> exists|j: int| 0 <= j < refs@.len() && #[trigger] refs@[j] == (kind, x),
{
    let mut out: Vec<u32> = Vec::new();
    let mut i: usize = 0;
    while i < refs.len()
        invariant
            i <= refs@.len(),
            sorted_set(out@),
            forall|x: u32|
                out@.to_set().contains(x) <==> exists|j: int| 0 <= j < i && #[trigger] refs@[j] == (kind, x),
        decreases refs@.len() - i,
    {
        let (k, t) = refs[i];
        let ghost before = out@.to_set();
        if k == kind {
            insert_sorted(&mut out, t);
        }
        assert forall|x: u32| out@.to_set().contains(x) <==> exists|j: int| 0 <= j < i + 1 && #[trigger] refs@[j] == (kind, x) by {
            if out@.to_set().contains(x) && !before.contains(x) {
                assert(refs@[i as int] == (kind, x));
            }
            if exists|j: int| 0 <= j < i + 1 && #[trigger] refs@[j] == (kind, x) {
                let j = choose|j: int| 0 <= j < i + 1 && #[trigger] refs@[j] == (kind, x);
                if j < i {
                    assert(before.contains(x));
                }
            }
        }
        i += 1;
    }
    assert forall|x: u32| out@.contains(x) <==> out@.to_set().contains(x) by {}
    out
}

/// The text a word stands for when it is shown as a character: printable
/// ASCII as itself, a line feed, and a carriage return written `\r`.
pub open spec fn spec_str_of_word(word: u32) -> Option<Seq<char>> {
    if 32 <= word < 127 {
        Some(seq![(word as u8) as char])
    } else if word == 10 {
        Some(seq!['\n'])
    } else if word == 13 {
        Some(seq!['\\', 'r'])
    } else {
        None
    }
}

/// The text a word stands for (see `spec_str_of_word`).
pub fn str_of_word(word: u32) -> (r: Option<String>)
    ensures
        match spec_str_of_word(word) {
            Some(t) => r is Some && r->0@ == t,
            None => r is None,
        },
{
    let mut out = String::new();
    if 32 <= word && word < 127 {
        push_char(&mut out, (word as u8) as char);
        assert(out@ =~= seq![(word as u8) as char]);
        Some(out)
    } else if word == 10 {
        push_char(&mut out, '\n');
        assert(out@ =~= seq!['\n']);
        Some(out)
    } else if word == 13 {
        push_char(&mut out, '\\');
        push_char(&mut out, 'r');
        assert(out@ =~= seq!['\\', 'r']);
        Some(out)
    } else {
        None
    }
}

/// A word with bit 8, which may mark the end of a string, cleared.
pub open spec fn unmarked(word: u32) -> u32 {
    word & 0o777377
}

/// The words from `k` on that continue a string, as text, and how many
/// there are: each must stand for text once bit 8 is cleared.
pub open spec fn spec_string_rest(words: Seq<u32>, k: int) -> (Seq<char>, nat)
    decreases words.len() - k,
{
    if 0 <= k < words.len() {
        match spec_str_of_word(unmarked(words[k])) {
            Some(t) => {
                let rest = spec_string_rest(words, k + 1);
                (t + rest.0, rest.1 + 1)
            },
            None => (Seq::empty(), 0),
        }
    } else {
        (Seq::empty(), 0)
    }
}

/// The string that starts at word `start`, and the number of words it
/// takes: the word itself must stand for text, and the string runs on
/// over the words that follow (see `spec_string_rest`).
pub open spec fn spec_string_at(words: Seq<u32>, start: int) -> Option<(Seq<char>, nat)> {
    match spec_str_of_word(words[start]) {
        Some(t) => {
            let rest = spec_string_rest(words, start + 1);
            Some((t + rest.0, rest.1 + 1))
        },
        None => None,
    }
}

/// The string that starts at word `start`, if any (see `spec_string_at`).
pub fn string_at(words: &Vec<u32>, start: usize) -> (r: Option<(String, usize)>)
    requires
        start < words@.len(),
    ensures
        match spec_string_at(words@, start as int) {
            Some(p) => r matches Some(q) && q.0@ == p.0 && q.1 == p.1,
            None => r is None,
        },
{
    let mut text = match str_of_word(words[start]) {
        Some(t) => t,
        None => {
            return None;
        },
    };
    let ghost first = text@;
    let n = words.len();
    let mut k = start + 1;
    let mut more = true;
    while more && k < n
        invariant
            start < k <= n,
            n == words@.len(),
            first == spec_str_of_word(words@[start as int])->0,
            first + spec_string_rest(words@, start + 1).0 == text@ + spec_string_rest(words@, k as int).0,
            spec_string_rest(words@, start + 1).1 == (k - start - 1) + spec_string_rest(words@, k as int).1,
            !more ==> k < n && spec_string_rest(words@, k as int).1 == 0 && spec_string_rest(words@, k as int).0 == Seq::<char>::empty(),
        decreases n - k + (if more { 1int } else { 0int }),
    {
        match str_of_word(words[k] & 0o777377) {
            Some(t) => {
                let ghost before = text@;
                let tt = t.as_str();
                text.append(tt);
                assert(text@ == before + t@);
                assert(spec_string_rest(words@, k as int).0 == t@ + spec_string_rest(words@, k + 1).0);
                assert(before + (t@ + spec_string_rest(words@, k + 1).0) =~= text@ + spec_string_rest(words@, k + 1).0);
                k += 1;
            },
            None => {
                more = false;
            },
        }
    }
    proof {
        if k == n {
            assert(spec_string_rest(words@, k as int).0 =~= Seq::<char>::empty());
        }
        assert(text@ + Seq::<char>::empty() =~= text@);
    }
    Some((text, k - start))
}

/// How a jump target is shown: up to nine words back or forward from the
/// jump as `LOK-n` or `LOK+n`, otherwise as an address.
#[derive(Debug, Clone, Copy, PartialEq, Eq, Structural)]
pub enum JumpForm {
    Back { distance: u32 },
    Forward { distance: u32 },
    Absolute { target: u32 },
}

/// How the target of a jump at `addr` is shown (see `JumpForm`).
pub open spec fn spec_jump_form(addr: u32, target: u32) -> JumpForm {
    if addr > target && addr - target < 10 {
        JumpForm::Back { distance: (addr - target) as u32 }
    } else if target > addr && target - addr < 10 {
        JumpForm::Forward { distance: (target - addr) as u32 }
    } else {
        JumpForm::Absolute { target }
    }
}

/// How the target of a jump is shown (see `spec_jump_form`).
pub fn jump_form(addr: u32, target: u32) -> (r: JumpForm)
    ensures
        r == spec_jump_form(addr, target),
{
    if addr > target && addr - target < 10 {
        JumpForm::Back { distance: addr - target }
    } else if target > addr && target - addr < 10 {
        JumpForm::Forward { distance: target - addr }
    } else {
        JumpForm::Absolute { target }
    }
}

} // verus!
