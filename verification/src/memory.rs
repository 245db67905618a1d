//! Memory images and the `.76` paper tape loader format.
//!
//! A `.76` tape holds any number of segments, each a header frame `0o76`,
//! the segment's 15-bit start and end addresses in five frames, its words in
//! three frames each, and a one's complement checksum of the words. The
//! start address of the program follows a `0o77` frame.
use vstd::prelude::*;
use crate::arith::{add_18, spec_add_18};
use crate::instruction::Instruction;
use crate::text::{
    decimal_lines, format_octal, spec_decimal_lines, spec_line_ok, spec_lines, spec_octal_padded,
};
use crate::tape::{
    Tape, TapeReader, is_tape, join_bioctal, spec_join_bioctal, spec_split_bioctal, split_bioctal,
    law_join_split_bioctal,
};

verus! {

/// A run of consecutive memory words starting at `start_addr`.
#[derive(Debug)]
pub struct LayoutSegment {
    pub start_addr: u32,
    pub data: Vec<u32>,
}

/// The contents of a segment as plain values.
pub struct SegmentView {
    pub start_addr: u32,
    pub data: Seq<u32>,
}

impl View for LayoutSegment {
    type V = SegmentView;

    open spec fn view(&self) -> SegmentView {
        SegmentView { start_addr: self.start_addr, data: self.data@ }
    }
}

/// A program image: segments of memory and the address to start at.
#[derive(Debug)]
pub struct Layout {
    pub segments: Vec<LayoutSegment>,
    pub start_address: u32,
}

/// The contents of a layout as plain values.
pub struct LayoutView {
    pub segments: Seq<SegmentView>,
    pub start_address: u32,
}

impl View for Layout {
    type V = LayoutView;

    open spec fn view(&self) -> LayoutView {
        LayoutView {
            segments: self.segments@.map_values(|s: LayoutSegment| s@),
            start_address: self.start_address,
        }
    }
}

/// Whether every word of a sequence fits in 18 bits.
pub open spec fn all_words(data: Seq<u32>) -> bool {
    forall|i: int| 0 <= i < data.len() ==> #[trigger] data[i] <= 0o777777
}

/// Whether a segment can be written to a tape: an 18-bit start address, at
/// most 2^18 - 1 words, each of 18 bits.
pub open spec fn segment_wf(s: SegmentView) -> bool {
    &&& s.start_addr <= 0o777777
    &&& s.data.len() <= 0o777777
    &&& all_words(s.data)
}

pub open spec fn layout_wf(l: LayoutView) -> bool {
    &&& l.start_address <= 0o777777
    &&& forall|i: int| 0 <= i < l.segments.len() ==> segment_wf(#[trigger] l.segments[i])
}

/// The last address of a segment (18-bit arithmetic, wrapping).
pub open spec fn segment_end(start: int, len: int) -> int {
    (start + len + 0o777777) % 0o1000000
}

/// One's complement sum of the words, starting from zero.
pub open spec fn checksum(data: Seq<u32>) -> int
    decreases data.len(),
{
    if data.len() == 0 {
        0
    } else {
        spec_add_18(checksum(data.drop_last()), data.last() as int)
    }
}

/// The plain sum of the words.
pub open spec fn word_sum(data: Seq<u32>) -> int
    decreases data.len(),
{
    if data.len() == 0 {
        0
    } else {
        word_sum(data.drop_last()) + data.last()
    }
}

proof fn lemma_checksum_is_sum(data: Seq<u32>)
    requires
        word_sum(data) < 0o777777,
    ensures
        checksum(data) == word_sum(data),
        word_sum(data) >= 0,
    decreases data.len(),
{
    if data.len() > 0 {
        lemma_checksum_is_sum(data.drop_last());
    }
}

/// The checksum of a segment adds up its words: one more word is added to
/// the checksum with end-around carry, and while the plain sum of the
/// words stays below negative zero (2^18 - 1) the three frames after the
/// segment's words join to that sum (words 1 and 1 give 2).
pub proof fn law_segment_checksum_sums(s: SegmentView, w: u32)
    requires
        segment_wf(s),
    ensures
        checksum(s.data.push(w)) == spec_add_18(checksum(s.data), w as int),
        word_sum(s.data) < 0o777777 ==> ({
            let t = spec_encode_segment(s);
            let n = t.len() as int;
            &&& n == 6 + 3 * s.data.len() + 3
            &&& spec_join_bioctal(t[n - 3] as int, t[n - 2] as int, t[n - 1] as int) == word_sum(
                s.data,
            )
        }),
{
    assert(s.data.push(w).drop_last() =~= s.data);
    if word_sum(s.data) < 0o777777 {
        lemma_checksum_is_sum(s.data);
        lemma_frames_len(s.data);
        law_join_split_bioctal(checksum(s.data));
        let t = spec_encode_segment(s);
        let h = header_76(s.start_addr as int, segment_end(s.start_addr as int, s.data.len() as int));
        let f = spec_split_bioctal(checksum(s.data));
        assert(t == h + frames_of(s.data) + f);
        let n = t.len() as int;
        assert(t[n - 3] == f[0] && t[n - 2] == f[1] && t[n - 1] == f[2]);
    }
}

/// The frames of the words, three per word.
pub open spec fn frames_of(data: Seq<u32>) -> Seq<u8>
    decreases data.len(),
{
    if data.len() == 0 {
        Seq::empty()
    } else {
        frames_of(data.drop_last()) + spec_split_bioctal(data.last() as int)
    }
}

/// The six header frames of a segment from `start` to `end`.
pub open spec fn header_76(start: int, end: int) -> Seq<u8> {
    seq![
        0o76u8,
        ((start / 512) % 64) as u8,
        ((start / 8) % 64) as u8,
        ((start % 8) * 8 + (end / 4096) % 8) as u8,
        ((end / 64) % 64) as u8,
        (end % 64) as u8,
    ]
}

/// The frames of a segment on a `.76` tape.
pub open spec fn spec_encode_segment(s: SegmentView) -> Seq<u8> {
    header_76(s.start_addr as int, segment_end(s.start_addr as int, s.data.len() as int))
        + frames_of(s.data) + spec_split_bioctal(checksum(s.data))
}

/// The frames of several segments, one after another.
pub open spec fn encode_segments(segs: Seq<SegmentView>) -> Seq<u8>
    decreases segs.len(),
{
    if segs.len() == 0 {
        Seq::empty()
    } else {
        encode_segments(segs.drop_last()) + spec_encode_segment(segs.last())
    }
}

/// The frames of a `.76` tape: one lead-in zero, the segments, four zeros,
/// then `0o77` and the start address.
pub open spec fn spec_encode_layout(l: LayoutView) -> Seq<u8> {
    seq![0u8] + encode_segments(l.segments) + seq![0u8, 0u8, 0u8, 0u8] + spec_split_bioctal(0o77)
        + spec_split_bioctal(l.start_address as int)
}

/// The first `n` words in the frames `t`, three frames each.
pub open spec fn read_words(t: Seq<u8>, n: nat) -> Seq<u32>
    decreases n,
{
    if n == 0 {
        Seq::empty()
    } else {
        let k = 3 * (n - 1);
        read_words(t, (n - 1) as nat).push(
            spec_join_bioctal(t[k] as int, t[k + 1] as int, t[k + 2] as int) as u32,
        )
    }
}

/// The start address in a segment header.
pub open spec fn header_start(t: Seq<u8>) -> int {
    t[1] as int * 512 + t[2] as int * 8 + t[3] as int / 8
}

/// The end address in a segment header.
pub open spec fn header_end(t: Seq<u8>) -> int {
    (t[3] as int % 8) * 4096 + t[4] as int * 64 + t[5] as int
}

/// The number of words in a segment from `start` to `end`.
pub open spec fn segment_len(start: int, end: int) -> nat {
    if end >= start {
        (end - start + 1) as nat
    } else {
        0
    }
}

/// The segment at the front of `t` and the number of frames it takes, or
/// `None` when `t` does not begin with a whole segment.
pub open spec fn spec_decode_segment(t: Seq<u8>) -> Option<(SegmentView, nat)> {
    if t.len() >= 6 && t[0] == 0o76 {
        let n = segment_len(header_start(t), header_end(t));
        let total = 6 + 3 * n + 3;
        if t.len() >= total {
            Some(
                (
                    SegmentView {
                        start_addr: header_start(t) as u32,
                        data: read_words(t.subrange(6, t.len() as int), n),
                    },
                    total as nat,
                ),
            )
        } else {
            None
        }
    } else {
        None
    }
}

/// Decodes the rest `t` of a `.76` tape, given the segments and start
/// address found so far: zeros are skipped, `0o76` starts a segment, `0o77`
/// and three frames give the start address, any other frame is skipped.
/// `None` when a segment or the start address is cut short.
pub open spec fn spec_decode_layout(t: Seq<u8>, segs: Seq<SegmentView>, start: int) -> Option<
    LayoutView,
>
    decreases t.len(),
{
    if t.len() == 0 {
        Some(LayoutView { segments: segs, start_address: start as u32 })
    } else if t[0] == 0o76 {
        match spec_decode_segment(t) {
            Some(p) => if p.1 > 0 && p.1 <= t.len() {
                spec_decode_layout(t.subrange(p.1 as int, t.len() as int), segs.push(p.0), start)
            } else {
                None
            },
            None => None,
        }
    } else if t[0] == 0o77 {
        if t.len() >= 4 {
            spec_decode_layout(
                t.subrange(4, t.len() as int),
                segs,
                spec_join_bioctal(t[1] as int, t[2] as int, t[3] as int),
            )
        } else {
            None
        }
    } else {
        spec_decode_layout(t.drop_first(), segs, start)
    }
}

impl LayoutSegment {
    /// Writes the segment in `.76` format: header, words, checksum.
    pub fn encode_76(&self) -> (t: Tape)
        requires
            segment_wf(self@),
        ensures
            t@ == spec_encode_segment(self@),
            is_tape(t@),
    {
        let mut output: Vec<u8> = Vec::new();
        let segment_length = self.data.len() as u32;
        let segment_start = self.start_addr;
        let segment_end = (segment_start + segment_length + 0o777777) & 0o777777;
        assert(segment_end == (segment_start + segment_length + 0o777777) % 0o1000000) by (bit_vector)
            requires
                segment_start <= 0o777777u32,
                segment_length <= 0o777777u32,
                segment_end == ((segment_start + segment_length + 0o777777u32) as u32) & 0o777777u32,
        ;
        let s = segment_start;
        let e = segment_end;
        assert((s >> 9u32) & 0o77u32 == (s / 512) % 64) by (bit_vector);
        assert((s >> 3u32) & 0o77u32 == (s / 8) % 64) by (bit_vector);
        assert(((s & 7u32) << 3u32) | ((e >> 12u32) & 7u32) == (s % 8) * 8 + (e / 4096) % 8)
            by (bit_vector);
        assert((e >> 6u32) & 0o77u32 == (e / 64) % 64) by (bit_vector);
        assert((e >> 0u32) & 0o77u32 == e % 64) by (bit_vector);

        output.push(0o76);
        output.push(((s >> 9) & 0o77) as u8);
        output.push(((s >> 3) & 0o77) as u8);
        output.push((((s & 0o7) << 3) | ((e >> 12) & 0o7)) as u8);
        output.push(((e >> 6) & 0o77) as u8);
        output.push(((e >> 0) & 0o77) as u8);
        let ghost header = output@;
        assert(header =~= header_76(s as int, e as int));

        let mut checksum_word: u32 = 0;
        let mut i: usize = 0;
        while i < self.data.len()
            invariant
                i <= self.data.len(),
                segment_wf(self@),
                checksum_word as int == checksum(self.data@.subrange(0, i as int)),
                checksum_word <= 0o777777,
                output@ == header + frames_of(self.data@.subrange(0, i as int)),
                is_tape(output@),
            decreases self.data.len() - i,
        {
            let word = self.data[i];
            assert(self.data@.subrange(0, i + 1).drop_last() =~= self.data@.subrange(0, i as int));
            checksum_word = add_18(checksum_word, word);
            let frames = split_bioctal(&word);
            let mut j: usize = 0;
            let ghost before = output@;
            while j < frames.len()
                invariant
                    j <= frames.len(),
                    output@ == before + frames@.subrange(0, j as int),
                    is_tape(before),
                    is_tape(frames@),
                    is_tape(output@),
                decreases frames.len() - j,
            {
                output.push(frames[j]);
                j += 1;
                assert(output@ =~= before + frames@.subrange(0, j as int));
            }
            assert(frames@.subrange(0, j as int) =~= frames@);
            i += 1;
            assert(output@ =~= header + frames_of(self.data@.subrange(0, i as int)));
        }
        assert(self.data@.subrange(0, i as int) =~= self.data@);
        let frames = split_bioctal(&checksum_word);
        let ghost before = output@;
        let mut j: usize = 0;
        while j < frames.len()
            invariant
                j <= frames.len(),
                output@ == before + frames@.subrange(0, j as int),
                is_tape(before),
                is_tape(frames@),
                is_tape(output@),
            decreases frames.len() - j,
        {
            output.push(frames[j]);
            j += 1;
            assert(output@ =~= before + frames@.subrange(0, j as int));
        }
        assert(frames@.subrange(0, j as int) =~= frames@);
        assert(output@ =~= spec_encode_segment(self@));
        output
    }

    /// Reads a segment in `.76` format from the front of a tape; `None` when
    /// the tape does not start with a whole segment: when its first frame is
    /// not `0o76`, or when it ends inside the header, the words or the
    /// checksum.
    pub fn decode_76(tape: &mut TapeReader) -> (r: Option<LayoutSegment>)
        requires
            is_tape(old(tape).remaining()),
        ensures
            old(tape).remaining().len() == 0 || old(tape).remaining()[0] != 0o76 ==> r is None,
            match spec_decode_segment(old(tape).remaining()) {
                Some(p) => r is Some && r->0@ == p.0 && final(tape).remaining() == old(
                    tape,
                ).remaining().subrange(p.1 as int, old(tape).remaining().len() as int),
                None => r is None,
            },
    {
        let ghost t = tape.remaining();
        let header = tape.next();
        match header {
            Some(h) => {
                if h != 0o76 {
                    return None;
                }
            },
            None => {
                return None;
            },
        }
        if tape.len() < 5 {
            return None;
        }
        let b0 = tape.next().unwrap() as u32;
        let b1 = tape.next().unwrap() as u32;
        let b2 = tape.next().unwrap() as u32;
        let b3 = tape.next().unwrap() as u32;
        let b4 = tape.next().unwrap() as u32;
        assert(t[1] < 64 && t[2] < 64 && t[3] < 64 && t[4] < 64 && t[5] < 64);
        assert((b0 << 9u32) | (b1 << 3u32) | (b2 >> 3u32) == b0 * 512 + b1 * 8 + b2 / 8)
            by (bit_vector)
            requires
                b0 < 64u32,
                b1 < 64u32,
                b2 < 64u32,
        ;
        assert(((b2 & 7u32) << 12u32) | (b3 << 6u32) | b4 == (b2 % 8) * 4096 + b3 * 64 + b4)
            by (bit_vector)
            requires
                b2 < 64u32,
                b3 < 64u32,
                b4 < 64u32,
        ;
        let start_addr = (b0 << 9) | (b1 << 3) | (b2 >> 3);
        let end_addr = ((b2 & 0b111) << 12) | (b3 << 6) | b4;
        assert(start_addr == header_start(t) && end_addr == header_end(t));
        let n: usize = if end_addr >= start_addr {
            (end_addr - start_addr + 1) as usize
        } else {
            0
        };
        assert(n == segment_len(header_start(t), header_end(t)));
        let ghost t6 = t.subrange(6, t.len() as int);
        assert(tape.remaining() =~= t6);
        if tape.len() < 3 * n + 3 {
            return None;
        }
        let mut words: Vec<u32> = Vec::new();
        let mut k: usize = 0;
        while k < n
            invariant
                k <= n,
                t6.len() >= 3 * n + 3,
                is_tape(t6),
                words@ == read_words(t6, k as nat),
                tape.remaining() == t6.subrange(3 * k as int, t6.len() as int),
            decreases n - k,
        {
            assert forall|i: int| 0 <= i < tape.remaining().len() implies #[trigger] tape.remaining()[i]
                < 64 by {
                assert(tape.remaining()[i] == t6[3 * k + i]);
            }
            let w = join_bioctal(tape);
            words.push(w);
            k += 1;
            assert(tape.remaining() =~= t6.subrange(3 * k as int, t6.len() as int));
        }
        assert forall|i: int| 0 <= i < tape.remaining().len() implies #[trigger] tape.remaining()[i]
            < 64 by {
            assert(tape.remaining()[i] == t6[3 * k + i]);
        }
        let _checksum = join_bioctal(tape);
        assert(tape.remaining() =~= t.subrange(6 + 3 * n + 3, t.len() as int));
        Some(LayoutSegment { start_addr, data: words })
    }

    /// The last address of the segment (18-bit arithmetic, wrapping).
    pub fn end_addr(&self) -> (r: u32)
        requires
            segment_wf(self@),
        ensures
            r == segment_end(self.start_addr as int, self.data.len() as int),
    {
        let length = self.data.len() as u32;
        let r = (self.start_addr + length + 0o777777) & 0o777777;
        let s = self.start_addr;
        assert(r == (s + length + 0o777777) % 0o1000000) by (bit_vector)
            requires
                s <= 0o777777u32,
                length <= 0o777777u32,
                r == ((s + length + 0o777777u32) as u32) & 0o777777u32,
        ;
        r
    }

    /// The word at address `idx` of the segment.
    pub fn get(&self, idx: u32) -> (r: u32)
        requires
            segment_wf(self@),
            idx <= 0o777777,
            (idx - self.start_addr + 0o1000000) % 0o1000000 < self.data.len(),
        ensures
            r == self.data@[(idx - self.start_addr + 0o1000000) % 0o1000000],
    {
        let offset = (idx + 0o1000000 - self.start_addr) & 0o777777;
        let s = self.start_addr;
        assert(offset == (idx - s + 0o1000000) % 0o1000000) by (bit_vector)
            requires
                s <= 0o777777u32,
                idx <= 0o777777u32,
                offset == ((idx + 0o1000000u32 - s) as u32) & 0o777777u32,
        ;
        self.data[offset as usize]
    }

    /// Each word of the segment with its address.
    pub fn enumerate(&self) -> (r: Vec<(u32, u32)>)
        requires
            segment_wf(self@),
        ensures
            r@.len() == self.data@.len(),
            forall|i: int|
                0 <= i < r@.len() ==> #[trigger] r@[i] == (
                    ((i + self.start_addr) % 0o1000000) as u32,
                    self.data@[i],
                ),
    {
        let mut out: Vec<(u32, u32)> = Vec::new();
        let mut i: usize = 0;
        while i < self.data.len()
            invariant
                i <= self.data.len(),
                segment_wf(self@),
                out@.len() == i,
                forall|j: int|
                    0 <= j < i ==> #[trigger] out@[j] == (
                        ((j + self.start_addr) % 0o1000000) as u32,
                        self.data@[j],
                    ),
            decreases self.data.len() - i,
        {
            let idx = i as u32;
            let s = self.start_addr;
            let addr = (idx + s) & 0o777777;
            assert(addr == (idx + s) % 0o1000000) by (bit_vector)
                requires
                    s <= 0o777777u32,
                    idx <= 0o777777u32,
                    addr == ((idx + s) as u32) & 0o777777u32,
            ;
            out.push((addr, self.data[i]));
            i += 1;
        }
        out
    }
}

impl Layout {
    /// Writes the layout as a `.76` tape that both the second stage loader
    /// and the LECPAC loader accept: one lead-in zero, the segments, four
    /// zeros marking the end of the tape, then `0o77` and the start address.
    pub fn encode_76(self) -> (t: Tape)
        requires
            layout_wf(self@),
        ensures
            t@ == spec_encode_layout(self@),
            is_tape(t@),
    {
        let mut out: Vec<u8> = Vec::new();
        out.push(0);
        let mut i: usize = 0;
        while i < self.segments.len()
            invariant
                i <= self.segments.len(),
                layout_wf(self@),
                out@ == seq![0u8] + encode_segments(self@.segments.subrange(0, i as int)),
                is_tape(out@),
            decreases self.segments.len() - i,
        {
            assert(self@.segments[i as int] == self.segments@[i as int]@);
            let mut seg = self.segments[i].encode_76();
            let ghost before = out@;
            out.append(&mut seg);
            assert(self@.segments.subrange(0, i + 1).drop_last() =~= self@.segments.subrange(
                0,
                i as int,
            ));
            i += 1;
            assert(out@ =~= seq![0u8] + encode_segments(self@.segments.subrange(0, i as int)));
        }
        assert(self@.segments.subrange(0, i as int) =~= self@.segments);
        out.push(0);
        out.push(0);
        out.push(0);
        out.push(0);
        let mut a = split_bioctal(&0o77);
        out.append(&mut a);
        let mut b = split_bioctal(&self.start_address);
        out.append(&mut b);
        assert(out@ =~= spec_encode_layout(self@));
        out
    }

    /// Reads a `.76` tape: skips zeros and stray frames, reads each segment
    /// that starts with `0o76`, and takes the start address after `0o77`
    /// (zero when there is none). `None` when a segment or the start address
    /// is cut short.
    pub fn decode_76(tape: &mut TapeReader) -> (r: Option<Layout>)
        requires
            is_tape(old(tape).remaining()),
        ensures
            match spec_decode_layout(old(tape).remaining(), Seq::empty(), 0) {
                Some(l) => r is Some && r->0@ == l,
                None => r is None,
            },
            r is Some ==> final(tape).remaining() == Seq::<u8>::empty(),
    {
        let ghost t = tape.remaining();
        let mut segments: Vec<LayoutSegment> = Vec::new();
        let mut start_address: u32 = 0;
        assert(segments@.map_values(|s: LayoutSegment| s@) =~= Seq::<SegmentView>::empty());
        loop
            invariant
                t == old(tape).remaining(),
                is_tape(tape.remaining()),
                spec_decode_layout(
                    tape.remaining(),
                    segments@.map_values(|s: LayoutSegment| s@),
                    start_address as int,
                ) == spec_decode_layout(t, Seq::empty(), 0),
                start_address <= 0o777777,
            decreases tape.remaining().len(),
        {
            let ghost rem = tape.remaining();
            let ghost segs = segments@.map_values(|s: LayoutSegment| s@);
            match tape.peek() {
                None => {
                    assert(tape.remaining() =~= Seq::<u8>::empty());
                    let l = Layout { segments, start_address };
                    assert(l@ == LayoutView { segments: segs, start_address: start_address });
                    return Some(l);
                },
                Some(x) => {
                    if x == 0o76 {
                        let seg = LayoutSegment::decode_76(tape);
                        match seg {
                            Some(seg) => {
                                segments.push(seg);
                                assert(segments@.map_values(|s: LayoutSegment| s@) =~= segs.push(
                                    seg@,
                                ));
                            },
                            None => {
                                return None;
                            },
                        }
                        assert forall|i: int|
                            0 <= i < tape.remaining().len() implies #[trigger] tape.remaining()[i]
                            < 64 by {
                            let n = spec_decode_segment(rem).unwrap().1;
                            assert(tape.remaining()[i] == rem[n + i]);
                        }
                    } else if x == 0o77 {
                        let _ = tape.next();
                        if tape.len() < 3 {
                            return None;
                        }
                        assert forall|i: int|
                            0 <= i < tape.remaining().len() implies #[trigger] tape.remaining()[i]
                            < 64 by {
                            assert(tape.remaining()[i] == rem[1 + i]);
                        }
                        start_address = join_bioctal(tape);
                        assert(tape.remaining() =~= rem.subrange(4, rem.len() as int));
                        assert forall|i: int|
                            0 <= i < tape.remaining().len() implies #[trigger] tape.remaining()[i]
                            < 64 by {
                            assert(tape.remaining()[i] == rem[4 + i]);
                        }
                    } else {
                        let _ = tape.next();
                        assert forall|i: int|
                            0 <= i < tape.remaining().len() implies #[trigger] tape.remaining()[i]
                            < 64 by {
                            assert(tape.remaining()[i] == rem[1 + i]);
                        }
                    }
                },
            }
        }
    }
}

proof fn lemma_frames_len(data: Seq<u32>)
    ensures
        frames_of(data).len() == 3 * data.len(),
    decreases data.len(),
{
    if data.len() > 0 {
        lemma_frames_len(data.drop_last());
    }
}

proof fn lemma_read_words_prefix(t1: Seq<u8>, t2: Seq<u8>, n: nat)
    requires
        t1.len() >= 3 * n,
    ensures
        read_words(t1 + t2, n) == read_words(t1, n),
    decreases n,
{
    if n > 0 {
        lemma_read_words_prefix(t1, t2, (n - 1) as nat);
        let k = 3 * (n - 1);
        assert((t1 + t2)[k] == t1[k] && (t1 + t2)[k + 1] == t1[k + 1] && (t1 + t2)[k + 2] == t1[k
            + 2]);
    }
}

proof fn lemma_read_frames(data: Seq<u32>)
    requires
        all_words(data),
    ensures
        read_words(frames_of(data), data.len()) == data,
    decreases data.len(),
{
    if data.len() > 0 {
        let init = data.drop_last();
        let w = data.last();
        lemma_read_frames(init);
        lemma_frames_len(init);
        let f = spec_split_bioctal(w as int);
        lemma_read_words_prefix(frames_of(init), f, init.len());
        law_join_split_bioctal(w as int);
        let n = data.len();
        let k = 3 * (n - 1);
        assert(frames_of(data)[k] == f[0] && frames_of(data)[k + 1] == f[1] && frames_of(data)[k
            + 2] == f[2]);
        assert(read_words(frames_of(data), n) =~= init.push(w));
        assert(init.push(w) =~= data);
    }
}

proof fn lemma_header_fields(s: u32, e: u32)
    requires
        s < 0o100000,
        e < 0o100000,
    ensures
        header_start(header_76(s as int, e as int)) == s,
        header_end(header_76(s as int, e as int)) == e,
{
    let h = header_76(s as int, e as int);
    assert(((s / 512) % 64) * 512 + ((s / 8) % 64) * 8 + ((s % 8) * 8 + (e / 4096) % 8) / 8 == s)
        by (bit_vector)
        requires
            s < 0o100000u32,
    ;
    assert((((s % 8) * 8 + (e / 4096) % 8) % 8) * 4096 + ((e / 64) % 64) * 64 + e % 64 == e)
        by (bit_vector)
        requires
            e < 0o100000u32,
    ;
}

/// A segment whose addresses fit in the header's 15 bits.
pub open spec fn segment_fits_76(s: SegmentView) -> bool {
    &&& segment_wf(s)
    &&& s.data.len() >= 1
    &&& s.start_addr + s.data.len() <= 0o100000
}

/// Reading a written segment from the front of a tape gives the segment
/// back and takes exactly its frames (header, words and checksum), leaving
/// what follows, for segments of at least one word whose addresses fit in
/// the header's 15 bits.
pub proof fn law_segment_roundtrip(seg: SegmentView, rest: Seq<u8>)
    requires
        segment_fits_76(seg),
    ensures
        spec_decode_segment(spec_encode_segment(seg) + rest) == Some(
            (seg, (9 + 3 * seg.data.len()) as nat),
        ),
{
    let s = seg.start_addr;
    let n = seg.data.len();
    let e = segment_end(s as int, n as int);
    assert(e == s + n - 1);
    let h = header_76(s as int, e);
    lemma_header_fields(s, e as u32);
    lemma_frames_len(seg.data);
    let t = spec_encode_segment(seg) + rest;
    let cs = spec_split_bioctal(checksum(seg.data));
    assert(spec_encode_segment(seg) == h + frames_of(seg.data) + cs);
    assert(t.subrange(0, 6) =~= h);
    assert(header_start(t) == header_start(h));
    assert(header_end(t) == header_end(h));
    assert(segment_len(header_start(t), header_end(t)) == n);
    let t6 = t.subrange(6, t.len() as int);
    assert(t6 =~= frames_of(seg.data) + (cs + rest));
    lemma_read_words_prefix(frames_of(seg.data), cs + rest, n);
    lemma_read_frames(seg.data);
    assert(t[0] == 0o76);
}

proof fn lemma_encode_segments_front(segs: Seq<SegmentView>)
    requires
        segs.len() > 0,
    ensures
        encode_segments(segs) == spec_encode_segment(segs[0]) + encode_segments(segs.drop_first()),
    decreases segs.len(),
{
    if segs.len() > 1 {
        lemma_encode_segments_front(segs.drop_last());
        assert(segs.drop_last().drop_first() =~= segs.drop_first().drop_last());
        assert(segs.drop_first().last() == segs.last());
        assert(segs.drop_last()[0] == segs[0]);
    } else {
        assert(segs.drop_last() =~= Seq::<SegmentView>::empty());
        assert(segs.drop_first() =~= Seq::<SegmentView>::empty());
    }
}

#[verifier::spinoff_prover]
#[verifier::rlimit(100)]
proof fn lemma_decode_segments(segs: Seq<SegmentView>, tail: Seq<u8>, acc: Seq<SegmentView>, st: int)
    requires
        forall|i: int| 0 <= i < segs.len() ==> segment_fits_76(#[trigger] segs[i]),
    ensures
        spec_decode_layout(encode_segments(segs) + tail, acc, st) == spec_decode_layout(
            tail,
            acc + segs,
            st,
        ),
    decreases segs.len(),
{
    if segs.len() == 0 {
        assert(encode_segments(segs) + tail =~= tail);
        assert(acc + segs =~= acc);
    } else {
        lemma_encode_segments_front(segs);
        let rest = encode_segments(segs.drop_first()) + tail;
        let t = encode_segments(segs) + tail;
        assert(t =~= spec_encode_segment(segs[0]) + rest);
        law_segment_roundtrip(segs[0], rest);
        let n = (9 + 3 * segs[0].data.len()) as nat;
        assert(spec_encode_segment(segs[0]).len() == n) by {
            lemma_frames_len(segs[0].data);
        }
        assert(t[0] == 0o76) by {
            assert(spec_encode_segment(segs[0])[0] == 0o76);
        }
        assert(t.subrange(n as int, t.len() as int) =~= rest);
        lemma_decode_segments(segs.drop_first(), tail, acc.push(segs[0]), st);
        assert(acc.push(segs[0]) + segs.drop_first() =~= acc + segs);
    }
}

/// Reading back a written `.76` tape gives the same layout, for segments of
/// at least one word whose addresses fit in the header's 15 bits.
pub proof fn law_layout_roundtrip(l: LayoutView)
    requires
        l.start_address <= 0o777777,
        forall|i: int| 0 <= i < l.segments.len() ==> segment_fits_76(#[trigger] l.segments[i]),
    ensures
        spec_decode_layout(spec_encode_layout(l), Seq::empty(), 0) == Some(l),
{
    let tail = seq![0u8, 0u8, 0u8, 0u8] + spec_split_bioctal(0o77) + spec_split_bioctal(
        l.start_address as int,
    );
    let t = spec_encode_layout(l);
    assert(t =~= seq![0u8] + (encode_segments(l.segments) + tail));
    assert(t.drop_first() =~= encode_segments(l.segments) + tail);
    lemma_decode_segments(l.segments, tail, Seq::empty(), 0);
    let segs = Seq::<SegmentView>::empty() + l.segments;
    assert(segs =~= l.segments);
    let sa = spec_split_bioctal(l.start_address as int);
    law_join_split_bioctal(l.start_address as int);
    assert(spec_split_bioctal(0o77) =~= seq![0u8, 0u8, 0o77u8]);
    let t7 = seq![0o77u8] + sa;
    assert(tail.subrange(6, 10) =~= t7);
    assert(tail.drop_first().drop_first().drop_first().drop_first().drop_first().drop_first() =~= t7);
    assert(t7.subrange(4, 4) =~= Seq::<u8>::empty());
    assert(spec_decode_layout(t7, segs, 0) == spec_decode_layout(Seq::<u8>::empty(), segs, l.start_address as int));
    assert(spec_decode_layout(tail, segs, 0) == spec_decode_layout(t7, segs, 0)) by {
        let t1 = tail.drop_first();
        let t2 = t1.drop_first();
        let t3 = t2.drop_first();
        let t4 = t3.drop_first();
        let t5 = t4.drop_first();
        assert(tail[0] == 0 && t1[0] == 0 && t2[0] == 0 && t3[0] == 0 && t4[0] == 0 && t5[0] == 0);
        assert(t5.drop_first() =~= t7);
        assert(spec_decode_layout(t5, segs, 0) == spec_decode_layout(t7, segs, 0));
        assert(spec_decode_layout(t4, segs, 0) == spec_decode_layout(t5, segs, 0));
        assert(spec_decode_layout(t3, segs, 0) == spec_decode_layout(t4, segs, 0));
        assert(spec_decode_layout(t2, segs, 0) == spec_decode_layout(t3, segs, 0));
        assert(spec_decode_layout(t1, segs, 0) == spec_decode_layout(t2, segs, 0));
        assert(spec_decode_layout(tail, segs, 0) == spec_decode_layout(t1, segs, 0));
    }
}

/// Number of words of memory in the machine: 40K.
pub const MEMORY_WORDS: usize = 40960;

/// The memory image held in a text file of one decimal word per line:
/// the words, padded with zeros or cut to the machine's 40K words. `None`
/// when a nonempty line holds no number below 2^18.
pub open spec fn spec_load_image(s: Seq<char>) -> Option<Seq<u32>> {
    match spec_decimal_lines(s, 0o1000000) {
        Some(v) => Some(
            Seq::new(MEMORY_WORDS as nat, |i: int| if i < v.len() { v[i] } else { 0u32 }),
        ),
        None => None,
    }
}

/// Reads a memory image from its text (see `spec_load_image`). A line
/// that holds no word of the machine is not taken as fatal: it gives
/// `None`, and the caller decides what to do with a bad image.
pub fn load(data: &str) -> (r: Option<Vec<u32>>)
    ensures
        match spec_load_image(data@) {
            Some(m) => r is Some && r->0@ == m,
            None => r is None,
        },
        r matches Some(m) ==> all_words(m@),
        r is None <==> exists|k: int|
            0 <= k < spec_lines(data@).len() && !spec_line_ok(
                #[trigger] spec_lines(data@)[k],
                0o1000000,
            ),
{
    proof {
        crate::text::lemma_decimal_lines_refused(data@, 0o1000000);
    }
    let mut words = match decimal_lines(data, 0o1000000) {
        Some(w) => w,
        None => {
            return None;
        },
    };
    let ghost v = words@;
    words.resize(MEMORY_WORDS, 0);
    proof {
        crate::tape::lemma_decimal_lines_bound(data@, 0o1000000);
        let m = Seq::new(MEMORY_WORDS as nat, |i: int| if i < v.len() { v[i] } else { 0u32 });
        assert forall|i: int| 0 <= i < MEMORY_WORDS implies words@[i] == m[i] by {
            if i < v.len() && v.len() < MEMORY_WORDS {
                assert(words@.subrange(0, v.len() as int)[i] == v[i]);
            }
        }
        assert(words@ =~= m);
    }
    Some(words)
}

/// The words of a memory dump line, each in six octal digits followed by
/// a space.
pub open spec fn spec_dump_items(items: Seq<u32>) -> Seq<char>
    decreases items.len(),
{
    if items.len() == 0 {
        Seq::empty()
    } else {
        spec_dump_items(items.drop_last()) + spec_octal_padded(items.last() as nat, 6) + seq![' ']
    }
}

/// A memory dump line: the address of its first word in six octal digits,
/// a tab and `| `, then the words.
pub open spec fn spec_dump_line(addr: nat, items: Seq<u32>) -> Seq<char> {
    spec_octal_padded(addr, 6) + seq!['\t', '|', ' '] + spec_dump_items(items)
}

/// The dump of the memory from `low` up to `high`, eight words a line.
pub open spec fn spec_dump(memory: Seq<u32>, low: int, high: int) -> Seq<Seq<char>> {
    Seq::new(
        ((high - low + 7) / 8) as nat,
        |k: int|
            spec_dump_line(
                (low + 8 * k) as nat,
                memory.subrange(
                    low + 8 * k,
                    if low + 8 * k + 8 < high {
                        low + 8 * k + 8
                    } else {
                        high
                    },
                ),
            ),
    )
}

/// The lines that dump the memory from `low_addr` up to `high_addr` (see
/// `spec_dump`).
pub fn print(memory: &Vec<u32>, low_addr: usize, high_addr: usize) -> (r: Vec<String>)
    requires
        low_addr <= high_addr <= memory@.len(),
    ensures
        r@.map_values(|l: String| l@) == spec_dump(memory@, low_addr as int, high_addr as int),
{
    let mut lines: Vec<String> = Vec::new();
    let mut start = low_addr;
    let ghost total = spec_dump(memory@, low_addr as int, high_addr as int);
    while start < high_addr
        invariant
            low_addr <= start <= high_addr,
            high_addr <= memory@.len(),
            total == spec_dump(memory@, low_addr as int, high_addr as int),
            start < high_addr ==> start == low_addr + 8 * lines@.len() && lines@.len() < total.len(),
            start == high_addr ==> lines@.len() == total.len(),
            forall|k: int| 0 <= k < lines@.len() ==> (#[trigger] lines@[k])@ == total[k],
        decreases high_addr - start,
    {
        let end = if high_addr - start > 8 {
            start + 8
        } else {
            high_addr
        };
        let mut line = format_octal(start as u64, 6);
        line.append("\t| ");
        let mut j = start;
        let ghost head = line@;
        proof {
            reveal_strlit("\t| ");
        }
        assert(head == spec_octal_padded(start as nat, 6) + seq!['\t', '|', ' ']);
        while j < end
            invariant
                start <= j <= end,
                end <= high_addr <= memory@.len(),
                line@ == head + spec_dump_items(memory@.subrange(start as int, j as int)),
            decreases end - j,
        {
            let item = format_octal(memory[j] as u64, 6);
            line.append(item.as_str());
            line.append(" ");
            proof {
                reveal_strlit(" ");
                assert(memory@.subrange(start as int, j + 1).drop_last() =~= memory@.subrange(
                    start as int,
                    j as int,
                ));
            }
            j += 1;
            assert(line@ =~= head + spec_dump_items(memory@.subrange(start as int, j as int)));
        }
        let k = lines.len();
        assert(line@ == total[k as int]);
        lines.push(line);
        start = end;
        assert(start < high_addr ==> lines@.len() < total.len());
    }
    assert(lines@.map_values(|l: String| l@) =~= total);
    lines
}

/// How an instruction listing shows a word: as the instruction it decodes
/// to, else as a character when it is a printable ASCII code (32 to 127),
/// else as a number only.
#[derive(Debug, Clone, Copy, PartialEq, Eq, Structural)]
pub enum WordDisplay {
    Instruction { instruction: Instruction },
    Character { c: char },
    Plain,
}

/// How a word is shown in an instruction listing, given its decoding.
pub open spec fn spec_describe_word(word: u32, decoded: Option<Instruction>) -> WordDisplay {
    match decoded {
        Some(instruction) => WordDisplay::Instruction { instruction },
        None => if 32 <= word <= 127 {
            WordDisplay::Character { c: (word as u8) as char }
        } else {
            WordDisplay::Plain
        },
    }
}

/// How a word is shown in an instruction listing (see
/// `spec_describe_word`).
pub fn describe_word(word: u32, decoded: Option<Instruction>) -> (r: WordDisplay)
    ensures
        r == spec_describe_word(word, decoded),
{
    match decoded {
        Some(instruction) => WordDisplay::Instruction { instruction },
        None => if 32 <= word && word <= 127 {
            WordDisplay::Character { c: (word as u8) as char }
        } else {
            WordDisplay::Plain
        },
    }
}

/// The instruction listing of the memory from `low_addr` up to
/// `high_addr`: each address with how its word is shown, given the words'
/// decodings (`decoded[i]` for the word at `low_addr + i`).
pub fn print_instructions(
    memory: &Vec<u32>,
    low_addr: usize,
    high_addr: usize,
    decoded: &Vec<Option<Instruction>>,
) -> (r: Vec<(usize, WordDisplay)>)
    requires
        low_addr <= high_addr <= memory@.len(),
        decoded@.len() == high_addr - low_addr,
    ensures
        r@.len() == high_addr - low_addr,
        forall|i: int|
            0 <= i < r@.len() ==> #[trigger] r@[i] == (
                (low_addr + i) as usize,
                spec_describe_word(memory@[low_addr + i], decoded@[i]),
            ),
{
    let mut out: Vec<(usize, WordDisplay)> = Vec::new();
    let mut addr = low_addr;
    while addr < high_addr
        invariant
            low_addr <= addr <= high_addr,
            high_addr <= memory@.len(),
            decoded@.len() == high_addr - low_addr,
            out@.len() == addr - low_addr,
            forall|i: int|
                0 <= i < out@.len() ==> #[trigger] out@[i] == (
                    (low_addr + i) as usize,
                    spec_describe_word(memory@[low_addr + i], decoded@[i]),
                ),
        decreases high_addr - addr,
    {
        out.push((addr, describe_word(memory[addr], decoded[addr - low_addr])));
        addr += 1;
    }
    out
}

} // verus!
