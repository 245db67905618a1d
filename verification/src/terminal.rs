//! The teletype model of the web front end: printed text is kept as
//! segments placed on a grid, so that a carriage return followed by more
//! text overstrikes what was printed before instead of erasing it.
use vstd::prelude::*;
use vstd::utf8::encode_utf8;
use crate::text::{chars_of, push_char};

verus! {

/// Columns of the teletype's line.
pub const TERM_WIDTH: u8 = 72;

/// A run of text printed from one position.
pub struct TerminalSegment {
    pub id: usize,
    pub text: String,
    pub start_x: u8,
    pub start_y: u32,
}

/// A segment as plain values.
pub struct SegmentView {
    pub id: usize,
    pub text: Seq<char>,
    pub start_x: u8,
    pub start_y: u32,
}

impl View for TerminalSegment {
    type V = SegmentView;

    open spec fn view(&self) -> SegmentView {
        SegmentView {
            id: self.id,
            text: self.text@,
            start_x: self.start_x,
            start_y: self.start_y,
        }
    }
}

/// Whether the cursor stands just after the segment's text, on its row
/// (the text's width counted in UTF-8 bytes).
pub open spec fn spec_is_end(s: SegmentView, cursor_x: u8, cursor_y: u32) -> bool {
    s.start_y == cursor_y && s.start_x + (encode_utf8(s.text).len() as usize) == cursor_x
}

impl TerminalSegment {
    /// An empty segment at the given position.
    pub fn new(id: usize, start_x: u8, start_y: u32) -> (r: TerminalSegment)
        ensures
            r@ == (SegmentView { id, text: Seq::empty(), start_x, start_y }),
    {
        TerminalSegment { id, text: String::new(), start_x, start_y }
    }

    /// Whether text printed at the cursor continues this segment (see
    /// `spec_is_end`).
    pub fn is_end(&self, cursor_x: u8, cursor_y: u32) -> (r: bool)
        ensures
            r == spec_is_end(self@, cursor_x, cursor_y),
    {
        let text = self.text.as_str();
        let len = text.len();
        assert(text@ == self.text@);
        assert(len == encode_utf8(self.text@).len() as usize);
        self.start_y == cursor_y && self.start_x <= cursor_x && len == (cursor_x - self.start_x)
            as usize
    }

    /// Adds a character to the end of the segment's text.
    pub fn append_char(&mut self, c: char)
        ensures
            final(self)@ == (SegmentView { text: old(self)@.text.push(c), ..old(self)@ }),
    {
        push_char(&mut self.text, c);
    }
}

/// The printed page and the print position.
pub struct Terminal {
    pub segments: Vec<TerminalSegment>,
    pub cursor_x: u8,
    pub cursor_y: u32,
}

/// The page as plain values.
pub struct TerminalView {
    pub segments: Seq<SegmentView>,
    pub cursor_x: u8,
    pub cursor_y: u32,
}

impl View for Terminal {
    type V = TerminalView;

    open spec fn view(&self) -> TerminalView {
        TerminalView {
            segments: self.segments@.map_values(|s: TerminalSegment| s@),
            cursor_x: self.cursor_x,
            cursor_y: self.cursor_y,
        }
    }
}

/// The page after one character: a line feed moves down a row (the row
/// count wraps around at 2^32, as in a release build), a carriage
/// return back to the first column; any other character is printed at the
/// cursor, continuing the last segment when the cursor stands at its end
/// and starting a new segment otherwise, and the cursor moves right unless
/// it is in the last column.
pub open spec fn spec_write_char(t: TerminalView, c: char) -> TerminalView {
    if c == '\n' {
        TerminalView { cursor_y: ((t.cursor_y + 1) % 0x1_0000_0000) as u32, ..t }
    } else if c == '\r' {
        TerminalView { cursor_x: 0, ..t }
    } else {
        let n = t.segments.len();
        let segments = if n > 0 && spec_is_end(t.segments[n - 1], t.cursor_x, t.cursor_y) {
            t.segments.update(
                n - 1,
                SegmentView { text: t.segments[n - 1].text.push(c), ..t.segments[n - 1] },
            )
        } else {
            t.segments.push(
                SegmentView {
                    id: n as usize,
                    text: seq![c],
                    start_x: t.cursor_x,
                    start_y: t.cursor_y,
                },
            )
        };
        TerminalView {
            segments,
            cursor_x: if t.cursor_x < TERM_WIDTH - 1 {
                (t.cursor_x + 1) as u8
            } else {
                t.cursor_x
            },
            cursor_y: t.cursor_y,
        }
    }
}

/// The page after a run of characters, written one by one.
pub open spec fn spec_push_string(t: TerminalView, s: Seq<char>) -> TerminalView
    decreases s.len(),
{
    if s.len() == 0 {
        t
    } else {
        spec_write_char(spec_push_string(t, s.drop_last()), s.last())
    }
}

/// The characters printed on a page, segment after segment.
pub open spec fn printed(segments: Seq<SegmentView>) -> nat
    decreases segments.len(),
{
    if segments.len() == 0 {
        0
    } else {
        printed(segments.drop_last()) + segments.last().text.len()
    }
}

/// The number of characters of a text other than line feeds and carriage
/// returns.
pub open spec fn count_printable(s: Seq<char>) -> nat
    decreases s.len(),
{
    if s.len() == 0 {
        0
    } else {
        count_printable(s.drop_last()) + if s.last() == '\n' || s.last() == '\r' {
            0nat
        } else {
            1nat
        }
    }
}

/// A well-formed page: each segment's id is its position, and the cursor
/// is within the line.
pub open spec fn terminal_wf(t: TerminalView) -> bool {
    &&& t.cursor_x < TERM_WIDTH
    &&& forall|i: int| 0 <= i < t.segments.len() ==> (#[trigger] t.segments[i]).id == i as usize
}

/// A blank page: one empty segment and the cursor at the top left.
pub open spec fn blank_page() -> TerminalView {
    TerminalView {
        segments: seq![SegmentView { id: 0, text: Seq::empty(), start_x: 0, start_y: 0 }],
        cursor_x: 0,
        cursor_y: 0,
    }
}

impl Terminal {
    /// A blank page (see `blank_page`).
    pub fn new() -> (r: Terminal)
        ensures
            r@ == blank_page(),
            terminal_wf(r@),
    {
        let mut segments: Vec<TerminalSegment> = Vec::new();
        segments.push(TerminalSegment::new(0, 0, 0));
        let r = Terminal { segments, cursor_x: 0, cursor_y: 0 };
        assert(r@.segments =~= seq![SegmentView { id: 0, text: Seq::empty(), start_x: 0, start_y: 0 }]);
        r
    }

    /// Prints one character (see `spec_write_char`).
    pub fn write_char(&mut self, c: char)
        ensures
            final(self)@ == spec_write_char(old(self)@, c),
    {
        match c {
            '\n' => {
                self.cursor_y = self.cursor_y.wrapping_add(1);
            },
            '\r' => {
                self.cursor_x = 0;
            },
            c => {
                let n = self.segments.len();
                let ghost segs = self@.segments;
                let at_end = n > 0 && self.segments[n - 1].is_end(self.cursor_x, self.cursor_y);
                if n > 0 {
                    assert(segs[n - 1] == self.segments@[n - 1]@);
                }
                if at_end {
                    let mut last = self.segments.pop().unwrap();
                    last.append_char(c);
                    self.segments.push(last);
                    assert(self@.segments =~= segs.update(
                        n - 1,
                        SegmentView { text: segs[n - 1].text.push(c), ..segs[n - 1] },
                    ));
                } else {
                    let mut segment = TerminalSegment::new(n, self.cursor_x, self.cursor_y);
                    segment.append_char(c);
                    self.segments.push(segment);
                    assert(self@.segments =~= segs.push(
                        SegmentView {
                            id: n,
                            text: seq![c],
                            start_x: old(self).cursor_x,
                            start_y: old(self).cursor_y,
                        },
                    ));
                }
                if self.cursor_x < TERM_WIDTH - 1 {
                    self.cursor_x = self.cursor_x + 1;
                }
            },
        }
    }

    /// Prints a text character by character (see `spec_push_string`).
    pub fn push_string(&mut self, s: &str)
        ensures
            final(self)@ == spec_push_string(old(self)@, s@),
    {
        let chars = chars_of(s);
        let mut i: usize = 0;
        while i < chars.len()
            invariant
                i <= chars@.len(),
                chars@ == s@,
                self@ == spec_push_string(old(self)@, chars@.subrange(0, i as int)),
            decreases chars@.len() - i,
        {
            let c = chars[i];
            assert(chars@.subrange(0, i + 1).drop_last() =~= chars@.subrange(0, i as int));
            self.write_char(c);
            i += 1;
        }
        assert(chars@.subrange(0, i as int) =~= s@);
    }

    /// Prints a run of characters (see `spec_push_string`).
    pub fn push_chars(&mut self, s: &Vec<char>)
        ensures
            final(self)@ == spec_push_string(old(self)@, s@),
    {
        let mut i: usize = 0;
        while i < s.len()
            invariant
                i <= s@.len(),
                self@ == spec_push_string(old(self)@, s@.subrange(0, i as int)),
            decreases s@.len() - i,
        {
            let c = s[i];
            assert(s@.subrange(0, i + 1).drop_last() =~= s@.subrange(0, i as int));
            self.write_char(c);
            i += 1;
        }
        assert(s@.subrange(0, i as int) =~= s@);
    }
}

/// Printing a character keeps the page well-formed.
pub proof fn law_write_char_wf(t: TerminalView, c: char)
    requires
        terminal_wf(t),
    ensures
        terminal_wf(spec_write_char(t, c)),
{
    let r = spec_write_char(t, c);
    if c != '\n' && c != '\r' {
        assert forall|i: int| 0 <= i < r.segments.len() implies (#[trigger] r.segments[i]).id == i as usize by {
            if i < t.segments.len() {
                assert(t.segments[i].id == i as usize);
            } else {
                assert(r.segments[i].id == t.segments.len() as usize);
            }
        }
    }
}

/// Printing a character never loses what is on the page: the segments
/// hold one more character for a printable character, and the same for a
/// line feed or carriage return.
pub proof fn law_write_char_keeps_text(t: TerminalView, c: char)
    ensures
        printed(spec_write_char(t, c).segments) == printed(t.segments) + if c == '\n' || c
            == '\r' {
            0nat
        } else {
            1nat
        },
{
    let r = spec_write_char(t, c);
    let n = t.segments.len();
    if c != '\n' && c != '\r' {
        if n > 0 && spec_is_end(t.segments[n - 1], t.cursor_x, t.cursor_y) {
            assert(r.segments.drop_last() =~= t.segments.drop_last());
        } else {
            assert(r.segments.drop_last() =~= t.segments);
        }
    }
}

/// Printing a text adds exactly its printable characters to the page.
pub proof fn law_push_string_keeps_text(t: TerminalView, s: Seq<char>)
    ensures
        printed(spec_push_string(t, s).segments) == printed(t.segments) + count_printable(s),
    decreases s.len(),
{
    if s.len() > 0 {
        law_push_string_keeps_text(t, s.drop_last());
        law_write_char_keeps_text(spec_push_string(t, s.drop_last()), s.last());
    }
}

/// Printing a text keeps the page well-formed.
pub proof fn law_push_string_wf(t: TerminalView, s: Seq<char>)
    requires
        terminal_wf(t),
    ensures
        terminal_wf(spec_push_string(t, s)),
    decreases s.len(),
{
    if s.len() > 0 {
        law_push_string_wf(t, s.drop_last());
        law_write_char_wf(spec_push_string(t, s.drop_last()), s.last());
    }
}

} // verus!
