//! Viewing the text of a file: a window of lines, and a buffer of digits
//! for jumping to a line.

use vstd::prelude::*;
use crate::frame::{decimal_value, parse_length, valid_length_field};
use crate::navigator::window;

verus! {

/// A jump was asked for with a buffer that is empty, is no number, or
/// names a line that the text does not have.
#[derive(Clone, Copy, Debug, PartialEq, Eq, Structural)]
pub struct BadLine;

/// The model of a [`Viewer`].
pub struct ViewerView {
    pub lines: int,
    pub top: int,
    pub height: int,
    pub buffer: Seq<u8>,
}

/// How often `b` occurs in `s`.
pub open spec fn count_of(s: Seq<u8>, b: u8) -> int
    decreases s.len(),
{
    if s.len() == 0 {
        0
    } else {
        count_of(s.drop_last(), b) + if s.last() == b { 1int } else { 0int }
    }
}

/// The number of lines of a text: one for each line feed, and one more
/// for what follows the last line feed, if anything does.
pub open spec fn line_count(text: Seq<u8>) -> int {
    count_of(text, 10u8) + if text.len() > 0 && text.last() != 10u8 { 1int } else { 0int }
}

/// The line at which the window starts after scrolling one line down: it
/// moves only while lines remain below the window.
pub open spec fn top_after_down(v: ViewerView) -> int {
    if v.top + window(v.height) < v.lines {
        v.top + 1
    } else {
        v.top
    }
}

/// The line at which the window starts after scrolling one line up.
pub open spec fn top_after_up(v: ViewerView) -> int {
    if v.top > 0 {
        v.top - 1
    } else {
        v.top
    }
}

/// The line that a jump buffer names, if it names one of the text's lines.
pub open spec fn jump_target(v: ViewerView) -> Option<int> {
    if valid_length_field(v.buffer) && decimal_value(v.buffer) < v.lines {
        Some(decimal_value(v.buffer) as int)
    } else {
        None
    }
}

/// Counts the lines of a text.
pub fn count_lines(text: &[u8]) -> (n: usize)
    ensures
        n == line_count(text@),
{
    let mut n: usize = 0;
    let mut i: usize = 0;
    while i < text.len()
        invariant
            i <= text@.len(),
            n == count_of(text@.subrange(0, i as int), 10u8),
            n <= i,
            i > 0 && text@[i - 1] != 10u8 ==> n < i,
        decreases text@.len() - i,
    {
        proof {
            assert(text@.subrange(0, i + 1).drop_last() =~= text@.subrange(0, i as int));
        }
        if text[i] == 10 {
            n += 1;
        }
        i += 1;
    }
    proof {
        assert(text@.subrange(0, i as int) =~= text@);
    }
    if text.len() > 0 && text[text.len() - 1] != 10 {
        n + 1
    } else {
        n
    }
}

/// The state of the file view.
pub struct Viewer {
    lines: usize,
    top: usize,
    height: usize,
    buffer: Vec<u8>,
}

impl Viewer {
    /// What the viewer holds.
    pub closed spec fn view(&self) -> ViewerView {
        ViewerView {
            lines: self.lines as int,
            top: self.top as int,
            height: self.height as int,
            buffer: self.buffer@,
        }
    }

    /// The window starts at a line of the text, or at 0 where the text has none.
    pub open spec fn wf(&self) -> bool {
        0 <= self@.top && (self@.top < self@.lines || self@.top == 0)
    }

    /// The view of a text on a screen of `height` rows, from its first line.
    pub fn new(text: &[u8], height: usize) -> (viewer: Viewer)
        ensures
            viewer.wf(),
            viewer@ == (ViewerView {
                lines: line_count(text@),
                top: 0,
                height: height as int,
                buffer: Seq::<u8>::empty(),
            }),
    {
        Viewer { lines: count_lines(text), top: 0, height, buffer: Vec::new() }
    }

    /// The first line of the window.
    pub fn top(&self) -> (top: usize)
        ensures
            top == self@.top,
    {
        self.top
    }

    /// The line after the last line of the window: the window holds as
    /// many lines as the screen has rows, or as many as remain.
    pub fn bottom(&self) -> (bottom: usize)
        requires
            self.wf(),
        ensures
            bottom == (if self@.top + window(self@.height) < self@.lines {
                self@.top + window(self@.height)
            } else if self@.top < self@.lines {
                self@.lines
            } else {
                self@.top
            }),
    {
        let rows: usize = if self.height == 0 {
            1
        } else {
            self.height
        };
        if self.top >= self.lines {
            self.top
        } else if self.lines - self.top > rows {
            self.top + rows
        } else {
            self.lines
        }
    }

    /// The digits typed so far for a jump.
    pub fn buffer(&self) -> (buffer: &Vec<u8>)
        ensures
            buffer@ == self@.buffer,
    {
        &self.buffer
    }

    /// Scrolls one line down, as long as lines remain below the window.
    pub fn scroll_down(&mut self)
        requires
            old(self).wf(),
        ensures
            final(self).wf(),
            final(self)@ == (ViewerView { top: top_after_down(old(self)@), ..old(self)@ }),
    {
        let rows: usize = if self.height == 0 {
            1
        } else {
            self.height
        };
        if self.top < self.lines && self.lines - self.top > rows {
            self.top = self.top + 1;
        }
    }

    /// Scrolls one line up, as long as the window is not at the first line.
    pub fn scroll_up(&mut self)
        requires
            old(self).wf(),
        ensures
            final(self).wf(),
            final(self)@ == (ViewerView { top: top_after_up(old(self)@), ..old(self)@ }),
    {
        if self.top > 0 {
            self.top = self.top - 1;
        }
    }

    /// Takes a typed character given as its byte. A decimal digit joins
    /// the jump buffer; anything else is ignored.
    pub fn type_digit(&mut self, byte: u8) -> (taken: bool)
        ensures
            old(self).wf() ==> final(self).wf(),
            taken == (48 <= byte <= 57),
            final(self)@ == (ViewerView {
                buffer: if taken { old(self)@.buffer.push(byte) } else { old(self)@.buffer },
                ..old(self)@
            }),
    {
        if 48 <= byte && byte <= 57 {
            self.buffer.push(byte);
            true
        } else {
            false
        }
    }

    /// Jumps to the line that the buffer names and empties the buffer. A
    /// buffer that names no line of the text leaves the window where it is.
    pub fn jump(&mut self) -> (r: Result<usize, BadLine>)
        requires
            old(self).wf(),
        ensures
            final(self).wf(),
            final(self)@.buffer == Seq::<u8>::empty(),
            final(self)@.lines == old(self)@.lines,
            final(self)@.height == old(self)@.height,
            match r {
                Ok(line) => jump_target(old(self)@) == Some(line as int) && final(self)@.top == line,
                Err(_) => jump_target(old(self)@).is_none() && final(self)@.top == old(self)@.top,
            },
    {
        let parsed = parse_length(self.buffer.as_slice());
        self.buffer.clear();
        match parsed {
            Ok(line) => {
                if line < self.lines {
                    self.top = line;
                    Ok(line)
                } else {
                    Err(BadLine)
                }
            },
            Err(_) => Err(BadLine),
        }
    }
}

} // verus!
