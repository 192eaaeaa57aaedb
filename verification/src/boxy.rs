//! The welcome banner: a piece of text in a drawn box, with trailing
//! "ripple" outlines behind it and a drop-shadow column on the right.
//! Purely presentational; the geometry is rendered to plain lines and the
//! caller prints them.

use vstd::prelude::*;
use vstd::string::{StrSliceExecFns, StringExecFns};

use crate::render::{push_repeated, repeat_seq};

verus! {

/// Geometry and content of one banner box.
pub struct BoxConfig {
    pub indent: String,
    pub pad_ud: usize,
    pub pad_lr: usize,
    pub ripples: usize,
    pub box_height: usize,
    pub height: usize,
    pub text: String,
    pub len: usize,
}

impl BoxConfig {
    /// The derived fields agree with the primary ones, and every width and
    /// count the rendering computes fits the machine.
    pub open spec fn wf(self) -> bool {
        &&& self.len == self.text@.len()
        &&& self.box_height == 2 * self.pad_ud + 3
        &&& self.height == self.box_height + self.ripples
        &&& 2 * self.pad_ud + 3 + self.ripples <= usize::MAX
        &&& 2 * self.ripples <= usize::MAX
        &&& self.len + 2 * self.pad_lr + 2 <= usize::MAX
    }

    /// Cells between the box's two vertical walls.
    pub open spec fn inner_width(self) -> int {
        self.len + 2 * self.pad_lr
    }

    /// How many shadow cells follow line `j`: growing over the box's upper
    /// lines, full beside its middle, and shrinking below.
    pub open spec fn tail_count(self, j: int) -> int {
        if j < self.box_height {
            j
        } else if j > self.height - self.box_height {
            self.height - j
        } else {
            self.box_height - 1
        }
    }

    /// The content of line `j` before indent and shadow: first the ripple
    /// outlines, then the box's top, padding, text and bottom lines.
    pub open spec fn content(self, j: int) -> Seq<char> {
        let b = j - self.ripples;
        if j < self.ripples {
            repeat_seq(seq![' '], (2 * (self.ripples - j)) as nat)
                + repeat_seq(seq!['─'], (self.inner_width() + 1) as nat) + seq!['┐']
        } else if b == 0 {
            seq!['┌'] + repeat_seq(seq!['─'], self.inner_width() as nat) + seq!['┐']
        } else if b == self.box_height - 1 {
            seq!['└'] + repeat_seq(seq!['─'], self.inner_width() as nat) + seq!['┘']
        } else if b == self.pad_ud + 1 {
            seq!['│'] + repeat_seq(seq![' '], self.pad_lr as nat) + self.text@
                + repeat_seq(seq![' '], self.pad_lr as nat) + seq!['│']
        } else {
            seq!['│'] + repeat_seq(seq![' '], self.inner_width() as nat) + seq!['│']
        }
    }

    /// Line `j` as printed: indent, content, shadow cells.
    pub open spec fn rendered_line(self, j: int) -> Seq<char> {
        self.indent@ + self.content(j) + repeat_seq(" │"@, self.tail_count(j) as nat)
    }

    pub fn new(indent: usize, ripples: usize, pad_ud: usize, pad_lr: usize, text: String) -> (r:
        BoxConfig)
        requires
            2 * pad_ud + 3 + ripples <= usize::MAX,
            2 * ripples <= usize::MAX,
            text@.len() + 2 * pad_lr + 2 <= usize::MAX,
        ensures
            r.wf(),
            r.indent@ == repeat_seq(seq![' '], indent as nat),
            r.pad_ud == pad_ud,
            r.pad_lr == pad_lr,
            r.ripples == ripples,
            r.text == text,
    {
        proof {
            reveal_strlit(" ");
        }
        let len = text.as_str().unicode_len();
        let mut ind = String::new();
        push_repeated(&mut ind, " ", indent);
        proof {
            assert(" "@ =~= seq![' ']);
            assert(ind@ =~= repeat_seq(seq![' '], indent as nat));
        }
        BoxConfig {
            indent: ind,
            pad_ud,
            pad_lr,
            ripples,
            box_height: 2 * pad_ud + 3,
            height: 2 * pad_ud + 3 + ripples,
            text,
            len,
        }
    }

    /// Renders line `j`.
    fn render_line(&self, j: usize) -> (s: String)
        requires
            self.wf(),
            j < self.height,
        ensures
            s@ == self.rendered_line(j as int),
    {
        proof {
            reveal_strlit(" ");
            reveal_strlit("─");
            reveal_strlit("┌");
            reveal_strlit("┐");
            reveal_strlit("└");
            reveal_strlit("┘");
            reveal_strlit("│");
            assert(" "@ =~= seq![' ']);
            assert("─"@ =~= seq!['─']);
            assert("┌"@ =~= seq!['┌']);
            assert("┐"@ =~= seq!['┐']);
            assert("└"@ =~= seq!['└']);
            assert("┘"@ =~= seq!['┘']);
            assert("│"@ =~= seq!['│']);
        }
        let inner = self.len + 2 * self.pad_lr;
        let mut s = String::new();
        s.append(self.indent.as_str());
        if j < self.ripples {
            push_repeated(&mut s, " ", 2 * (self.ripples - j));
            push_repeated(&mut s, "─", inner + 1);
            s.append("┐");
        } else {
            let b = j - self.ripples;
            if b == 0 {
                s.append("┌");
                push_repeated(&mut s, "─", inner);
                s.append("┐");
            } else if b == self.box_height - 1 {
                s.append("└");
                push_repeated(&mut s, "─", inner);
                s.append("┘");
            } else if b == self.pad_ud + 1 {
                s.append("│");
                push_repeated(&mut s, " ", self.pad_lr);
                s.append(self.text.as_str());
                push_repeated(&mut s, " ", self.pad_lr);
                s.append("│");
            } else {
                s.append("│");
                push_repeated(&mut s, " ", inner);
                s.append("│");
            }
        }
        proof {
            assert(s@ =~= self.indent@ + self.content(j as int));
        }
        let tail = if j < self.box_height {
            j
        } else if j > self.height - self.box_height {
            self.height - j
        } else {
            self.box_height - 1
        };
        push_repeated(&mut s, " │", tail);
        proof {
            assert(s@ =~= self.rendered_line(j as int));
        }
        s
    }

    /// Renders the whole banner, top to bottom, one string per line.
    pub fn draw(&self) -> (lines: Vec<String>)
        requires
            self.wf(),
        ensures
            lines@.len() == self.height,
            forall|j: int| 0 <= j < lines@.len()
                ==> (#[trigger] lines@[j])@ == self.rendered_line(j),
    {
        let mut lines: Vec<String> = Vec::new();
        let mut j: usize = 0;
        while j < self.height
            invariant
                self.wf(),
                j <= self.height,
                lines@.len() == j,
                forall|k: int| 0 <= k < j
                    ==> (#[trigger] lines@[k])@ == self.rendered_line(k),
            decreases self.height - j,
        {
            let line = self.render_line(j);
            lines.push(line);
            j = j + 1;
        }
        lines
    }
}

} // verus!
