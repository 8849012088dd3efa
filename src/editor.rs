//! A one-line editor for an interactive front end, as a state machine: each
//! key gives the next state and the text to write to the terminal.
use vstd::prelude::*;

verus! {

/// The terminal control sequence `ESC [ code`.
pub open spec fn esc(code: Seq<char>) -> Seq<char> {
    seq!['\x1b', '['] + code
}

/// The key code that ends an editing session.
pub const QUIT_KEY: u8 = 0x71;

/// The key code of the escape key, which starts an arrow-key sequence.
pub const ESCAPE_KEY: u8 = 0x1b;

/// The key code sent by the backspace key.
pub const DELETE_KEY: u8 = 0x7f;

/// Moving the cursor right: the new text, cursor and terminal output.
pub open spec fn right_effect(t: Seq<char>, c: int) -> (Seq<char>, int, Seq<char>) {
    if c < t.len() {
        (t, c + 1, esc(seq!['1', 'C']))
    } else {
        (t, c, Seq::empty())
    }
}

/// Moving the cursor left: the new text, cursor and terminal output.
pub open spec fn left_effect(t: Seq<char>, c: int) -> (Seq<char>, int, Seq<char>) {
    if c > 0 {
        (t, c - 1, esc(seq!['1', 'D']))
    } else {
        (t, c, Seq::empty())
    }
}

/// Typing `ch`: it goes in at the cursor, the text from it on is redrawn and
/// the cursor ends one place further right.
pub open spec fn insert_effect(t: Seq<char>, c: int, ch: char) -> (Seq<char>, int, Seq<char>) {
    let u = t.insert(c, ch);
    (u, c + 1, esc(seq!['s']) + u.subrange(c, u.len() as int) + esc(seq!['u']) + esc(seq!['1', 'C']))
}

/// Erasing the character before the cursor, if there is one: the cursor
/// moves back, the rest of the line is cleared and redrawn.
pub open spec fn backspace_effect(t: Seq<char>, c: int) -> (Seq<char>, int, Seq<char>) {
    if c > 0 {
        let u = t.remove(c - 1);
        (
            u,
            c - 1,
            esc(seq!['1', 'D']) + esc(seq!['s']) + esc(seq!['K']) + u.subrange(c - 1, u.len() as int)
                + esc(seq!['u']),
        )
    } else {
        (t, c, Seq::empty())
    }
}

/// One key: an escape key with `[` and `C` or `D` after it moves the cursor,
/// with anything else after it does nothing; the delete key erases; any other
/// key is typed as the character of its code.
pub open spec fn key_effect(t: Seq<char>, c: int, key: u8, follow: (u8, u8)) -> (Seq<char>, int, Seq<char>) {
    if key == ESCAPE_KEY {
        if follow.0 == 0x5b && follow.1 == 0x43 {
            right_effect(t, c)
        } else if follow.0 == 0x5b && follow.1 == 0x44 {
            left_effect(t, c)
        } else {
            (t, c, Seq::empty())
        }
    } else if key == DELETE_KEY {
        backspace_effect(t, c)
    } else {
        insert_effect(t, c, key as char)
    }
}

/// The state of a one-line editor: the text typed so far and the cursor's
/// position in it. Each edit hands back the text to write to the terminal.
pub struct LineEditor {
    buffer: Vec<char>,
    cursor_pos: usize,
}

fn append_esc(out: &mut Vec<char>, code: &Vec<char>)
    ensures
        final(out)@ == old(out)@ + esc(code@),
{
    out.push('\x1b');
    out.push('[');
    let mut k: usize = 0;
    let ghost start = out@;
    while k < code.len()
        invariant
            k <= code@.len(),
            start == old(out)@ + seq!['\x1b', '['],
            out@ == start + code@.subrange(0, k as int),
        decreases code@.len() - k,
    {
        out.push(code[k]);
        k = k + 1;
        proof {
            assert(out@ =~= start + code@.subrange(0, k as int));
        }
    }
    proof {
        assert(code@.subrange(0, code@.len() as int) =~= code@);
        assert(out@ =~= old(out)@ + esc(code@));
    }
}

impl LineEditor {
    /// The text typed so far.
    pub closed spec fn text(&self) -> Seq<char> {
        self.buffer@
    }

    /// The cursor's position in the text.
    pub closed spec fn cursor(&self) -> int {
        self.cursor_pos as int
    }

    pub closed spec fn wf(&self) -> bool {
        self.cursor_pos <= self.buffer@.len()
    }

    /// An editor with no text and the cursor at the start.
    pub fn new() -> (r: LineEditor)
        ensures
            r.wf(),
            r.text() == Seq::<char>::empty(),
            r.cursor() == 0,
    {
        LineEditor { buffer: Vec::new(), cursor_pos: 0 }
    }

    /// The text typed so far.
    pub fn buffer(&self) -> (r: Vec<char>)
        ensures
            r@ == self.text(),
    {
        self.buffer.clone()
    }

    /// The cursor's position in the text.
    pub fn cursor_pos(&self) -> (r: usize)
        ensures
            r == self.cursor(),
    {
        self.cursor_pos
    }

    fn append_tail(&self, out: &mut Vec<char>)
        requires
            self.wf(),
        ensures
            final(out)@ == old(out)@ + self.text().subrange(self.cursor(), self.text().len() as int),
    {
        let mut k: usize = self.cursor_pos;
        while k < self.buffer.len()
            invariant
                self.cursor_pos <= k <= self.buffer@.len(),
                out@ == old(out)@ + self.buffer@.subrange(self.cursor_pos as int, k as int),
            decreases self.buffer@.len() - k,
        {
            out.push(self.buffer[k]);
            k = k + 1;
            proof {
                assert(out@ =~= old(out)@ + self.buffer@.subrange(self.cursor_pos as int, k as int));
            }
        }
    }

    /// Moves the cursor one place right, unless it is at the end of the text.
    pub fn move_cursor_right(&mut self) -> (out: Vec<char>)
        requires
            old(self).wf(),
        ensures
            final(self).wf(),
            (final(self).text(), final(self).cursor(), out@) == right_effect(old(self).text(), old(self).cursor()),
    {
        let mut out: Vec<char> = Vec::new();
        if self.cursor_pos < self.buffer.len() {
            self.cursor_pos = self.cursor_pos + 1;
            append_esc(&mut out, &vec!['1', 'C']);
        }
        out
    }

    /// Moves the cursor one place left, unless it is at the start of the text.
    pub fn move_cursor_left(&mut self) -> (out: Vec<char>)
        requires
            old(self).wf(),
        ensures
            final(self).wf(),
            (final(self).text(), final(self).cursor(), out@) == left_effect(old(self).text(), old(self).cursor()),
    {
        let mut out: Vec<char> = Vec::new();
        if self.cursor_pos > 0 {
            self.cursor_pos = self.cursor_pos - 1;
            append_esc(&mut out, &vec!['1', 'D']);
        }
        out
    }

    /// Inserts `c` at the cursor and moves the cursor past it; the output
    /// redraws the text from the new character on and puts the cursor back.
    pub fn insert_char(&mut self, c: char) -> (out: Vec<char>)
        requires
            old(self).wf(),
            old(self).text().len() < usize::MAX,
        ensures
            final(self).wf(),
            (final(self).text(), final(self).cursor(), out@) == insert_effect(old(self).text(), old(self).cursor(), c),
    {
        let mut out: Vec<char> = Vec::new();
        self.buffer.insert(self.cursor_pos, c);
        append_esc(&mut out, &vec!['s']);
        self.append_tail(&mut out);
        self.cursor_pos = self.cursor_pos + 1;
        append_esc(&mut out, &vec!['u']);
        append_esc(&mut out, &vec!['1', 'C']);
        out
    }

    /// Deletes the character before the cursor, unless the cursor is at the
    /// start; the output moves the cursor back, clears the rest of the line
    /// and redraws it.
    pub fn backspace(&mut self) -> (out: Vec<char>)
        requires
            old(self).wf(),
        ensures
            final(self).wf(),
            (final(self).text(), final(self).cursor(), out@) == backspace_effect(old(self).text(), old(self).cursor()),
    {
        let mut out: Vec<char> = Vec::new();
        if self.cursor_pos > 0 {
            self.buffer.remove(self.cursor_pos - 1);
            self.cursor_pos = self.cursor_pos - 1;
            append_esc(&mut out, &vec!['1', 'D']);
            append_esc(&mut out, &vec!['s']);
            append_esc(&mut out, &vec!['K']);
            self.append_tail(&mut out);
            append_esc(&mut out, &vec!['u']);
        }
        out
    }

    /// Applies one key; an escape key comes with the two bytes that follow it.
    pub fn handle_key_event(&mut self, key: u8, follow: (u8, u8)) -> (out: Vec<char>)
        requires
            old(self).wf(),
            old(self).text().len() < usize::MAX,
        ensures
            final(self).wf(),
            (final(self).text(), final(self).cursor(), out@) == key_effect(
                old(self).text(),
                old(self).cursor(),
                key,
                follow,
            ),
    {
        if key == ESCAPE_KEY {
            if follow.0 == 0x5b {
                if follow.1 == 0x43 {
                    return self.move_cursor_right();
                } else if follow.1 == 0x44 {
                    return self.move_cursor_left();
                }
            }
            Vec::new()
        } else if key == DELETE_KEY {
            self.backspace()
        } else {
            self.insert_char(key as char)
        }
    }

    /// One turn of an editing session: `None` when `key` ends the session and
    /// the editor is left as it was, else the edit of `handle_key_event` and
    /// the text to write.
    pub fn on_key(&mut self, key: u8, follow: (u8, u8)) -> (out: Option<Vec<char>>)
        requires
            old(self).wf(),
            old(self).text().len() < usize::MAX,
        ensures
            final(self).wf(),
            key == QUIT_KEY ==> out is None && final(self).text() == old(self).text()
                && final(self).cursor() == old(self).cursor(),
            key != QUIT_KEY ==> out is Some && (final(self).text(), final(self).cursor(), out->Some_0@)
                == key_effect(old(self).text(), old(self).cursor(), key, follow),
    {
        if key == QUIT_KEY {
            None
        } else {
            Some(self.handle_key_event(key, follow))
        }
    }
}

} // verus!
