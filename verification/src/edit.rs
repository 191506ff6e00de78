//! The buffer in which a title or a description is edited: a text and a
//! cursor into it.

use vstd::prelude::*;
use vstd::std_specs::iter::IteratorSpec;

verus! {

/// The field of an issue that is edited.
#[derive(Debug, Clone, Copy, PartialEq, Eq, Structural)]
pub enum EditField {
    Title,
    Description,
}

/// Index of the first character of the line that holds position `pos`.
pub open spec fn line_start(text: Seq<char>, pos: int) -> int
    decreases pos,
{
    if pos <= 0 {
        0
    } else if text[pos - 1] == '\n' {
        pos
    } else {
        line_start(text, pos - 1)
    }
}

/// Index behind the last character of the line that holds position `pos`:
/// that of the line break that ends the line, or the length of the text.
pub open spec fn line_end(text: Seq<char>, pos: int) -> int
    decreases text.len() - pos,
{
    if pos >= text.len() {
        text.len() as int
    } else if text[pos] == '\n' {
        pos
    } else {
        line_end(text, pos + 1)
    }
}

/// Number of the line that holds position `pos`: the number of line breaks
/// before it.
pub open spec fn line_of(text: Seq<char>, pos: int) -> nat
    decreases pos,
{
    if pos <= 0 {
        0
    } else if text[pos - 1] == '\n' {
        line_of(text, pos - 1) + 1
    } else {
        line_of(text, pos - 1)
    }
}

/// Column of position `pos`: the number of characters between the start of
/// its line and it.
pub open spec fn col_of(text: Seq<char>, pos: int) -> nat {
    (pos - line_start(text, pos)) as nat
}

/// The lesser of two numbers.
pub open spec fn least(a: int, b: int) -> int {
    if a <= b {
        a
    } else {
        b
    }
}

/// What an edit buffer stands for: the text as it was, the text as it is,
/// and the position of the cursor in it, counted in characters.
pub struct EditView {
    pub original: Seq<char>,
    pub buffer: Seq<char>,
    pub cursor: nat,
}

impl EditView {
    /// The cursor stands in the text or right behind it.
    pub open spec fn valid(self) -> bool {
        self.cursor <= self.buffer.len()
    }

    /// Number of the line of the cursor.
    pub open spec fn line(self) -> nat {
        line_of(self.buffer, self.cursor as int)
    }

    /// Column of the cursor.
    pub open spec fn col(self) -> nat {
        col_of(self.buffer, self.cursor as int)
    }

    /// Whether the text differs from what it was.
    pub open spec fn modified(self) -> bool {
        self.buffer != self.original
    }

    /// After `c` has been put in at the cursor; the cursor stands behind it.
    pub open spec fn insert_char(self, c: char) -> EditView {
        EditView {
            buffer: self.buffer.insert(self.cursor as int, c),
            cursor: self.cursor + 1,
            ..self
        }
    }

    /// After `s` has been put in at the cursor; the cursor stands behind it.
    pub open spec fn insert_str(self, s: Seq<char>) -> EditView {
        EditView {
            buffer: self.buffer.subrange(0, self.cursor as int) + s + self.buffer.subrange(
                self.cursor as int,
                self.buffer.len() as int,
            ),
            cursor: self.cursor + s.len(),
            ..self
        }
    }

    /// After the character before the cursor has been taken out, if there is
    /// one.
    pub open spec fn delete_char_before(self) -> EditView {
        if self.cursor > 0 {
            EditView {
                buffer: self.buffer.remove(self.cursor - 1),
                cursor: (self.cursor - 1) as nat,
                ..self
            }
        } else {
            self
        }
    }

    /// After the character at the cursor has been taken out, if there is one.
    pub open spec fn delete_char_at(self) -> EditView {
        if self.cursor < self.buffer.len() {
            EditView { buffer: self.buffer.remove(self.cursor as int), ..self }
        } else {
            self
        }
    }

    /// After the cursor has moved one character to the left, if it can.
    pub open spec fn move_left(self) -> EditView {
        if self.cursor > 0 {
            EditView { cursor: (self.cursor - 1) as nat, ..self }
        } else {
            self
        }
    }

    /// After the cursor has moved one character to the right, if it can.
    pub open spec fn move_right(self) -> EditView {
        if self.cursor < self.buffer.len() {
            EditView { cursor: self.cursor + 1, ..self }
        } else {
            self
        }
    }

    /// After the cursor has moved to the start of its line.
    pub open spec fn move_to_line_start(self) -> EditView {
        EditView { cursor: line_start(self.buffer, self.cursor as int) as nat, ..self }
    }

    /// After the cursor has moved to the end of its line.
    pub open spec fn move_to_line_end(self) -> EditView {
        EditView { cursor: line_end(self.buffer, self.cursor as int) as nat, ..self }
    }

    /// After the cursor has moved to the line above, if there is one: to its
    /// own column there, or to the end of that line where it is shorter.
    pub open spec fn move_up(self) -> EditView {
        let start = line_start(self.buffer, self.cursor as int);
        if start > 0 {
            let above = line_start(self.buffer, start - 1);
            EditView {
                cursor: (above + least(self.cursor - start, start - 1 - above)) as nat,
                ..self
            }
        } else {
            self
        }
    }

    /// After the cursor has moved to the line below, if there is one: to its
    /// own column there, or to the end of that line where it is shorter.
    pub open spec fn move_down(self) -> EditView {
        let start = line_start(self.buffer, self.cursor as int);
        let end = line_end(self.buffer, self.cursor as int);
        if end < self.buffer.len() {
            let below = end + 1;
            EditView {
                cursor: (below + least(self.cursor - start, line_end(self.buffer, below) - below))
                    as nat,
                ..self
            }
        } else {
            self
        }
    }

    /// After the text has been put back to what it was; the cursor stands
    /// behind it.
    pub open spec fn revert(self) -> EditView {
        EditView { buffer: self.original, cursor: self.original.len(), ..self }
    }
}

/// The characters of `text`.
pub fn chars_of(text: &str) -> (v: Vec<char>)
    ensures
        v@ == text@,
{
    let n = text.unicode_len();
    let mut v: Vec<char> = Vec::new();
    let mut it = text.chars();
    let mut i: usize = 0;
    loop
        invariant
            it.obeys_prophetic_iter_laws(),
            n == text@.len(),
            i + it.remaining().len() == n,
            it.remaining() == text@.subrange(i as int, n as int),
            v@ == text@.subrange(0, i as int),
        decreases n - i,
    {
        match it.next() {
            Some(c) => {
                assert(text@.subrange(0, i + 1) =~= text@.subrange(0, i as int).push(c));
                v.push(c);
                i += 1;
            },
            None => {
                assert(text@.subrange(0, i as int) =~= text@);
                return v;
            },
        }
    }
}

/// Appends `c` to `text` with `String::push`, which adds the character at
/// the end and changes nothing else.
#[verifier::external_body]
fn push_char(text: &mut String, c: char)
    ensures
        final(text)@ == old(text)@.push(c),
{
    text.push(c);
}

/// The text that `chars` spell.
pub fn text_of(chars: &Vec<char>) -> (text: String)
    ensures
        text@ == chars@,
{
    let mut text = String::new();
    let n = chars.len();
    let mut i: usize = 0;
    while i < n
        invariant
            n == chars.len(),
            i <= n,
            text@ == chars@.subrange(0, i as int),
        decreases n - i,
    {
        assert(chars@.subrange(0, i + 1) =~= chars@.subrange(0, i as int).push(chars[i as int]));
        push_char(&mut text, chars[i]);
        i += 1;
    }
    assert(chars@.subrange(0, n as int) =~= chars@);
    text
}

/// Index of the first character of the line that holds position `pos`.
pub fn start_of_line(text: &Vec<char>, pos: usize) -> (r: usize)
    requires
        pos <= text.len(),
    ensures
        r == line_start(text@, pos as int),
        r <= pos,
{
    let mut i = pos;
    while i > 0 && text[i - 1] != '\n'
        invariant
            i <= pos,
            pos <= text.len(),
            line_start(text@, pos as int) == line_start(text@, i as int),
        decreases i,
    {
        i -= 1;
    }
    i
}

/// Index behind the last character of the line that holds position `pos`.
pub fn end_of_line(text: &Vec<char>, pos: usize) -> (r: usize)
    requires
        pos <= text.len(),
    ensures
        r == line_end(text@, pos as int),
        pos <= r <= text.len(),
{
    let mut i = pos;
    while i < text.len() && text[i] != '\n'
        invariant
            pos <= i <= text.len(),
            line_end(text@, pos as int) == line_end(text@, i as int),
        decreases text.len() - i,
    {
        i += 1;
    }
    i
}

/// Line and column of position `pos`.
pub fn compute_line_col(text: &Vec<char>, pos: usize) -> (r: (usize, usize))
    requires
        pos <= text.len(),
    ensures
        r.0 == line_of(text@, pos as int),
        r.1 == col_of(text@, pos as int),
{
    let start = start_of_line(text, pos);
    let mut line: usize = 0;
    let mut i: usize = 0;
    while i < pos
        invariant
            i <= pos,
            pos <= text.len(),
            line == line_of(text@, i as int),
            line <= i,
        decreases pos - i,
    {
        if text[i] == '\n' {
            line += 1;
        }
        i += 1;
    }
    (line, pos - start)
}

/// An edit buffer: the text of one field of one issue while it is edited.
#[derive(Debug)]
pub struct EditState {
    issue_id: String,
    field: EditField,
    original: Vec<char>,
    buffer: Vec<char>,
    cursor: usize,
    cursor_line: usize,
    cursor_col: usize,
}

impl View for EditState {
    type V = EditView;

    closed spec fn view(&self) -> EditView {
        EditView { original: self.original@, buffer: self.buffer@, cursor: self.cursor as nat }
    }
}

impl EditState {
    /// Whether the cursor stands in the text, and line and column are those
    /// of the cursor.
    pub closed spec fn wf(&self) -> bool {
        &&& self.cursor <= self.buffer.len()
        &&& self.cursor_line == line_of(self.buffer@, self.cursor as int)
        &&& self.cursor_col == col_of(self.buffer@, self.cursor as int)
    }

    /// The identifier of the issue that is edited.
    pub closed spec fn issue(&self) -> Seq<char> {
        self.issue_id@
    }

    /// The field that is edited.
    pub closed spec fn what(&self) -> EditField {
        self.field
    }

    /// A well-formed buffer stands for a valid view.
    pub proof fn lemma_wf_valid(&self)
        requires
            self.wf(),
        ensures
            self@.valid(),
    {
    }

    fn update_cursor_position(&mut self)
        requires
            old(self).cursor <= old(self).buffer.len(),
        ensures
            final(self).wf(),
            final(self)@ == old(self)@,
            final(self).issue() == old(self).issue(),
            final(self).what() == old(self).what(),
    {
        let (line, col) = compute_line_col(&self.buffer, self.cursor);
        self.cursor_line = line;
        self.cursor_col = col;
    }

    /// The buffer for editing `field` of the issue `issue_id`, with `value`
    /// as the text and the cursor behind it.
    pub fn new(issue_id: String, field: EditField, value: String) -> (e: EditState)
        ensures
            e.wf(),
            e@ == (EditView { original: value@, buffer: value@, cursor: value@.len() }),
            e.issue() == issue_id@,
            e.what() == field,
    {
        let original = chars_of(value.as_str());
        let buffer = chars_of(value.as_str());
        let cursor = buffer.len();
        let mut e = EditState {
            issue_id,
            field,
            original,
            buffer,
            cursor,
            cursor_line: 0,
            cursor_col: 0,
        };
        e.update_cursor_position();
        e
    }

    /// The identifier of the issue that is edited.
    pub fn issue_id(&self) -> (r: &String)
        ensures
            r@ == self.issue(),
    {
        &self.issue_id
    }

    /// The field that is edited.
    pub fn field(&self) -> (r: EditField)
        ensures
            r == self.what(),
    {
        self.field
    }

    /// The text as it is.
    pub fn buffer(&self) -> (r: String)
        ensures
            r@ == self@.buffer,
    {
        text_of(&self.buffer)
    }

    /// The text as it was.
    pub fn original(&self) -> (r: String)
        ensures
            r@ == self@.original,
    {
        text_of(&self.original)
    }

    /// The characters of the text as it is.
    pub fn chars(&self) -> (r: &Vec<char>)
        ensures
            r@ == self@.buffer,
    {
        &self.buffer
    }

    /// Number of characters of the text as it is.
    pub fn len(&self) -> (r: usize)
        ensures
            r == self@.buffer.len(),
    {
        self.buffer.len()
    }

    /// Position of the cursor, counted in characters.
    pub fn cursor(&self) -> (r: usize)
        ensures
            r == self@.cursor,
    {
        self.cursor
    }

    /// Number of the line of the cursor.
    pub fn cursor_line(&self) -> (r: usize)
        requires
            self.wf(),
        ensures
            r == self@.line(),
    {
        self.cursor_line
    }

    /// Column of the cursor.
    pub fn cursor_col(&self) -> (r: usize)
        requires
            self.wf(),
        ensures
            r == self@.col(),
    {
        self.cursor_col
    }

    /// Puts `c` in at the cursor.
    pub fn insert_char(&mut self, c: char)
        requires
            old(self).wf(),
            old(self)@.buffer.len() < usize::MAX,
        ensures
            final(self).wf(),
            final(self)@ == old(self)@.insert_char(c),
            final(self).issue() == old(self).issue(),
            final(self).what() == old(self).what(),
    {
        self.buffer.insert(self.cursor, c);
        self.cursor += 1;
        self.update_cursor_position();
    }

    /// Puts `s` in at the cursor.
    pub fn insert_str(&mut self, s: &str)
        requires
            old(self).wf(),
            old(self)@.buffer.len() + s@.len() <= usize::MAX,
        ensures
            final(self).wf(),
            final(self)@ == old(self)@.insert_str(s@),
            final(self).issue() == old(self).issue(),
            final(self).what() == old(self).what(),
    {
        let added = chars_of(s);
        let n = added.len();
        let ghost start = self.buffer@;
        let ghost at = self.cursor as int;
        let mut k: usize = 0;
        assert(start.subrange(0, at) + added@.subrange(0, 0) + start.subrange(
            at,
            start.len() as int,
        ) =~= start);
        while k < n
            invariant
                n == added.len(),
                k <= n,
                at + n <= usize::MAX,
                start.len() + n <= usize::MAX,
                0 <= at <= start.len(),
                self.cursor == at + k,
                self.buffer@ == start.subrange(0, at) + added@.subrange(0, k as int)
                    + start.subrange(at, start.len() as int),
                self.original == old(self).original,
                self.issue_id == old(self).issue_id,
                self.field == old(self).field,
            decreases n - k,
        {
            let ghost before = self.buffer@;
            self.buffer.insert(self.cursor, added[k]);
            self.cursor += 1;
            assert(self.buffer@ =~= start.subrange(0, at) + added@.subrange(0, k + 1)
                + start.subrange(at, start.len() as int));
            k += 1;
        }
        assert(added@.subrange(0, n as int) =~= added@);
        self.update_cursor_position();
    }

    /// Takes out the character before the cursor.
    pub fn delete_char_before(&mut self)
        requires
            old(self).wf(),
        ensures
            final(self).wf(),
            final(self)@ == old(self)@.delete_char_before(),
            final(self).issue() == old(self).issue(),
            final(self).what() == old(self).what(),
    {
        if self.cursor > 0 {
            let _ = self.buffer.remove(self.cursor - 1);
            self.cursor -= 1;
            self.update_cursor_position();
        }
    }

    /// Takes out the character at the cursor.
    pub fn delete_char_at(&mut self)
        requires
            old(self).wf(),
        ensures
            final(self).wf(),
            final(self)@ == old(self)@.delete_char_at(),
            final(self).issue() == old(self).issue(),
            final(self).what() == old(self).what(),
    {
        if self.cursor < self.buffer.len() {
            let _ = self.buffer.remove(self.cursor);
            self.update_cursor_position();
        }
    }

    /// Moves the cursor one character to the left.
    pub fn move_left(&mut self)
        requires
            old(self).wf(),
        ensures
            final(self).wf(),
            final(self)@ == old(self)@.move_left(),
            final(self).issue() == old(self).issue(),
            final(self).what() == old(self).what(),
    {
        if self.cursor > 0 {
            self.cursor -= 1;
            self.update_cursor_position();
        }
    }

    /// Moves the cursor one character to the right.
    pub fn move_right(&mut self)
        requires
            old(self).wf(),
        ensures
            final(self).wf(),
            final(self)@ == old(self)@.move_right(),
            final(self).issue() == old(self).issue(),
            final(self).what() == old(self).what(),
    {
        if self.cursor < self.buffer.len() {
            self.cursor += 1;
            self.update_cursor_position();
        }
    }

    /// Moves the cursor to the start of its line.
    pub fn move_to_line_start(&mut self)
        requires
            old(self).wf(),
        ensures
            final(self).wf(),
            final(self)@ == old(self)@.move_to_line_start(),
            final(self).issue() == old(self).issue(),
            final(self).what() == old(self).what(),
    {
        self.cursor = start_of_line(&self.buffer, self.cursor);
        self.update_cursor_position();
    }

    /// Moves the cursor to the end of its line.
    pub fn move_to_line_end(&mut self)
        requires
            old(self).wf(),
        ensures
            final(self).wf(),
            final(self)@ == old(self)@.move_to_line_end(),
            final(self).issue() == old(self).issue(),
            final(self).what() == old(self).what(),
    {
        self.cursor = end_of_line(&self.buffer, self.cursor);
        self.update_cursor_position();
    }

    /// Moves the cursor to the line above.
    pub fn move_up(&mut self)
        requires
            old(self).wf(),
        ensures
            final(self).wf(),
            final(self)@ == old(self)@.move_up(),
            final(self).issue() == old(self).issue(),
            final(self).what() == old(self).what(),
    {
        let start = start_of_line(&self.buffer, self.cursor);
        if start > 0 {
            let above = start_of_line(&self.buffer, start - 1);
            let col = self.cursor - start;
            let length = start - 1 - above;
            self.cursor = above + if col <= length {
                col
            } else {
                length
            };
            self.update_cursor_position();
        }
    }

    /// Moves the cursor to the line below.
    pub fn move_down(&mut self)
        requires
            old(self).wf(),
        ensures
            final(self).wf(),
            final(self)@ == old(self)@.move_down(),
            final(self).issue() == old(self).issue(),
            final(self).what() == old(self).what(),
    {
        let start = start_of_line(&self.buffer, self.cursor);
        let end = end_of_line(&self.buffer, self.cursor);
        if end < self.buffer.len() {
            let below = end + 1;
            let col = self.cursor - start;
            let length = end_of_line(&self.buffer, below) - below;
            self.cursor = below + if col <= length {
                col
            } else {
                length
            };
            self.update_cursor_position();
        }
    }

    /// Whether the text differs from what it was.
    pub fn is_modified(&self) -> (r: bool)
        ensures
            r == self@.modified(),
    {
        let n = self.buffer.len();
        if n != self.original.len() {
            assert(self.buffer@.len() != self.original@.len());
            return true;
        }
        let mut i: usize = 0;
        while i < n
            invariant
                n == self.buffer.len(),
                n == self.original.len(),
                i <= n,
                forall|j: int| 0 <= j < i ==> self.buffer[j] == self.original[j],
            decreases n - i,
        {
            if self.buffer[i] != self.original[i] {
                return true;
            }
            i += 1;
        }
        assert(self.buffer@ =~= self.original@);
        false
    }

    /// Puts the text back to what it was.
    pub fn revert(&mut self)
        requires
            old(self).wf(),
        ensures
            final(self).wf(),
            final(self)@ == old(self)@.revert(),
            final(self).issue() == old(self).issue(),
            final(self).what() == old(self).what(),
    {
        let n = self.original.len();
        let mut copy: Vec<char> = Vec::new();
        let mut i: usize = 0;
        while i < n
            invariant
                n == self.original.len(),
                i <= n,
                copy@ == self.original@.subrange(0, i as int),
                self.original == old(self).original,
                self.issue_id == old(self).issue_id,
                self.field == old(self).field,
            decreases n - i,
        {
            assert(self.original@.subrange(0, i + 1) =~= self.original@.subrange(0, i as int).push(
                self.original[i as int],
            ));
            copy.push(self.original[i]);
            i += 1;
        }
        assert(self.original@.subrange(0, n as int) =~= self.original@);
        self.buffer = copy;
        self.cursor = n;
        self.update_cursor_position();
    }
}

} // verus!
