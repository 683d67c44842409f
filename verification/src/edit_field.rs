//! A line of text that is being edited.
use crate::item_list::{page_start, page_top};
use crate::keys::{KEY_BACKSPACE, KEY_DC, KEY_LEFT, KEY_RIGHT};
use crate::screen::{Draw, Drawn, Rect, Style};
use crate::text::{
    byte_len, byte_slice, chars_of, lemma_boundary_in_range, lemma_concat_boundary, len_of,
    on_boundary, slice_of, string_of,
};
use vstd::prelude::*;
use vstd::string::StringExecFns;
use vstd::utf8::*;

verus! {

/// A text and the byte offset of the cursor in it.
#[derive(Debug)]
pub struct EditField {
    pub buffer: String,
    pub cursor_x: usize,
}

/// The model of an [`EditField`]: what stands before the cursor and what
/// stands behind it.
#[verifier::ext_equal]
pub struct Edit {
    pub before: Seq<char>,
    pub after: Seq<char>,
}

/// Whether a key stands for a character to insert: printable ASCII.
pub open spec fn is_printable(key: i32) -> bool {
    32 <= key <= 126
}

impl Edit {
    /// The whole text.
    pub open spec fn text(self) -> Seq<char> {
        self.before + self.after
    }

    /// The byte offset of the cursor.
    pub open spec fn offset(self) -> nat {
        byte_len(self.before)
    }

    /// The field after a key.
    pub open spec fn after_key(self, key: i32) -> Edit {
        if key == KEY_LEFT {
            if self.before.len() > 0 {
                Edit {
                    before: self.before.drop_last(),
                    after: seq![self.before.last()] + self.after,
                }
            } else {
                self
            }
        } else if key == KEY_RIGHT {
            if self.after.len() > 0 {
                Edit { before: self.before.push(self.after[0]), after: self.after.skip(1) }
            } else {
                self
            }
        } else if key == KEY_BACKSPACE || key == 127 {
            if self.before.len() > 0 {
                Edit { before: self.before.drop_last(), after: self.after }
            } else {
                self
            }
        } else if key == KEY_DC {
            if self.after.len() > 0 {
                Edit { before: self.before, after: self.after.skip(1) }
            } else {
                self
            }
        } else if is_printable(key) {
            Edit { before: self.before.push(key as u8 as char), after: self.after }
        } else {
            self
        }
    }

    /// The part of the text that is seen through `w` columns: the page of
    /// `w` bytes that holds the cursor, filled up with blanks.
    pub open spec fn visible(self, w: int) -> Seq<char> {
        let begin = page_top(self.offset() as int, w);
        let len = byte_len(self.text()) as int;
        let part = byte_slice(
            self.text(),
            begin,
            if len - begin > w {
                begin + w
            } else {
                len
            },
        );
        part + blanks(w - byte_len(part))
    }

    /// The field on a row of the screen.
    pub open spec fn drawing(self, row: Rect) -> Drawn {
        Drawn {
            y: row.y as int,
            x: row.x as int,
            style: Style::Regular,
            text: self.visible(row.w as int),
        }
    }
}

/// `n` blanks.
pub open spec fn blanks(n: int) -> Seq<char> {
    Seq::new(
        if n > 0 {
            n as nat
        } else {
            0
        },
        |i: int| ' ',
    )
}

impl View for EditField {
    type V = Edit;

    open spec fn view(&self) -> Edit {
        let bytes = encode_utf8(self.buffer@);
        Edit {
            before: decode_utf8(bytes.subrange(0, self.cursor_x as int)),
            after: decode_utf8(bytes.subrange(self.cursor_x as int, bytes.len() as int)),
        }
    }
}

impl EditField {
    /// The cursor stands between two characters.
    pub open spec fn wf(self) -> bool {
        on_boundary(self.buffer@, self.cursor_x as int)
    }

    /// The parts before and behind the cursor are the text, and the cursor is
    /// where the first of them ends.
    pub proof fn lemma_parts(self)
        requires
            self.wf(),
        ensures
            self@.text() == self.buffer@,
            self@.offset() == self.cursor_x,
            self.cursor_x <= byte_len(self.buffer@),
    {
        let bytes = encode_utf8(self.buffer@);
        encode_utf8_valid_utf8(self.buffer@);
        encode_utf8_decode_utf8(self.buffer@);
        lemma_boundary_in_range(bytes, self.cursor_x as int);
        valid_utf8_split(bytes, self.cursor_x as int);
        decode_utf8_split(bytes, self.cursor_x as int);
        decode_utf8_encode_utf8(bytes.subrange(0, self.cursor_x as int));
    }

    /// An empty field.
    pub fn new() -> (field: EditField)
        ensures
            field.wf(),
            field@ == (Edit { before: Seq::empty(), after: Seq::empty() }),
    {
        let before: Vec<char> = Vec::new();
        let after: Vec<char> = Vec::new();
        EditField::with_parts(&before, &after)
    }

    /// A field with the cursor between two texts.
    fn with_parts(before: &Vec<char>, after: &Vec<char>) -> (field: EditField)
        ensures
            field.wf(),
            field@ == (Edit { before: before@, after: after@ }),
    {
        let mut buffer = string_of(before, 0, before.len());
        let cursor_x = len_of(buffer.as_str());
        let tail = string_of(after, 0, after.len());
        buffer.append(tail.as_str());
        proof {
            assert(before@.subrange(0, before@.len() as int) == before@);
            assert(after@.subrange(0, after@.len() as int) == after@);
            lemma_concat_boundary(before@, after@);
            encode_utf8_decode_utf8(before@);
            encode_utf8_decode_utf8(after@);
        }
        EditField { buffer, cursor_x }
    }

    /// Puts `text` into the field and the cursor behind it.
    pub fn start(&mut self, text: &str)
        ensures
            final(self).wf(),
            final(self)@ == (Edit { before: text@, after: Seq::empty() }),
            final(self).buffer@ == text@,
            final(self).cursor_x == byte_len(text@),
    {
        let before = chars_of(text);
        let after: Vec<char> = Vec::new();
        *self = EditField::with_parts(&before, &after);
        proof {
            self.lemma_parts();
            assert(self@.text() == text@);
        }
    }

    /// Moves the cursor, removes a character or inserts one, as the key says.
    pub fn handle_key(&mut self, key: i32)
        requires
            old(self).wf(),
        ensures
            final(self).wf(),
            final(self)@ == old(self)@.after_key(key),
    {
        let (head, tail) = self.buffer.as_str().split_at(self.cursor_x);
        proof {
            encode_utf8_decode_utf8(head@);
            encode_utf8_decode_utf8(tail@);
        }
        let mut before = chars_of(head);
        let mut after = chars_of(tail);
        assert(self@ == (Edit { before: before@, after: after@ }));
        let ghost start = Edit { before: before@, after: after@ };
        if key == KEY_LEFT {
            if before.len() > 0 {
                let c: char = before[before.len() - 1];
                before.truncate(before.len() - 1);
                after.insert(0, c);
                assert(before@ == start.before.drop_last());
                assert(after@ == seq![start.before.last()] + start.after);
            }
        } else if key == KEY_RIGHT {
            if after.len() > 0 {
                let c: char = after.remove(0);
                before.push(c);
                assert(after@ == start.after.skip(1));
            }
        } else if key == KEY_BACKSPACE || key == 127 {
            if before.len() > 0 {
                before.truncate(before.len() - 1);
                assert(before@ == start.before.drop_last());
            }
        } else if key == KEY_DC {
            if after.len() > 0 {
                after.remove(0);
                assert(after@ == start.after.skip(1));
            }
        } else if 32 <= key && key <= 126 {
            before.push(key as u8 as char);
        }
        *self = EditField::with_parts(&before, &after);
    }

    /// The piece of text that shows the field on `row`.
    pub fn render(&self, row: Rect) -> (draw: Draw)
        requires
            self.wf(),
            row.w > 0,
        ensures
            draw@ == self@.drawing(row),
    {
        proof {
            self.lemma_parts();
        }
        let begin = page_start(self.cursor_x, row.w);
        let len: usize = len_of(self.buffer.as_str());
        let end: usize = if len - begin > row.w {
            begin + row.w
        } else {
            len
        };
        let mut text = slice_of(self.buffer.as_str(), begin, end);
        let ghost part = text@;
        let shown: usize = len_of(text.as_str());
        let mut i: usize = shown;
        assert(text@ == part + blanks(0));
        while i < row.w
            invariant
                shown <= i,
                shown < row.w ==> i <= row.w,
                i == shown || i <= row.w,
                text@ == part + blanks(i - shown),
            decreases row.w - i,
        {
            text.push(' ');
            i = i + 1;
            assert(text@ == part + blanks(i - shown));
        }
        assert(blanks(i - shown) == blanks(row.w - shown));
        Draw { y: row.y, x: row.x, style: Style::Regular, text }
    }
}

} // verus!
