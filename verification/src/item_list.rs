//! A list of lines of text with a cursor.
use crate::keys::{
    KEY_A, KEY_D, KEY_DC, KEY_DOWN, KEY_HOME, KEY_LEFT, KEY_RIGHT, KEY_S, KEY_UP, KEY_W,
};
use crate::screen::{drawn, lemma_drawn_push, Draw, Drawn, Rect, Style};
use crate::text::{
    byte_len, byte_slice, lemma_byte_slice_len, len_of, on_boundary, slice_of, texts, trim_end,
    without_trailing_space,
};
use vstd::arithmetic::div_mod::*;
use vstd::prelude::*;

verus! {

/// A list of items. `cursor_y` is the selected item, and `cursor_x` the byte
/// offset from which the items are shown.
#[derive(Debug)]
pub struct ItemList {
    pub items: Vec<String>,
    pub cursor_x: usize,
    pub cursor_y: usize,
}

/// The model of an [`ItemList`].
#[verifier::ext_equal]
pub struct Items {
    pub items: Seq<Seq<char>>,
    pub cursor_x: int,
    pub cursor_y: int,
}

/// The index of the first item on the page of `h` items that holds the item
/// `cursor_y`.
pub open spec fn page_top(cursor_y: int, h: int) -> int {
    cursor_y / h * h
}

/// The number of items on the page that holds the item `cursor_y`.
pub open spec fn page_len(len: int, cursor_y: int, h: int) -> nat {
    if h <= 0 || len <= page_top(cursor_y, h) {
        0
    } else if len - page_top(cursor_y, h) < h {
        (len - page_top(cursor_y, h)) as nat
    } else {
        h as nat
    }
}

/// The part of an item that is seen through `w` columns from the byte offset
/// `cursor_x` on. White space at the end of the item is not shown.
pub open spec fn visible(item: Seq<char>, cursor_x: int, w: int) -> Seq<char> {
    let shown = trim_end(item);
    let end = if cursor_x + w < byte_len(shown) {
        cursor_x + w
    } else {
        byte_len(shown) as int
    };
    byte_slice(shown, cursor_x, end)
}

impl Items {
    /// The cursor is on an item, or at the start of an empty list.
    pub open spec fn wf(self) -> bool {
        0 <= self.cursor_y && (self.cursor_y < self.items.len() || self.cursor_y == 0)
    }

    /// The selected item.
    pub open spec fn current(self) -> Option<Seq<char>> {
        if 0 <= self.cursor_y < self.items.len() {
            Some(self.items[self.cursor_y])
        } else {
            None
        }
    }

    /// The list without the selected item. The cursor stays where it is, or
    /// moves onto the last item where that was the one removed.
    pub open spec fn without_current(self) -> Items {
        if self.current() is None {
            self
        } else {
            let items = self.items.remove(self.cursor_y);
            let cursor_y = if items.len() == 0 {
                0
            } else if self.cursor_y < items.len() {
                self.cursor_y
            } else {
                items.len() - 1
            };
            Items { items, cursor_x: self.cursor_x, cursor_y }
        }
    }

    /// The list with `item` put before the selected item, and selected.
    pub open spec fn with_inserted(self, item: Seq<char>) -> Items {
        Items { items: self.items.insert(self.cursor_y, item), ..self }
    }

    /// The list with `item` in place of the selected item.
    pub open spec fn with_replaced(self, item: Seq<char>) -> Items {
        Items { items: self.items.update(self.cursor_y, item), ..self }
    }

    /// The list after a key.
    pub open spec fn after_key(self, key: i32) -> Items {
        if key == KEY_W || key == KEY_UP {
            if self.cursor_y > 0 {
                Items { cursor_y: self.cursor_y - 1, ..self }
            } else {
                self
            }
        } else if key == KEY_S || key == KEY_DOWN {
            if self.cursor_y + 1 < self.items.len() {
                Items { cursor_y: self.cursor_y + 1, ..self }
            } else {
                self
            }
        } else if key == KEY_A || key == KEY_LEFT {
            if self.cursor_x > 0 {
                Items { cursor_x: self.cursor_x - 1, ..self }
            } else {
                self
            }
        } else if key == KEY_D || key == KEY_RIGHT {
            if self.cursor_x < usize::MAX {
                Items { cursor_x: self.cursor_x + 1, ..self }
            } else {
                self
            }
        } else if key == KEY_HOME {
            Items { cursor_x: 0, ..self }
        } else if key == KEY_DC {
            self.without_current()
        } else {
            self
        }
    }

    /// Whether the `i`th row of the page is that of the selected item.
    pub open spec fn selected_row(self, i: int, h: int) -> bool {
        i == self.cursor_y % h
    }

    /// The number of rows that the list takes of `rect`.
    pub open spec fn rows(self, rect: Rect) -> nat {
        page_len(self.items.len() as int, self.cursor_y, rect.h as int)
    }

    /// The item on the `i`th row of `rect`.
    pub open spec fn row_item(self, rect: Rect, i: int) -> Seq<char> {
        self.items[page_top(self.cursor_y, rect.h as int) + i]
    }

    /// The `i`th row of the list on `rect`.
    pub open spec fn row(self, rect: Rect, focused: bool, i: int) -> Drawn {
        Drawn {
            y: rect.y + i,
            x: rect.x as int,
            style: if !self.selected_row(i, rect.h as int) {
                Style::Regular
            } else if focused {
                Style::Cursor
            } else {
                Style::UnfocusedCursor
            },
            text: visible(self.row_item(rect, i), self.cursor_x, rect.w as int),
        }
    }

    /// The list on `rect`: the page of it that holds the selected item.
    pub open spec fn drawing(self, rect: Rect, focused: bool) -> Seq<Drawn> {
        Seq::new(self.rows(rect), |i: int| self.row(rect, focused, i))
    }

    /// The row of `rect` that holds the selected item.
    pub open spec fn current_row(self, rect: Rect) -> Rect {
        Rect { x: rect.x, y: (rect.y + self.cursor_y % (rect.h as int)) as usize, w: rect.w, h: 1 }
    }
}

impl View for ItemList {
    type V = Items;

    open spec fn view(&self) -> Items {
        Items {
            items: texts(self.items@),
            cursor_x: self.cursor_x as int,
            cursor_y: self.cursor_y as int,
        }
    }
}

/// The first index of the page that holds `cursor_y`.
pub fn page_start(cursor_y: usize, h: usize) -> (top: usize)
    requires
        h > 0,
    ensures
        top == page_top(cursor_y as int, h as int),
        top <= cursor_y,
{
    proof {
        lemma_fundamental_div_mod(cursor_y as int, h as int);
        lemma_mod_bound(cursor_y as int, h as int);
        assert((cursor_y / h) * h == h * (cursor_y / h)) by (nonlinear_arith);
    }
    cursor_y / h * h
}

impl ItemList {
    /// An empty list.
    pub fn new() -> (list: ItemList)
        ensures
            list@ == (Items { items: Seq::empty(), cursor_x: 0, cursor_y: 0 }),
            list@.wf(),
    {
        let list = ItemList { items: Vec::new(), cursor_x: 0, cursor_y: 0 };
        assert(texts(list.items@) == Seq::<Seq<char>>::empty());
        list
    }

    /// The selected item.
    pub fn current_item(&self) -> (item: Option<&str>)
        ensures
            match item {
                Some(text) => self@.current() == Some(text@),
                None => self@.current() is None,
            },
    {
        if self.cursor_y < self.items.len() {
            Some(self.items[self.cursor_y].as_str())
        } else {
            None
        }
    }

    /// Removes the selected item.
    pub fn delete_current(&mut self)
        requires
            old(self)@.wf(),
        ensures
            final(self)@ == old(self)@.without_current(),
            final(self)@.wf(),
    {
        if self.cursor_y < self.items.len() {
            let ghost before = self.items@;
            self.items.remove(self.cursor_y);
            assert(texts(self.items@) == texts(before).remove(self.cursor_y as int));
            if self.items.len() == 0 {
                self.cursor_y = 0;
            } else if self.cursor_y >= self.items.len() {
                self.cursor_y = self.items.len() - 1;
            }
        }
    }

    /// Puts `item` before the selected item and selects it.
    pub fn insert_current(&mut self, item: String)
        requires
            old(self)@.wf(),
        ensures
            final(self)@ == old(self)@.with_inserted(item@),
            final(self)@.wf(),
            final(self)@.current() == Some(item@),
    {
        let ghost before = self.items@;
        self.items.insert(self.cursor_y, item);
        assert(texts(self.items@) == texts(before).insert(self.cursor_y as int, item@));
    }

    /// Puts `item` in place of the selected item.
    pub fn replace_current(&mut self, item: String)
        requires
            old(self)@.current() is Some,
        ensures
            final(self)@ == old(self)@.with_replaced(item@),
            final(self)@.wf(),
    {
        let ghost before = self.items@;
        self.items.set(self.cursor_y, item);
        assert(texts(self.items@) == texts(before).update(self.cursor_y as int, item@));
    }

    /// Puts `item` at the end of the list.
    pub fn push(&mut self, item: String)
        ensures
            final(self)@ == (Items { items: old(self)@.items.push(item@), ..old(self)@ }),
    {
        let ghost before = self.items@;
        self.items.push(item);
        assert(texts(self.items@) == texts(before).push(item@));
    }

    /// Moves the cursor, scrolls or removes an item, as the key says.
    pub fn handle_key(&mut self, key: i32)
        requires
            old(self)@.wf(),
        ensures
            final(self)@ == old(self)@.after_key(key),
            final(self)@.wf(),
    {
        if key == KEY_W || key == KEY_UP {
            if self.cursor_y > 0 {
                self.cursor_y = self.cursor_y - 1;
            }
        } else if key == KEY_S || key == KEY_DOWN {
            if self.items.len() > 0 && self.cursor_y < self.items.len() - 1 {
                self.cursor_y = self.cursor_y + 1;
            }
        } else if key == KEY_A || key == KEY_LEFT {
            if self.cursor_x > 0 {
                self.cursor_x = self.cursor_x - 1;
            }
        } else if key == KEY_D || key == KEY_RIGHT {
            if self.cursor_x < usize::MAX {
                self.cursor_x = self.cursor_x + 1;
            }
        } else if key == KEY_HOME {
            self.cursor_x = 0;
        } else if key == KEY_DC {
            self.delete_current();
        }
    }

    /// The row of `rect` that holds the selected item.
    pub fn current_row(&self, rect: Rect) -> (row: Rect)
        requires
            rect.h > 0,
            rect.y + rect.h <= usize::MAX,
        ensures
            row == self@.current_row(rect),
            row.y == rect.y + self.cursor_y as int % rect.h as int,
            rect.y <= row.y < rect.y + rect.h,
    {
        proof {
            lemma_mod_bound(self.cursor_y as int, rect.h as int);
        }
        Rect { x: rect.x, y: rect.y + self.cursor_y % rect.h, w: rect.w, h: 1 }
    }

    /// The number of rows that the list takes of `rect`.
    pub fn visible_rows(&self, rect: Rect) -> (n: usize)
        ensures
            n == self@.rows(rect),
            n <= rect.h,
            rect.h > 0 ==> page_top(self.cursor_y as int, rect.h as int) + n <= self.items@.len()
                || n == 0,
    {
        if rect.h == 0 {
            return 0;
        }
        let top = page_start(self.cursor_y, rect.h);
        if self.items.len() <= top {
            0
        } else if self.items.len() - top < rect.h {
            self.items.len() - top
        } else {
            rect.h
        }
    }

    /// The pieces of text that show the list on `rect`.
    pub fn render(&self, rect: Rect, focused: bool) -> (draws: Vec<Draw>)
        requires
            rect.y + rect.h <= usize::MAX,
            self.cursor_x + rect.w <= usize::MAX,
        ensures
            drawn(draws@) == self@.drawing(rect, focused),
    {
        let mut draws: Vec<Draw> = Vec::new();
        let n = self.visible_rows(rect);
        let len: usize = self.items.len();
        let mut i: usize = 0;
        while i < n
            invariant
                i <= n,
                len == self.items@.len(),
                n == self@.rows(rect),
                n <= rect.h,
                rect.h > 0 ==> page_top(self.cursor_y as int, rect.h as int) + n
                    <= self.items@.len() || n == 0,
                rect.y + rect.h <= usize::MAX,
                self.cursor_x + rect.w <= usize::MAX,
                drawn(draws@) == Seq::new(i as nat, |j: int| self@.row(rect, focused, j)),
            decreases n - i,
        {
            let top = page_start(self.cursor_y, rect.h);
            let item = without_trailing_space(self.items[top + i].as_str());
            let limit: usize = self.cursor_x + rect.w;
            let bytes: usize = len_of(item.as_str());
            let end: usize = if limit < bytes {
                limit
            } else {
                bytes
            };
            let selected = i == self.cursor_y % rect.h;
            let draw = Draw {
                y: rect.y + i,
                x: rect.x,
                style: if !selected {
                    Style::Regular
                } else if focused {
                    Style::Cursor
                } else {
                    Style::UnfocusedCursor
                },
                text: slice_of(item.as_str(), self.cursor_x, end),
            };
            assert(draw@ == self@.row(rect, focused, i as int));
            let ghost before = draws@;
            draws.push(draw);
            proof {
                lemma_drawn_push(before, draw);
            }
            i = i + 1;
            assert(drawn(draws@) == Seq::new(i as nat, |j: int| self@.row(rect, focused, j)));
        }
        draws
    }
}

/// The selected item is always on the page that is shown. Its row is the one
/// that `current_row` gives, and the only one that is shown as selected.
pub proof fn law_selected_item_is_seen(list: Items, rect: Rect, focused: bool)
    requires
        list.current() is Some,
        rect.h > 0,
        rect.y + rect.h <= usize::MAX,
    ensures
        ({
            let i = list.cursor_y % (rect.h as int);
            &&& 0 <= i < list.drawing(rect, focused).len()
            &&& list.current() == Some(list.row_item(rect, i))
            &&& list.drawing(rect, focused)[i].y == list.current_row(rect).y
            &&& forall|j: int|
                0 <= j < list.drawing(rect, focused).len() ==> ((#[trigger] list.drawing(
                    rect,
                    focused,
                )[j]).style != Style::Regular <==> j == i)
        }),
{
    let h = rect.h as int;
    lemma_fundamental_div_mod(list.cursor_y, h);
    lemma_mod_bound(list.cursor_y, h);
    assert((list.cursor_y / h) * h == h * (list.cursor_y / h)) by (nonlinear_arith);
}

/// The list is shown inside its part of the screen: each row on one of the
/// rows of that part, and no wider than it.
pub proof fn law_rows_inside(list: Items, rect: Rect, focused: bool, i: int)
    requires
        0 <= i < list.drawing(rect, focused).len(),
    ensures
        ({
            let row = list.drawing(rect, focused)[i];
            &&& rect.y <= row.y < rect.y + rect.h
            &&& row.x == rect.x
            &&& byte_len(row.text) <= rect.w
        }),
{
    let shown = trim_end(list.row_item(rect, i));
    let end = if list.cursor_x + rect.w < byte_len(shown) {
        list.cursor_x + rect.w
    } else {
        byte_len(shown) as int
    };
    if list.cursor_x <= end && on_boundary(shown, list.cursor_x) && on_boundary(shown, end) {
        lemma_byte_slice_len(shown, list.cursor_x, end);
    }
}

} // verus!
