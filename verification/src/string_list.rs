//! A list whose items can be inserted, edited and removed.
use crate::edit_field::{Edit, EditField};
use crate::global::{is_global_key, Global};
use crate::item_list::{ItemList, Items};
use crate::keys::{KEY_ESCAPE, KEY_F2, KEY_I, KEY_RETURN};
use crate::screen::{drawn, lemma_drawn_push, Draw, Drawn, Rect};
use vstd::arithmetic::div_mod::lemma_mod_bound;
use vstd::prelude::*;

verus! {

/// What the keys are for: to move about in the list, or to edit the selected
/// item, which may be a new one.
#[derive(Clone, Copy, Debug, PartialEq, Eq, Structural)]
pub enum StringListState {
    Navigate,
    Editing { new: bool },
}

/// A list and the field in which its items are edited.
#[derive(Debug)]
pub struct StringList {
    pub state: StringListState,
    pub list: ItemList,
    pub edit_field: EditField,
}

/// The model of a [`StringList`].
#[verifier::ext_equal]
pub struct Strings {
    pub state: StringListState,
    pub list: Items,
    pub field: Edit,
}

impl Strings {
    /// The cursor is in the list, and while an item is edited there is one.
    pub open spec fn wf(self) -> bool {
        &&& self.list.wf()
        &&& self.editing() ==> self.list.current() is Some
    }

    /// Whether an item is being edited.
    pub open spec fn editing(self) -> bool {
        self.state is Editing
    }

    /// An empty list.
    pub open spec fn empty() -> Strings {
        Strings {
            state: StringListState::Navigate,
            list: Items { items: Seq::empty(), cursor_x: 0, cursor_y: 0 },
            field: Edit { before: Seq::empty(), after: Seq::empty() },
        }
    }

    /// What the list stands for: the text being edited, or else the selected
    /// item.
    pub open spec fn chosen(self) -> Option<Seq<char>> {
        if self.editing() {
            Some(self.field.text())
        } else {
            self.list.current()
        }
    }

    /// The list after a key.
    pub open spec fn after_key(self, key: i32) -> Strings {
        match self.state {
            StringListState::Navigate => if is_global_key(key) {
                self
            } else if key == KEY_I {
                Strings {
                    state: StringListState::Editing { new: true },
                    list: self.list.with_inserted(Seq::empty()),
                    field: Edit { before: Seq::empty(), after: Seq::empty() },
                }
            } else if key == KEY_F2 {
                match self.list.current() {
                    Some(item) => Strings {
                        state: StringListState::Editing { new: false },
                        list: self.list,
                        field: Edit { before: item, after: Seq::empty() },
                    },
                    None => self,
                }
            } else {
                Strings { list: self.list.after_key(key), ..self }
            },
            StringListState::Editing { new } => if key == KEY_RETURN {
                Strings {
                    state: StringListState::Navigate,
                    list: self.list.with_replaced(self.field.text()),
                    ..self
                }
            } else if key == KEY_ESCAPE {
                Strings {
                    state: StringListState::Navigate,
                    list: if new {
                        self.list.without_current()
                    } else {
                        self.list
                    },
                    ..self
                }
            } else {
                Strings { field: self.field.after_key(key), ..self }
            },
        }
    }

    /// The shared state after a key. The text cursor is shown when editing
    /// begins and hidden when it ends, and no key is a global one meanwhile.
    pub open spec fn global_after_key(self, global: Global, key: i32) -> Global {
        match self.state {
            StringListState::Navigate => if is_global_key(key) {
                global.after_key(key)
            } else if key == KEY_I || (key == KEY_F2 && self.list.current() is Some) {
                Global { cursor_visible: true, ..global }
            } else {
                global
            },
            StringListState::Editing { .. } => if key == KEY_RETURN || key == KEY_ESCAPE {
                Global { cursor_visible: false, ..global }
            } else {
                global
            },
        }
    }

    /// The list after a series of keys.
    pub open spec fn after_keys(self, keys: Seq<i32>) -> Strings
        decreases keys.len(),
    {
        if keys.len() == 0 {
            self
        } else {
            self.after_keys(keys.drop_last()).after_key(keys.last())
        }
    }

    /// The list on `rect`, with the field over the selected item while that
    /// is edited.
    pub open spec fn drawing(self, rect: Rect, focused: bool) -> Seq<Drawn> {
        if self.editing() {
            self.list.drawing(rect, focused).push(self.field.drawing(self.list.current_row(rect)))
        } else {
            self.list.drawing(rect, focused)
        }
    }

    /// The shared state once the list is on `rect`: while an item is edited
    /// the text cursor stands in the field.
    pub open spec fn global_after_drawing(self, rect: Rect, global: Global) -> Global {
        if self.editing() {
            let row = self.list.current_row(rect);
            Global {
                cursor_y: row.y as i32,
                cursor_x: ((row.x + self.field.offset() as int % row.w as int) as usize) as i32,
                ..global
            }
        } else {
            global
        }
    }
}

impl View for StringList {
    type V = Strings;

    open spec fn view(&self) -> Strings {
        Strings { state: self.state, list: self.list@, field: self.edit_field@ }
    }
}

impl StringList {
    /// The list and the field are in order.
    pub open spec fn wf(self) -> bool {
        self@.wf() && self.edit_field.wf()
    }

    /// An empty list.
    pub fn new() -> (list: StringList)
        ensures
            list.wf(),
            list@ == Strings::empty(),
    {
        StringList {
            state: StringListState::Navigate,
            list: ItemList::new(),
            edit_field: EditField::new(),
        }
    }

    /// Whether an item is being edited.
    pub fn is_editing(&self) -> (editing: bool)
        ensures
            editing == self@.editing(),
    {
        match self.state {
            StringListState::Navigate => false,
            StringListState::Editing { .. } => true,
        }
    }

    /// The selected item.
    pub fn current_item(&self) -> (item: Option<&str>)
        ensures
            match item {
                Some(text) => self@.list.current() == Some(text@),
                None => self@.list.current() is None,
            },
    {
        self.list.current_item()
    }

    /// The text being edited, or else the selected item.
    pub fn chosen(&self) -> (text: Option<&str>)
        requires
            self.wf(),
        ensures
            match text {
                Some(text) => self@.chosen() == Some(text@),
                None => self@.chosen() is None,
            },
    {
        match self.state {
            StringListState::Navigate => self.current_item(),
            StringListState::Editing { .. } => {
                proof {
                    self.edit_field.lemma_parts();
                }
                Some(self.edit_field.buffer.as_str())
            },
        }
    }

    /// The pieces of text that show the list on `rect`. While an item is
    /// edited, the text cursor is put into the field.
    pub fn render(&self, rect: Rect, focused: bool, global: &mut Global) -> (draws: Vec<Draw>)
        requires
            self.wf(),
            rect.x + rect.w <= usize::MAX,
            rect.y + rect.h <= usize::MAX,
            self.list.cursor_x + rect.w <= usize::MAX,
            self@.editing() ==> rect.w > 0 && rect.h > 0,
        ensures
            drawn(draws@) == self@.drawing(rect, focused),
            *final(global) == self@.global_after_drawing(rect, *old(global)),
    {
        let mut draws = self.list.render(rect, focused);
        if let StringListState::Editing { .. } = self.state {
            let row = self.list.current_row(rect);
            let draw = self.edit_field.render(row);
            proof {
                lemma_drawn_push(draws@, draw);
                self.edit_field.lemma_parts();
                lemma_mod_bound(self.edit_field.cursor_x as int, row.w as int);
            }
            draws.push(draw);
            global.cursor_y = #[verifier::truncate] (row.y as i32);
            let column: usize = row.x + self.edit_field.cursor_x % row.w;
            global.cursor_x = #[verifier::truncate] (column as i32);
        }
        draws
    }

    /// Takes a key.
    pub fn handle_key(&mut self, key: i32, global: &mut Global)
        requires
            old(self).wf(),
        ensures
            final(self).wf(),
            final(self)@ == old(self)@.after_key(key),
            *final(global) == old(self)@.global_after_key(*old(global), key),
    {
        match self.state {
            StringListState::Navigate => {
                if !global.handle_key(key) {
                    if key == KEY_I {
                        self.list.insert_current(String::new());
                        self.edit_field.start("");
                        proof {
                            reveal_strlit("");
                            assert(""@ == Seq::<char>::empty());
                        }
                        self.state = StringListState::Editing { new: true };
                        global.cursor_visible = true;
                    } else if key == KEY_F2 {
                        if let Some(item) = self.list.current_item() {
                            let text = item.to_owned();
                            self.edit_field.start(text.as_str());
                            self.state = StringListState::Editing { new: false };
                            global.cursor_visible = true;
                        }
                    } else {
                        self.list.handle_key(key);
                    }
                }
            },
            StringListState::Editing { new } => {
                if key == KEY_RETURN {
                    self.state = StringListState::Navigate;
                    proof {
                        self.edit_field.lemma_parts();
                    }
                    self.list.replace_current(self.edit_field.buffer.clone());
                    global.cursor_visible = false;
                } else if key == KEY_ESCAPE {
                    self.state = StringListState::Navigate;
                    if new {
                        self.list.delete_current();
                    }
                    global.cursor_visible = false;
                } else {
                    self.edit_field.handle_key(key);
                }
            },
        }
    }
}

/// Keys that do not end the editing of an item.
pub open spec fn keeps_editing(keys: Seq<i32>) -> bool {
    forall|i: int|
        0 <= i < keys.len() ==> #[trigger] keys[i] != KEY_RETURN && keys[i] != KEY_ESCAPE
}

/// Every key leaves the list in order.
pub proof fn law_keys_keep_order(strings: Strings, key: i32)
    requires
        strings.wf(),
    ensures
        strings.after_key(key).wf(),
{
}

/// While an item is edited, keys other than Return and Escape reach the field
/// only: the list and the shared state stay as they are.
pub proof fn law_editing_is_private(strings: Strings, global: Global, keys: Seq<i32>)
    requires
        strings.editing(),
        keeps_editing(keys),
    ensures
        strings.after_keys(keys).state == strings.state,
        strings.after_keys(keys).list == strings.list,
        forall|i: int|
            0 <= i < keys.len() ==> #[trigger] strings.after_keys(keys.take(i)).global_after_key(
                global,
                keys[i],
            ) == global,
    decreases keys.len(),
{
    if keys.len() > 0 {
        let init = keys.drop_last();
        assert forall|i: int| 0 <= i < init.len() implies #[trigger] init[i] != KEY_RETURN
            && init[i] != KEY_ESCAPE by {
            assert(init[i] == keys[i]);
        }
        law_editing_is_private(strings, global, init);
        assert forall|i: int| 0 <= i < keys.len() implies #[trigger] strings.after_keys(
            keys.take(i),
        ).global_after_key(global, keys[i]) == global by {
            if i < init.len() {
                assert(init.take(i) == keys.take(i));
                assert(init[i] == keys[i]);
            } else {
                assert(keys.take(i) == init);
            }
        }
    }
}

/// Escape takes back an insertion, whatever was typed in between: the list
/// is again what it was.
pub proof fn law_escape_undoes_insert(strings: Strings, keys: Seq<i32>)
    requires
        strings.wf(),
        !strings.editing(),
        keeps_editing(keys),
    ensures
        strings.after_key(KEY_I).after_keys(keys).after_key(KEY_ESCAPE).list == strings.list,
        !strings.after_key(KEY_I).after_keys(keys).after_key(KEY_ESCAPE).editing(),
{
    let begun = strings.after_key(KEY_I);
    law_editing_is_private(begun, Global::initial(), keys);
    assert(begun.list.items.remove(begun.list.cursor_y) == strings.list.items);
}

/// Escape leaves the list as it was when an item was edited, whatever was
/// typed.
pub proof fn law_escape_undoes_edit(strings: Strings, keys: Seq<i32>)
    requires
        strings.wf(),
        !strings.editing(),
        strings.list.current() is Some,
        keeps_editing(keys),
    ensures
        strings.after_key(KEY_F2).after_keys(keys).after_key(KEY_ESCAPE).list == strings.list,
        !strings.after_key(KEY_F2).after_keys(keys).after_key(KEY_ESCAPE).editing(),
{
    law_editing_is_private(strings.after_key(KEY_F2), Global::initial(), keys);
}

/// Return puts the edited text in the place of the selected item and changes
/// no other item.
pub proof fn law_return_stores(strings: Strings)
    requires
        strings.wf(),
        strings.editing(),
    ensures
        ({
            let stored = strings.after_key(KEY_RETURN);
            &&& !stored.editing()
            &&& stored.chosen() == strings.chosen()
            &&& stored.list.current() == Some(strings.field.text())
            &&& stored.list.cursor_y == strings.list.cursor_y
            &&& stored.list.items.len() == strings.list.items.len()
            &&& forall|i: int|
                0 <= i < strings.list.items.len() && i != strings.list.cursor_y
                    ==> #[trigger] stored.list.items[i] == strings.list.items[i]
        }),
{
}

/// To edit an item and to store it at once changes nothing in the list.
pub proof fn law_edit_starts_from_item(strings: Strings)
    requires
        strings.wf(),
        !strings.editing(),
        strings.list.current() is Some,
    ensures
        strings.after_key(KEY_F2).chosen() == strings.chosen(),
        strings.after_key(KEY_F2).after_key(KEY_RETURN).list == strings.list,
{
    let begun = strings.after_key(KEY_F2);
    assert(begun.field.text() == strings.list.items[strings.list.cursor_y]);
    assert(strings.list.items.update(strings.list.cursor_y, begun.field.text())
        == strings.list.items);
}

} // verus!
