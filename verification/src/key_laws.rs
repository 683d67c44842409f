//! What the keys do, in the lists, in the field and in the whole program.
use crate::edit_field::Edit;
use crate::global::{Focus, Global};
use crate::item_list::Items;
use crate::keys::{
    KEY_A, KEY_BACKSPACE, KEY_D, KEY_DC, KEY_DOWN, KEY_E, KEY_ESCAPE, KEY_F2, KEY_F5, KEY_HOME,
    KEY_I, KEY_LEFT, KEY_Q, KEY_RETURN, KEY_RIGHT, KEY_S, KEY_TAB, KEY_UP, KEY_W,
};
use crate::line_list::{action_for, lines_after_key, Acted, Cmdline};
use crate::session::State;
use crate::string_list::{StringListState, Strings};
use vstd::prelude::*;

verus! {

/// A key for the list itself: none that means the same everywhere, and none
/// that runs, edits or inserts.
pub open spec fn list_key(key: i32) -> bool {
    key != KEY_E && key != KEY_Q && key != KEY_TAB && key != KEY_RETURN && key != KEY_F5 && key
        != KEY_I && key != KEY_F2
}

/// What a key does to a list: `before` becomes `after`.
pub open spec fn list_moves(before: Items, key: i32, after: Items) -> bool {
    let n = before.items.len();
    // Up and down move the cursor by one item, as far as there are items.
    &&& key == KEY_UP || key == KEY_W ==> {
        &&& before.cursor_y > 0 ==> after.cursor_y == before.cursor_y - 1
        &&& before.cursor_y == 0 ==> after.cursor_y == 0
        &&& after.items == before.items && after.cursor_x == before.cursor_x
    }
    &&& key == KEY_DOWN || key == KEY_S ==> {
        &&& before.cursor_y < n - 1 ==> after.cursor_y == before.cursor_y + 1
        &&& before.cursor_y >= n - 1 ==> after.cursor_y == before.cursor_y
        &&& after.items == before.items && after.cursor_x == before.cursor_x
    }
    // Left and right scroll by one column, and Home back to the first.
    &&& key == KEY_LEFT || key == KEY_A ==> {
        &&& before.cursor_x > 0 ==> after.cursor_x == before.cursor_x - 1
        &&& before.cursor_x == 0 ==> after.cursor_x == 0
        &&& after.items == before.items && after.cursor_y == before.cursor_y
    }
    &&& key == KEY_RIGHT || key == KEY_D ==> {
        &&& before.cursor_x < usize::MAX ==> after.cursor_x == before.cursor_x + 1
        &&& before.cursor_x >= usize::MAX ==> after.cursor_x == before.cursor_x
        &&& after.items == before.items && after.cursor_y == before.cursor_y
    }
    &&& key == KEY_HOME ==> {
        &&& after.cursor_x == 0
        &&& after.items == before.items && after.cursor_y == before.cursor_y
    }
    // Delete takes the selected item away, and no other.
    &&& key == KEY_DC ==> {
        &&& n == 0 ==> after == before
        &&& n > 0 ==> after.items.len() == n - 1 && after.cursor_x == before.cursor_x
        &&& forall|i: int|
            0 <= i < before.cursor_y && i < n ==> #[trigger] after.items[i] == before.items[i]
        &&& forall|i: int|
            before.cursor_y <= i < n - 1 ==> #[trigger] after.items[i] == before.items[i + 1]
        &&& before.cursor_y < n - 1 ==> after.cursor_y == before.cursor_y
        &&& n >= 2 && before.cursor_y == n - 1 ==> after.cursor_y == n - 2
        &&& n == 1 ==> after.cursor_y == 0
    }
    // No other key does anything.
    &&& key != KEY_UP && key != KEY_W && key != KEY_DOWN && key != KEY_S && key != KEY_LEFT && key
        != KEY_A && key != KEY_RIGHT && key != KEY_D && key != KEY_HOME && key != KEY_DC ==> after
        == before
}

/// What the keys do in a list.
pub proof fn law_list_keys(list: Items, key: i32)
    requires
        list.wf(),
    ensures
        list_moves(list, key, list.after_key(key)),
{
}

/// In the pane of the lines, the keys of a list move through the lines.
pub proof fn law_line_keys(lines: Items, key: i32)
    requires
        lines.wf(),
    ensures
        list_key(key) ==> list_moves(lines, key, lines_after_key(lines, key)),
        key == KEY_I || key == KEY_F2 || key == KEY_RETURN || key == KEY_F5 || key == KEY_E || key
            == KEY_Q || key == KEY_TAB ==> lines_after_key(lines, key) == lines,
{
}

/// Up and `w` go to the line before, Down and `s` to the line behind, and
/// neither changes the lines. So one after the other leads back.
pub proof fn law_up_undoes_down(lines: Items, up: i32, down: i32)
    requires
        lines.wf(),
        up == KEY_UP || up == KEY_W,
        down == KEY_DOWN || down == KEY_S,
    ensures
        lines.cursor_y > 0 ==> lines_after_key(lines, up).cursor_y == lines.cursor_y - 1
            && lines_after_key(lines_after_key(lines, up), down) == lines,
        lines.cursor_y < lines.items.len() - 1 ==> lines_after_key(lines, down).cursor_y
            == lines.cursor_y + 1 && lines_after_key(lines_after_key(lines, down), up) == lines,
        lines_after_key(lines, up).items == lines.items,
        lines_after_key(lines, down).items == lines.items,
{
}

/// To the right and back again leaves the lines as they were.
pub proof fn law_left_undoes_right(lines: Items, left: i32, right: i32)
    requires
        left == KEY_LEFT || left == KEY_A,
        right == KEY_RIGHT || right == KEY_D,
        0 <= lines.cursor_x < usize::MAX,
    ensures
        lines_after_key(lines, right).cursor_x == lines.cursor_x + 1,
        lines_after_key(lines_after_key(lines, right), left) == lines,
{
}

/// What a key leaves to do outside: Return runs the command line, F5 starts
/// the command anew, and no other key leaves anything.
pub proof fn law_line_actions(key: i32, line: Seq<char>, cmdline: Cmdline)
    ensures
        action_for(KEY_RETURN, Some(Ok(line))) == Acted::Execute(line),
        action_for(KEY_RETURN, Some(Err(line))) == Acted::Stay,
        action_for(KEY_RETURN, None) == Acted::Stay,
        action_for(KEY_F5, cmdline) == Acted::Restart,
        key != KEY_RETURN && key != KEY_F5 ==> action_for(key, cmdline) == Acted::Stay,
{
}

/// What a key does to the field: `before` becomes `after`.
pub open spec fn field_edits(before: Edit, key: i32, after: Edit) -> bool {
    let text = before.before + before.after;
    let changed = after.before + after.after;
    let at = before.before.len();
    // Left and right move over one character and change no text.
    &&& key == KEY_LEFT ==> changed == text && after.before.len() == if at > 0 {
        at - 1
    } else {
        0
    }
    &&& key == KEY_RIGHT ==> changed == text && after.before.len() == if before.after.len() > 0 {
        at + 1
    } else {
        at
    }
    // Backspace takes the character before the cursor away, Delete the one
    // behind it.
    &&& key == KEY_BACKSPACE || key == 127 ==> {
        &&& at > 0 ==> changed == text.remove(at - 1) && after.before.len() == at - 1
        &&& at == 0 ==> after == before
    }
    &&& key == KEY_DC ==> {
        &&& at < text.len() ==> changed == text.remove(at as int) && after.before.len() == at
        &&& at == text.len() ==> after == before
    }
    // A printable character is put in before the cursor.
    &&& ' ' as i32 <= key <= '~' as i32 ==> changed == text.insert(at as int, key as u8 as char)
        && after.before.len() == at + 1
    // No other key does anything.
    &&& key != KEY_LEFT && key != KEY_RIGHT && key != KEY_BACKSPACE && key != 127 && key != KEY_DC
        && !(' ' as i32 <= key <= '~' as i32) ==> after == before
}

/// What the keys do in the field.
pub proof fn law_field_keys(field: Edit, key: i32)
    ensures
        field_edits(field, key, field.after_key(key)),
{
    let text = field.before + field.after;
    let after = field.after_key(key);
    let changed = after.before + after.after;
    let at = field.before.len();
    if key == KEY_LEFT || key == KEY_RIGHT {
        assert(changed =~= text);
    } else if key == KEY_BACKSPACE || key == 127 {
        if at > 0 {
            assert(changed =~= text.remove(at - 1));
        }
    } else if key == KEY_DC {
        if at < text.len() {
            assert(changed =~= text.remove(at as int));
        }
    } else if 32 <= key <= 126 {
        assert(changed =~= text.insert(at as int, key as u8 as char));
    }
}

/// Backspace takes back what was typed, and Left goes back over it.
pub proof fn law_backspace_undoes_typing(field: Edit, key: i32)
    requires
        ' ' as i32 <= key <= '~' as i32,
    ensures
        field.after_key(key).after_key(KEY_BACKSPACE) == field,
        field.after_key(key).after_key(KEY_LEFT).after_key(KEY_DC) == field,
        field.before.len() > 0 ==> field.after_key(KEY_LEFT).after_key(KEY_RIGHT) == field,
        field.after.len() > 0 ==> field.after_key(KEY_RIGHT).after_key(KEY_LEFT) == field,
{
    let c = key as u8 as char;
    assert(field.before.push(c).drop_last() == field.before);
    assert((seq![c] + field.after).skip(1) == field.after);
    if field.before.len() > 0 {
        let l = field.before.last();
        assert((seq![l] + field.after).skip(1) == field.after);
        assert(field.before.drop_last().push((seq![l] + field.after)[0]) == field.before);
    }
    if field.after.len() > 0 {
        let l = field.after[0];
        assert(field.before.push(l).drop_last() == field.before);
        assert(seq![field.before.push(l).last()] + field.after.skip(1) == field.after);
    }
}

/// Whether a text is made of printable ASCII.
pub open spec fn printable(text: Seq<char>) -> bool {
    forall|i: int| 0 <= i < text.len() ==> ' ' <= #[trigger] text[i] <= '~'
}

/// The keys that type a text.
pub open spec fn typing(text: Seq<char>) -> Seq<i32> {
    Seq::new(text.len(), |i: int| text[i] as i32)
}

proof fn lemma_typing(strings: Strings, text: Seq<char>)
    requires
        strings.state is Editing,
        printable(text),
    ensures
        ({
            let after = strings.after_keys(typing(text));
            &&& after.state == strings.state
            &&& after.list == strings.list
            &&& after.field.before == strings.field.before + text
            &&& after.field.after == strings.field.after
        }),
    decreases text.len(),
{
    let keys = typing(text);
    if text.len() == 0 {
        assert(strings.field.before + text == strings.field.before);
    } else {
        let init = text.drop_last();
        assert forall|i: int| 0 <= i < init.len() implies ' ' <= #[trigger] init[i] <= '~' by {
            assert(init[i] == text[i]);
        }
        lemma_typing(strings, init);
        assert(keys.drop_last() == typing(init));
        let c = text[text.len() - 1];
        let k = keys.last();
        assert(k == c as i32);
        assert(k as u8 as char == c);
        let mid = strings.after_keys(typing(init));
        assert(strings.after_keys(keys) == mid.after_key(k));
        assert(mid.after_key(k).field == mid.field.after_key(k));
        assert((strings.field.before + init).push(c) == strings.field.before + text);
    }
}

/// Insertion begins with an empty item and an empty field, whatever the field
/// held before, with the text cursor at its start.
pub proof fn law_insertion_starts_empty(strings: Strings, global: Global)
    requires
        strings.wf(),
        !(strings.state is Editing),
    ensures
        ({
            let begun = strings.after_key(KEY_I);
            &&& begun.state == StringListState::Editing { new: true }
            &&& begun.chosen() == Some(Seq::<char>::empty())
            &&& begun.field.before.len() == 0
            &&& begun.field.after.len() == 0
            &&& begun.field.offset() == 0
            &&& begun.list.items == strings.list.items.insert(
                strings.list.cursor_y,
                Seq::empty(),
            )
            &&& begun.list.cursor_y == strings.list.cursor_y
            &&& begun.list.cursor_x == strings.list.cursor_x
            &&& strings.global_after_key(global, KEY_I) == (Global {
                cursor_visible: true,
                ..global
            })
        }),
{
    assert(Seq::<char>::empty() + Seq::<char>::empty() == Seq::<char>::empty());
}

/// A text that is typed after insertion and stored by Return is put, exactly
/// as it was typed, before the item that was selected, and is selected. All
/// other items stay.
pub proof fn law_inserted_text_is_stored(strings: Strings, text: Seq<char>)
    requires
        strings.wf(),
        !(strings.state is Editing),
        printable(text),
    ensures
        ({
            let after = strings.after_key(KEY_I).after_keys(typing(text)).after_key(KEY_RETURN);
            &&& after.state == StringListState::Navigate
            &&& after.list.items == strings.list.items.insert(strings.list.cursor_y, text)
            &&& after.list.cursor_y == strings.list.cursor_y
            &&& after.list.cursor_x == strings.list.cursor_x
            &&& after.chosen() == Some(text)
        }),
{
    let begun = strings.after_key(KEY_I);
    lemma_typing(begun, text);
    assert(Seq::<char>::empty() + text + Seq::<char>::empty() == text);
    assert(strings.list.items.insert(strings.list.cursor_y, Seq::empty()).update(
        strings.list.cursor_y,
        text,
    ) == strings.list.items.insert(strings.list.cursor_y, text));
}

/// A text that is typed while an item is edited and stored by Return is put
/// at the end of that item. All other items stay.
pub proof fn law_edited_text_is_stored(strings: Strings, text: Seq<char>)
    requires
        strings.wf(),
        !(strings.state is Editing),
        strings.list.items.len() > 0,
        printable(text),
    ensures
        ({
            let item = strings.list.items[strings.list.cursor_y];
            let begun = strings.after_key(KEY_F2);
            let after = begun.after_keys(typing(text)).after_key(KEY_RETURN);
            &&& begun.state == StringListState::Editing { new: false }
            &&& begun.chosen() == Some(item)
            &&& begun.field.before == item
            &&& begun.list == strings.list
            &&& after.state == StringListState::Navigate
            &&& after.list.items == strings.list.items.update(
                strings.list.cursor_y,
                item + text,
            )
            &&& after.list.cursor_y == strings.list.cursor_y
            &&& after.list.cursor_x == strings.list.cursor_x
        }),
{
    let item = strings.list.items[strings.list.cursor_y];
    lemma_typing(strings.after_key(KEY_F2), text);
    assert(item + Seq::<char>::empty() == item);
    assert(item + text + Seq::<char>::empty() == item + text);
}

/// In a list that can be edited, while no item is, the keys of a list move
/// through it and leave the field and the shared state alone; the keys that
/// mean the same everywhere change the shared state only; and there is
/// nothing to edit in an empty list.
pub proof fn law_strings_keys(strings: Strings, global: Global, key: i32)
    requires
        strings.wf(),
        !(strings.state is Editing),
    ensures
        list_key(key) || key == KEY_RETURN || key == KEY_F5 ==> {
            &&& list_moves(strings.list, key, strings.after_key(key).list)
            &&& strings.after_key(key).state == strings.state
            &&& strings.after_key(key).field == strings.field
            &&& strings.global_after_key(global, key) == global
        },
        key == KEY_E || key == KEY_Q || key == KEY_TAB ==> strings.after_key(key) == strings
            && strings.global_after_key(global, key) == global.after_key(key),
        strings.list.items.len() == 0 ==> strings.after_key(KEY_F2) == strings
            && strings.global_after_key(global, KEY_F2) == global,
        strings.list.items.len() > 0 ==> strings.global_after_key(global, KEY_F2) == (Global {
            cursor_visible: true,
            ..global
        }),
{
}

/// While an item is edited, Return and Escape end that and hide the text
/// cursor. Return stores the text of the field in the selected item. Escape
/// takes a new item away and leaves others as they were. Every other key goes
/// to the field and to nothing else.
pub proof fn law_editing_keys(strings: Strings, global: Global, key: i32)
    requires
        strings.wf(),
        strings.state is Editing,
    ensures
        key == KEY_RETURN || key == KEY_ESCAPE ==> strings.after_key(key).state
            == StringListState::Navigate && strings.global_after_key(global, key) == (Global {
            cursor_visible: false,
            ..global
        }),
        strings.after_key(KEY_RETURN).list == (Items {
            items: strings.list.items.update(
                strings.list.cursor_y,
                strings.field.before + strings.field.after,
            ),
            ..strings.list
        }),
        strings.state == (StringListState::Editing { new: false }) ==> strings.after_key(
            KEY_ESCAPE,
        ).list == strings.list,
        strings.state == (StringListState::Editing { new: true }) ==> list_moves(
            strings.list,
            KEY_DC,
            strings.after_key(KEY_ESCAPE).list,
        ),
        key != KEY_RETURN && key != KEY_ESCAPE ==> {
            &&& strings.after_key(key).state == strings.state
            &&& strings.after_key(key).list == strings.list
            &&& field_edits(strings.field, key, strings.after_key(key).field)
            &&& strings.global_after_key(global, key) == global
        },
{
    law_field_keys(strings.field, key);
}

/// What the keys that mean the same everywhere do: one opens and closes the
/// profile pane, one ends the program, one moves the focus. No other key
/// changes the shared state.
pub proof fn law_global_keys(global: Global, key: i32)
    ensures
        global.after_key(KEY_E) == (Global { profile_pane: !global.profile_pane, ..global }),
        global.after_key(KEY_Q) == (Global { quit: true, ..global }),
        global.after_key(KEY_TAB) == (Global {
            focus: match global.focus {
                Focus::Lines => Focus::Regexs,
                Focus::Regexs => Focus::Cmds,
                Focus::Cmds => Focus::Lines,
            },
            ..global
        }),
        key != KEY_E && key != KEY_Q && key != KEY_TAB ==> global.after_key(key) == global,
{
}

/// Which pane a key goes to. Without the profile pane, or with the focus on
/// the lines, it goes to the lines, and the profile stays as it is. Else it
/// goes to the list that has the focus: the lines and the other list stay as
/// they are, and nothing is left to do outside.
pub proof fn law_keys_reach_one_pane(state: State, key: i32, cmdline: Cmdline)
    ensures
        !state.global.profile_pane || state.global.focus == Focus::Lines ==> {
            &&& state.after_key(key).kept == state.kept
            &&& state.after_key(key).lines == lines_after_key(state.lines, key)
            &&& state.after_key(key).global == state.global.after_key(key)
            &&& state.action(key, cmdline) == action_for(key, cmdline)
        },
        state.global.profile_pane && state.global.focus == Focus::Regexs ==> {
            &&& state.after_key(key).lines == state.lines
            &&& state.after_key(key).kept.cmds == state.kept.cmds
            &&& state.after_key(key).kept.regexs == state.kept.regexs.after_key(key)
            &&& state.after_key(key).global == state.kept.regexs.global_after_key(
                state.global,
                key,
            )
            &&& state.action(key, cmdline) == Acted::Stay
        },
        state.global.profile_pane && state.global.focus == Focus::Cmds ==> {
            &&& state.after_key(key).lines == state.lines
            &&& state.after_key(key).kept.regexs == state.kept.regexs
            &&& state.after_key(key).kept.cmds == state.kept.cmds.after_key(key)
            &&& state.after_key(key).global == state.kept.cmds.global_after_key(state.global, key)
            &&& state.action(key, cmdline) == Acted::Stay
        },
        state.after_key(key).status == state.status,
{
}

} // verus!
