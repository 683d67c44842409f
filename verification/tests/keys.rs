use cm::edit_field::EditField;
use cm::global::{Focus, Global};
use cm::item_list::ItemList;
use cm::keys::{
    KEY_A, KEY_BACKSPACE, KEY_D, KEY_DC, KEY_DOWN, KEY_E, KEY_ESCAPE, KEY_F2, KEY_F5, KEY_HOME,
    KEY_I, KEY_LEFT, KEY_Q, KEY_RETURN, KEY_RIGHT, KEY_S, KEY_TAB, KEY_UP, KEY_W,
};
use cm::line_list::{LineAction, LineList};
use cm::profile::Profile;
use cm::session::Session;
use cm::status_line::Status;
use cm::string_list::{StringList, StringListState};

fn list_of(items: &[&str]) -> ItemList {
    let mut list = ItemList::new();
    for item in items {
        list.push(item.to_string());
    }
    list
}

fn strings_of(items: &[&str]) -> StringList {
    let mut strings = StringList::new();
    strings.list = list_of(items);
    strings
}

fn typed(strings: &mut StringList, global: &mut Global, text: &str) {
    for c in text.chars() {
        strings.handle_key(c as i32, global);
    }
}

#[test]
fn key_codes_are_those_of_curses() {
    assert_eq!(KEY_F2, ncurses::KEY_F2);
    assert_eq!(KEY_F5, ncurses::KEY_F5);
    assert_eq!(KEY_DOWN, ncurses::KEY_DOWN);
    assert_eq!(KEY_UP, ncurses::KEY_UP);
    assert_eq!(KEY_LEFT, ncurses::KEY_LEFT);
    assert_eq!(KEY_RIGHT, ncurses::KEY_RIGHT);
    assert_eq!(KEY_HOME, ncurses::KEY_HOME);
    assert_eq!(KEY_DC, ncurses::KEY_DC);
    assert_eq!(KEY_BACKSPACE, ncurses::KEY_BACKSPACE);
    assert_eq!(KEY_E, 'e' as i32);
    assert_eq!(KEY_I, 'i' as i32);
    assert_eq!(KEY_Q, 'q' as i32);
    assert_eq!(KEY_TAB, '\t' as i32);
    assert_eq!(KEY_RETURN, '\n' as i32);
    assert_eq!(KEY_ESCAPE, '\u{1b}' as i32);
    assert_eq!(KEY_W, 'w' as i32);
    assert_eq!(KEY_A, 'a' as i32);
    assert_eq!(KEY_S, 's' as i32);
    assert_eq!(KEY_D, 'd' as i32);
}

#[test]
fn focus_goes_round() {
    assert_eq!(Focus::Lines.next(), Focus::Regexs);
    assert_eq!(Focus::Regexs.next(), Focus::Cmds);
    assert_eq!(Focus::Cmds.next(), Focus::Lines);
}

#[test]
fn global_keys() {
    let mut global = Global::new();
    assert!(!global.profile_pane && !global.quit && !global.cursor_visible);
    assert_eq!(global.focus, Focus::Regexs);
    let start = global;
    assert!(global.handle_key(KEY_E));
    assert!(global.profile_pane);
    assert!(global.handle_key(KEY_E));
    assert_eq!(global, start);
    assert!(global.handle_key(KEY_TAB));
    assert_eq!(global.focus, Focus::Cmds);
    assert!(!global.handle_key(KEY_I));
    assert!(!global.handle_key(-1));
    assert!(global.handle_key(KEY_Q));
    assert!(global.quit);
}

#[test]
fn list_cursor_moves() {
    let mut list = list_of(&["a", "b", "c"]);
    list.handle_key(KEY_UP);
    assert_eq!(list.cursor_y, 0);
    list.handle_key(KEY_S);
    list.handle_key(KEY_DOWN);
    list.handle_key(KEY_DOWN);
    assert_eq!(list.cursor_y, 2);
    list.handle_key(KEY_W);
    assert_eq!(list.current_item(), Some("b"));
    list.handle_key(KEY_D);
    list.handle_key(KEY_RIGHT);
    list.handle_key(KEY_A);
    assert_eq!(list.cursor_x, 1);
    list.handle_key(KEY_HOME);
    list.handle_key(KEY_LEFT);
    assert_eq!(list.cursor_x, 0);
    list.handle_key(-1);
    assert_eq!(list.cursor_y, 1);
}

#[test]
fn removing_items() {
    let mut list = list_of(&["a", "b", "c"]);
    list.cursor_y = 1;
    list.handle_key(KEY_DC);
    assert_eq!(list.items, vec!["a", "c"]);
    assert_eq!(list.cursor_y, 1);
    list.delete_current();
    assert_eq!(list.cursor_y, 0);
    list.delete_current();
    assert!(list.items.is_empty());
    assert_eq!(list.cursor_y, 0);
    list.delete_current();
    assert_eq!(list.current_item(), None);
    list.handle_key(KEY_DOWN);
    assert_eq!(list.cursor_y, 0);
}

#[test]
fn field_is_edited() {
    let mut field = EditField::new();
    for c in "abc".chars() {
        field.handle_key(c as i32);
    }
    field.handle_key(KEY_LEFT);
    field.handle_key(KEY_BACKSPACE);
    assert_eq!(field.buffer, "ac");
    assert_eq!(field.cursor_x, 1);
    field.handle_key(KEY_DC);
    assert_eq!(field.buffer, "a");
    field.handle_key(KEY_DC);
    field.handle_key(KEY_RIGHT);
    field.handle_key(-1);
    field.handle_key(KEY_F5);
    assert_eq!(field.buffer, "a");
    field.handle_key(KEY_BACKSPACE);
    field.handle_key(KEY_BACKSPACE);
    field.handle_key(KEY_LEFT);
    assert_eq!(field.buffer, "");
    assert_eq!(field.cursor_x, 0);
}

#[test]
fn field_moves_by_characters() {
    let mut field = EditField::new();
    field.start("x\u{4e16}\u{e9}");
    assert_eq!(field.cursor_x, 6);
    field.handle_key(KEY_LEFT);
    assert_eq!(field.cursor_x, 4);
    field.handle_key(KEY_LEFT);
    assert_eq!(field.cursor_x, 1);
    field.handle_key('-' as i32);
    assert_eq!(field.buffer, "x-\u{4e16}\u{e9}");
    field.handle_key(KEY_DC);
    assert_eq!(field.buffer, "x-\u{e9}");
    field.handle_key(KEY_RIGHT);
    field.handle_key(127);
    assert_eq!(field.buffer, "x-");
    assert_eq!(field.cursor_x, 2);
}

#[test]
fn inserting_an_item() {
    let mut strings = strings_of(&["a", "b"]);
    let mut global = Global::new();
    strings.handle_key(KEY_DOWN, &mut global);
    strings.handle_key(KEY_I, &mut global);
    assert_eq!(strings.state, StringListState::Editing { new: true });
    assert!(global.cursor_visible);
    assert_eq!(strings.list.items, vec!["a", "", "b"]);
    typed(&mut strings, &mut global, "quiet");
    assert!(!global.quit);
    assert_eq!(strings.chosen(), Some("quiet"));
    strings.handle_key(KEY_RETURN, &mut global);
    assert_eq!(strings.list.items, vec!["a", "quiet", "b"]);
    assert_eq!(strings.state, StringListState::Navigate);
    assert!(!global.cursor_visible);
    assert_eq!(strings.list.cursor_y, 1);
}

#[test]
fn inserting_into_an_empty_list() {
    let mut strings = StringList::new();
    let mut global = Global::new();
    strings.handle_key(KEY_F2, &mut global);
    assert!(!strings.is_editing());
    strings.handle_key(KEY_I, &mut global);
    strings.handle_key(KEY_RETURN, &mut global);
    assert_eq!(strings.list.items, vec![""]);
}

#[test]
fn escape_undoes_insertion() {
    for at in 0..3 {
        let mut strings = strings_of(&["a", "b", "c"]);
        let mut global = Global::new();
        strings.list.cursor_y = at;
        strings.handle_key(KEY_I, &mut global);
        typed(&mut strings, &mut global, "e q\t");
        strings.handle_key(KEY_ESCAPE, &mut global);
        assert_eq!(strings.list.items, vec!["a", "b", "c"]);
        assert_eq!(strings.list.cursor_y, at);
        assert_eq!(global, Global::new());
        assert_eq!(strings.state, StringListState::Navigate);
    }
}

#[test]
fn escape_undoes_edit() {
    let mut strings = strings_of(&["a", "b"]);
    let mut global = Global::new();
    strings.handle_key(KEY_F2, &mut global);
    assert_eq!(strings.state, StringListState::Editing { new: false });
    typed(&mut strings, &mut global, "xyz");
    strings.handle_key(KEY_ESCAPE, &mut global);
    assert_eq!(strings.list.items, vec!["a", "b"]);
}

#[test]
fn return_stores_edit() {
    let mut strings = strings_of(&["a", "\u{e9}b"]);
    let mut global = Global::new();
    strings.handle_key(KEY_S, &mut global);
    strings.handle_key(KEY_F2, &mut global);
    assert_eq!(strings.edit_field.buffer, "\u{e9}b");
    assert_eq!(strings.edit_field.cursor_x, 3);
    typed(&mut strings, &mut global, "!");
    strings.handle_key(KEY_RETURN, &mut global);
    assert_eq!(strings.list.items, vec!["a", "\u{e9}b!"]);
    strings.handle_key(KEY_F2, &mut global);
    strings.handle_key(KEY_RETURN, &mut global);
    assert_eq!(strings.list.items, vec!["a", "\u{e9}b!"]);
}

#[test]
fn global_keys_while_navigating() {
    let mut strings = strings_of(&["a"]);
    let mut global = Global::new();
    strings.handle_key(KEY_TAB, &mut global);
    assert_eq!(global.focus, Focus::Cmds);
    strings.handle_key(KEY_Q, &mut global);
    assert!(global.quit);
    assert_eq!(strings.list.items, vec!["a"]);
}

#[test]
fn keys_on_lines() {
    let mut lines = LineList::new();
    let mut global = Global::new();
    lines.set_lines(vec!["a".to_string(), "b".to_string()]);
    let cmdline = Some(Ok("run".to_string()));
    match lines.handle_key(KEY_RETURN, &cmdline, &mut global) {
        LineAction::Execute(line) => assert_eq!(line, "run"),
        other => panic!("{:?}", other),
    }
    for refused in [None, Some(Err("bad".to_string()))] {
        let action = lines.handle_key(KEY_RETURN, &refused, &mut global);
        assert!(matches!(action, LineAction::Stay));
    }
    assert!(matches!(lines.handle_key(KEY_F5, &cmdline, &mut global), LineAction::Restart));
    assert!(matches!(lines.handle_key(KEY_S, &cmdline, &mut global), LineAction::Stay));
    assert_eq!(lines.current_item(), Some("b"));
    assert!(matches!(lines.handle_key(KEY_Q, &cmdline, &mut global), LineAction::Stay));
    assert!(global.quit);
}

#[test]
fn output_of_a_command() {
    let mut lines = LineList::new();
    lines.set_lines(vec!["old".to_string(), "older".to_string()]);
    lines.list.cursor_y = 1;
    lines.list.cursor_x = 3;
    lines.start_output(4294967295, "make -k");
    assert_eq!(lines.list.items, vec!["PID: 4294967295, Command: make -k"]);
    assert_eq!(lines.list.cursor_y, 0);
    assert_eq!(lines.list.cursor_x, 3);
    assert!(lines.take_output(Some(5), "line\n"));
    assert!(!lines.take_output(Some(0), ""));
    assert!(!lines.take_output(None, "par"));
    lines.end_output(Some(-2));
    lines.end_output(None);
    assert_eq!(
        lines.list.items,
        vec![
            "PID: 4294967295, Command: make -k",
            "line\n",
            "-- Execution Finished with status code: -2 --",
            "-- Execution Terminated by a signal --",
        ]
    );
}

#[test]
fn keys_reach_the_active_pane() {
    let mut session = Session::new(Profile::initial());
    session.line_list.set_lines(vec!["a.c:1: x".to_string(), "b.c:2: y".to_string()]);
    let cmdline = session.update_status();
    assert_eq!(cmdline, Some(Ok("vim +1 a.c".to_string())));
    assert_eq!(session.status_line.text, "vim +1 a.c");
    // Without the profile pane the lines get the keys, whatever has the focus.
    session.handle_key(KEY_DOWN, &cmdline);
    assert_eq!(session.line_list.current_item(), Some("b.c:2: y"));
    session.handle_key(KEY_E, &cmdline);
    assert!(session.global.profile_pane);
    let action = session.handle_key(KEY_RETURN, &cmdline);
    assert!(matches!(action, LineAction::Stay));
    session.handle_key(KEY_TAB, &cmdline);
    session.handle_key(KEY_DOWN, &cmdline);
    assert_eq!(session.profile.cmd_list.list.cursor_y, 1);
    session.handle_key(KEY_TAB, &cmdline);
    let cmdline = session.update_status();
    match session.handle_key(KEY_RETURN, &cmdline) {
        LineAction::Execute(line) => assert_eq!(line, "emacs -nw +2 b.c"),
        other => panic!("{:?}", other),
    }
}

#[test]
fn editing_takes_all_keys() {
    let mut session = Session::new(Profile::initial());
    session.handle_key(KEY_E, &None);
    session.handle_key(KEY_I, &None);
    for c in "eq\t".chars() {
        session.handle_key(c as i32, &None);
    }
    assert!(session.global.profile_pane && !session.global.quit);
    assert_eq!(session.global.focus, Focus::Regexs);
    assert!(session.global.cursor_visible);
    assert_eq!(session.profile.regex_list.edit_field.buffer, "eq");
}

#[test]
fn status_tells_of_the_command_line() {
    let mut session = Session::new(Profile::initial());
    assert_eq!(session.status_line.text, "");
    assert_eq!(session.update_status(), None);
    assert_eq!(session.status_line.text, "No match");
    assert_eq!(session.status_line.status, Status::Info);
    session.profile.regex_list.list.items[0] = "*".to_string();
    let cmdline = session.update_status();
    assert!(matches!(cmdline, Some(Err(_))));
    assert_eq!(session.status_line.status, Status::Error);
    assert_eq!(
        session.status_line.text,
        "PCRE2: error compiling pattern at offset 0: \
         quantifier does not follow a repeatable item"
    );
}
