use cm::edit_field::EditField;
use cm::item_list::{page_start, ItemList};
use cm::keys::{KEY_E, KEY_F2, KEY_TAB};
use cm::line_list::LineList;
use cm::profile::Profile;
use cm::regex::{Pattern, Search};
use cm::screen::{Draw, Rect, Style};
use cm::session::Session;
use cm::status_line::{Status, StatusLine};

fn seen(draws: &[Draw]) -> Vec<(usize, usize, Style, &str)> {
    draws.iter().map(|d| (d.y, d.x, d.style, d.text.as_str())).collect()
}

fn list_of(items: &[&str]) -> ItemList {
    let mut list = ItemList::new();
    for item in items {
        list.push(item.to_string());
    }
    list
}

#[test]
fn pages() {
    assert_eq!(page_start(0, 3), 0);
    assert_eq!(page_start(2, 3), 0);
    assert_eq!(page_start(3, 3), 3);
    assert_eq!(page_start(7, 3), 6);
}

#[test]
fn list_is_shown_by_pages() {
    let mut list = list_of(&["zero", "one  \n", "two", "three", "four"]);
    let rect = Rect { x: 4, y: 2, w: 3, h: 3 };
    assert_eq!(
        seen(&list.render(rect, true)),
        vec![
            (2, 4, Style::Cursor, "zer"),
            (3, 4, Style::Regular, "one"),
            (4, 4, Style::Regular, "two"),
        ]
    );
    list.cursor_y = 4;
    list.cursor_x = 1;
    assert_eq!(
        seen(&list.render(rect, false)),
        vec![(2, 4, Style::Regular, "hre"), (3, 4, Style::UnfocusedCursor, "our")]
    );
    assert_eq!(list.current_row(rect), Rect { x: 4, y: 3, w: 3, h: 1 });
    assert!(list.render(Rect { x: 0, y: 0, w: 9, h: 0 }, true).is_empty());
    list.cursor_x = 9;
    assert_eq!(list.render(rect, false)[0].text, "");
    assert!(ItemList::new().render(rect, true).is_empty());
}

#[test]
fn captures_are_marked() {
    let mut lines = LineList::new();
    lines.list = list_of(&["ab12cd", "xy", "7ef"]);
    lines.list.cursor_y = 2;
    let rect = Rect { x: 1, y: 5, w: 20, h: 3 };
    let regex = Some(Pattern::new(r"(\d+)(\w)"));
    let draws = lines.render(rect, true, &regex);
    assert_eq!(
        seen(&draws),
        vec![
            (5, 1, Style::Regular, "ab12cd"),
            (6, 1, Style::Regular, "xy"),
            (7, 1, Style::Cursor, "7ef"),
            (5, 3, Style::Match, "12"),
            (5, 5, Style::Match, "c"),
            (7, 1, Style::MatchCursor, "7"),
            (7, 2, Style::MatchCursor, "e"),
        ]
    );
    let draws = lines.render(rect, false, &regex);
    assert_eq!(draws[6].style, Style::UnfocusedMatchCursor);
    assert_eq!(lines.render(rect, true, &None).len(), 3);
    assert_eq!(lines.render(rect, true, &Some(Err("bad".to_string()))).len(), 3);
}

#[test]
fn marks_are_clipped() {
    let mut lines = LineList::new();
    lines.list = list_of(&["0123456789"]);
    lines.list.cursor_x = 3;
    let rect = Rect { x: 10, y: 0, w: 4, h: 1 };
    let groups = vec![
        Some((0, 10)),
        Some((1, 5)),
        Some((5, 9)),
        None,
        Some((3, 3)),
        Some((7, 7)),
        Some((0, 2)),
        Some((8, 9)),
    ];
    let draws = lines.mark_line(rect, Style::Match, 0, "0123456789", &Search::Found(groups));
    assert_eq!(
        seen(&draws),
        vec![
            (0, 10, Style::Match, "34"),
            (0, 12, Style::Match, "56"),
            (0, 10, Style::Match, ""),
            (0, 15, Style::Match, ""),
        ]
    );
    assert!(lines.mark_line(rect, Style::Match, 0, "x", &Search::NoMatch).is_empty());
    assert!(lines.mark_line(rect, Style::Match, 0, "x", &Search::Failed).is_empty());
}

#[test]
fn whole_match_is_not_marked() {
    let mut lines = LineList::new();
    lines.list = list_of(&["abc"]);
    let rect = Rect { x: 0, y: 0, w: 9, h: 1 };
    let pattern = Pattern::new("b").unwrap();
    assert!(lines.mark_lines(rect, true, &pattern).is_empty());
}

#[test]
fn field_is_shown_by_pages() {
    let mut field = EditField::new();
    field.start("abcdef");
    let row = Rect { x: 2, y: 3, w: 4, h: 1 };
    let draw = field.render(row);
    assert_eq!((draw.y, draw.x, draw.style), (3, 2, Style::Regular));
    assert_eq!(draw.text, "ef  ");
    field.cursor_x = 0;
    assert_eq!(field.render(row).text, "abcd");
}

#[test]
fn status_line_is_shown() {
    let mut line = StatusLine::new();
    assert_eq!(line.status, Status::Info);
    line.update(&Some(Err("bad".to_string())));
    let draw = line.render(9);
    assert_eq!((draw.y, draw.x, draw.style), (9, 0, Style::StatusError));
    assert_eq!(draw.text, "bad");
    line.update(&None);
    let draw = line.render(0);
    assert_eq!(draw.style, Style::Regular);
    assert_eq!(draw.text, "No match");
}

#[test]
fn screen_without_profile_pane() {
    let mut session = Session::new(Profile::initial());
    session.line_list.set_lines(vec!["a.c:5:x".to_string()]);
    session.update_status();
    assert!(session.fits(10, 4));
    let draws = session.render(10, 4);
    assert_eq!(
        seen(&draws),
        vec![
            (3, 0, Style::Regular, "vim +5 a.c"),
            (0, 0, Style::Cursor, "a.c:5:x"),
            (0, 0, Style::MatchCursor, "a.c"),
            (0, 4, Style::MatchCursor, "5"),
        ]
    );
}

#[test]
fn screen_with_profile_pane() {
    let mut session = Session::new(Profile::initial());
    session.line_list.set_lines(vec!["a.c:5:x".to_string()]);
    session.handle_key(KEY_E, &None);
    session.update_status();
    let draws = session.render(10, 8);
    assert_eq!(
        seen(&draws),
        vec![
            (7, 0, Style::Regular, "vim +5 a.c"),
            (0, 0, Style::UnfocusedCursor, "a.c:5:x"),
            (0, 0, Style::UnfocusedMatchCursor, "a.c"),
            (0, 4, Style::UnfocusedMatchCursor, "5"),
            (4, 0, Style::Cursor, "(\\/?\\"),
            (4, 5, Style::UnfocusedCursor, "vim +"),
            (5, 5, Style::Regular, "emacs"),
        ]
    );
}

#[test]
fn text_cursor_is_in_the_field() {
    let mut session = Session::new(Profile::initial());
    session.handle_key(KEY_E, &None);
    session.handle_key(KEY_TAB, &None);
    session.handle_key(KEY_F2, &None);
    assert!(session.global.cursor_visible);
    assert!(!session.fits(10, 1));
    assert!(!session.fits(0, 8));
    assert!(session.fits(1, 2));
    let draws = session.render(10, 8);
    let last = &draws[draws.len() - 1];
    // "vim +\2 \1" has ten bytes, so that the cursor is on the third page.
    assert_eq!((last.y, last.x, last.text.as_str()), (4, 5, "     "));
    assert_eq!((session.global.cursor_y, session.global.cursor_x), (4, 5));
}

#[test]
fn screens_that_are_too_small() {
    let mut session = Session::new(Profile::initial());
    assert!(!session.fits(80, 0));
    assert!(session.fits(80, 1));
    session.handle_key(KEY_E, &None);
    session.handle_key(KEY_F2, &None);
    assert!(!session.fits(1, 24));
    assert!(session.fits(2, 2));
    session.line_list.list.cursor_x = usize::MAX;
    assert!(!session.fits(2, 2));
}
