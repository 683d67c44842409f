use cm::profile::{fill_command, EntryError, Profile, ProfileError};
use cm::regex::{Pattern, Search};
use cm::string_list::StringListState;

fn profile_of(text: &str) -> Profile {
    match Profile::from_text(text) {
        Ok(profile) => profile,
        Err(error) => panic!("{:?}", error),
    }
}

#[test]
fn initial_profile_is_for_compiler_messages() {
    let profile = Profile::initial();
    assert_eq!(profile.regex_list.list.items, vec![r"(\/?\b.*?):(\d+):"]);
    assert_eq!(
        profile.cmd_list.list.items,
        vec!["vim +\\2 \\1", "emacs -nw +\\2 \\1"]
    );
    assert_eq!(profile.regex_list.list.cursor_y, 0);
    assert_eq!(profile.cmd_list.list.cursor_y, 0);
    assert_eq!(profile.regex_list.state, StringListState::Navigate);
}

#[test]
fn new_profile_is_empty() {
    let profile = Profile::new();
    assert!(profile.regex_list.list.items.is_empty());
    assert!(profile.cmd_list.list.items.is_empty());
    assert!(profile.current_regex().is_none());
    assert_eq!(profile.current_command(), None);
    assert_eq!(profile.cmdline(Some("a:1:")), None);
}

#[test]
fn written_profile_text() {
    let mut profile = Profile::initial();
    profile.cmd_list.list.cursor_y = 1;
    assert_eq!(
        profile.to_text(),
        "regexs = (\\/?\\b.*?):(\\d+):\ncmds = vim +\\2 \\1\ncmds = emacs -nw +\\2 \\1\n\
         current_regex = 0\ncurrent_cmd = 1\n"
    );
}

#[test]
fn written_profile_reads_back() {
    let mut profile = Profile::initial();
    profile.regex_list.list.items.push(String::new());
    profile.regex_list.list.items.push("\u{e4}\u{4e16}\t.*".to_string());
    profile.regex_list.list.cursor_y = 2;
    profile.cmd_list.list.cursor_y = 1;
    let read = profile_of(&profile.to_text());
    assert_eq!(read.regex_list.list.items, profile.regex_list.list.items);
    assert_eq!(read.cmd_list.list.items, profile.cmd_list.list.items);
    assert_eq!(read.regex_list.list.cursor_y, 2);
    assert_eq!(read.cmd_list.list.cursor_y, 1);
}

#[test]
fn read_profile_is_written_as_the_same() {
    let read = profile_of("  regexs=  a b \r\n\n\t\ncmds = x = y\ncurrent_cmd = 00\ncmds=z");
    assert_eq!(read.regex_list.list.items, vec!["a b"]);
    assert_eq!(read.cmd_list.list.items, vec!["x", "z"]);
    let again = profile_of(&read.to_text());
    assert_eq!(again.to_text(), read.to_text());
}

#[test]
fn cursors_are_kept_inside() {
    let text = "regexs = a\nregexs = b\ncmds = c\ncurrent_regex = 7\ncurrent_cmd = +0\n";
    let read = profile_of(text);
    assert_eq!(read.regex_list.list.cursor_y, 1);
    assert_eq!(read.cmd_list.list.cursor_y, 0);
    let read = profile_of("regexs = a\ncmds = c\nregexs = b\ncurrent_regex = 1\ncurrent_regex = 0");
    assert_eq!(read.regex_list.list.cursor_y, 0);
}

#[test]
fn value_is_missing() {
    match Profile::from_text("regexs = a\n\n  regexs\n") {
        Err(ProfileError::Line { number, error }) => {
            assert_eq!(number, 3);
            assert!(matches!(error, EntryError::NoValue));
            assert_eq!(
                error.message("/etc/cm.conf", number),
                "/etc/cm.conf:3: Value is not provided"
            );
        }
        other => panic!("{:?}", other),
    }
    match Profile::from_text("foo\n") {
        Err(ProfileError::Line { number: 1, error: EntryError::NoValue }) => {}
        other => panic!("{:?}", other),
    }
}

#[test]
fn cursor_is_no_number() {
    for value in ["", "x", "-1", "+", "1 2", "99999999999999999999999", "\u{661}"] {
        let text = format!("cmds = a\ncurrent_cmd = {}\nfoo = bar", value);
        match Profile::from_text(&text) {
            Err(ProfileError::Line { number, error }) => {
                assert_eq!(number, 2);
                assert_eq!(error.message("p", number), "p:2: Not a number");
            }
            other => panic!("{:?}", other),
        }
    }
    match Profile::from_text("current_regex = one") {
        Err(ProfileError::Line { number: 1, error: EntryError::NotANumber }) => {}
        other => panic!("{:?}", other),
    }
}

#[test]
fn key_is_unknown() {
    match Profile::from_text("regexs = a\n Regexs = a\n") {
        Err(ProfileError::Line { number, error }) => {
            assert_eq!(error.message("cm.conf", number), "cm.conf:2: Unknown key Regexs");
        }
        other => panic!("{:?}", other),
    }
}

#[test]
fn lists_are_empty() {
    assert!(matches!(Profile::from_text(""), Err(ProfileError::NoRegexs)));
    assert!(matches!(Profile::from_text("cmds = a\n"), Err(ProfileError::NoRegexs)));
    assert!(matches!(Profile::from_text("regexs = a\n"), Err(ProfileError::NoCmds)));
}

#[test]
fn pattern_is_refused() {
    let error = Pattern::new("(").unwrap_err();
    assert_eq!(
        error,
        "PCRE2: error compiling pattern at offset 1: missing closing parenthesis"
    );
    assert!(Pattern::new("()").is_ok());
}

#[test]
fn first_match_is_found() {
    let pattern = Pattern::new(r"(\w)(x)?(\d+)").unwrap();
    match pattern.search("-- a12 b34") {
        Search::Found(groups) => {
            assert_eq!(groups, vec![Some((3, 6)), Some((3, 4)), None, Some((4, 6))]);
        }
        other => panic!("{:?}", other),
    }
    assert!(matches!(pattern.search("--"), Search::NoMatch));
    assert!(matches!(pattern.search(""), Search::NoMatch));
}

#[test]
fn search_gives_up() {
    let pattern = Pattern::new("(*LIMIT_MATCH=1)(a+)+[bd]").unwrap();
    assert!(matches!(pattern.search("aaaaaaaaaaaaaaaaaaaaaaaaaac"), Search::Failed));
}

#[test]
fn cmdline_of_compiler_message() {
    let profile = Profile::initial();
    let line = "  --> src/main.rs:12:34: error";
    assert_eq!(
        profile.cmdline(Some(line)),
        Some(Ok("vim +12 src/main.rs".to_string()))
    );
    assert_eq!(profile.cmdline(Some("nothing here")), None);
    assert_eq!(profile.cmdline(None), None);
}

#[test]
fn cmdline_of_second_command() {
    let mut profile = Profile::initial();
    profile.cmd_list.list.cursor_y = 1;
    assert_eq!(
        profile.cmdline(Some("/a/b.c:7: note")),
        Some(Ok("emacs -nw +7 /a/b.c".to_string()))
    );
}

#[test]
fn bad_regex_is_reported() {
    let profile = profile_of("regexs = [\ncmds = a\n");
    match profile.cmdline(None) {
        Some(Err(error)) => assert_eq!(
            error,
            "PCRE2: error compiling pattern at offset 1: \
             missing terminating ] for character class"
        ),
        other => panic!("{:?}", other),
    }
    assert!(matches!(profile.current_regex(), Some(Err(_))));
}

#[test]
fn failed_search_leaves_command() {
    let profile = profile_of("regexs = a\ncmds = run \\1\n");
    assert_eq!(profile.cmdline_from("x", &Search::Failed), Some("run \\1".to_string()));
    assert_eq!(profile.cmdline_from("x", &Search::NoMatch), None);
    let groups = vec![Some((0, 1)), Some((0, 1))];
    assert_eq!(profile.cmdline_from("x", &Search::Found(groups)), Some("run x".to_string()));
}

#[test]
fn groups_are_filled_in_turn() {
    let groups = vec![Some((0, 5)), Some((0, 2)), None, Some((3, 5))];
    assert_eq!(fill_command("\\1 \\2 \\3 \\0 \\1", "ab cd", &groups), "ab \\2 cd \\0 ab");
    // What the first group captured is searched for the second placeholder.
    let groups = vec![Some((0, 3)), Some((0, 2)), Some((2, 3))];
    assert_eq!(fill_command("<\\1>", "\\2x", &groups), "<x>");
    // The first placeholder is also the start of the tenth.
    assert_eq!(fill_command("\\10", "ab", &vec![None, Some((0, 1))]), "a0");
    assert_eq!(fill_command("plain", "ab", &vec![Some((0, 2)), Some((0, 2))]), "plain");
    assert_eq!(fill_command("\\1", "ab", &vec![]), "\\1");
}

#[test]
fn group_inside_a_character_is_empty() {
    // The regex works on bytes, so that a group can end within a character.
    let pattern = Pattern::new("(.)").unwrap();
    match pattern.search("\u{e9}") {
        Search::Found(groups) => {
            assert_eq!(groups[1], Some((0, 1)));
            assert_eq!(fill_command("[\\1]", "\u{e9}", &groups), "[]");
        }
        other => panic!("{:?}", other),
    }
}

#[test]
fn edited_text_is_in_use() {
    let mut profile = Profile::initial();
    profile.regex_list.edit_field.start("(b)");
    profile.regex_list.state = StringListState::Editing { new: false };
    profile.cmd_list.edit_field.start("say \\1");
    profile.cmd_list.state = StringListState::Editing { new: true };
    assert_eq!(profile.current_command(), Some("say \\1".to_string()));
    assert_eq!(profile.cmdline(Some("abc")), Some(Ok("say b".to_string())));
}

#[test]
fn cmdline_through_pattern() {
    let profile = Profile::initial();
    let pattern = Pattern::new("(a)(b)").unwrap();
    assert_eq!(profile.render_cmdline("xab", &pattern), Some("vim +b a".to_string()));
    assert_eq!(profile.render_cmdline("ba", &pattern), None);
}
