//! The regexs and the commands of the user, the file that keeps them, and the
//! command line that they make of a line.
use crate::item_list::Items;
use crate::line_list::{cmdline_view, Cmdline};
use crate::regex::{pcre2_compile_error, pcre2_first_match, Pattern, Search, Span};
use crate::string_list::{StringList, Strings};
use crate::text::{
    byte_slice, decimal, find, law_replace_absent, law_replace_once, lines, lines_of, parse_usize, push_decimal, read_usize, replace,
    replaced, slice_of, split_once, texts, trim, trim_start, without_leading_space,
    without_outer_space,
};
use vstd::prelude::*;
use vstd::string::StringExecFns;

verus! {

/// The regexs and the commands.
#[derive(Debug)]
pub struct Profile {
    pub regex_list: StringList,
    pub cmd_list: StringList,
}

/// The model of a [`Profile`].
#[verifier::ext_equal]
pub struct Kept {
    pub regexs: Strings,
    pub cmds: Strings,
}

/// What is wrong with a line of a profile.
#[derive(Debug)]
pub enum EntryError {
    /// The line holds no equals sign.
    NoValue,
    /// The value of a cursor is no number.
    NotANumber,
    /// No such key is known.
    UnknownKey(String),
}

/// Why a text is not a profile.
#[derive(Debug)]
pub enum ProfileError {
    /// The first line that is wrong. Lines are counted from 1.
    Line { number: usize, error: EntryError },
    /// There is no regex that the cursor could be on.
    NoRegexs,
    /// There is no command that the cursor could be on.
    NoCmds,
}

/// What a line of a profile says.
pub enum Entry {
    Blank,
    Regex(Seq<char>),
    Cmd(Seq<char>),
    CurrentRegex(usize),
    CurrentCmd(usize),
}

/// The model of an [`EntryError`].
pub enum Fault {
    NoValue,
    NotANumber,
    UnknownKey(Seq<char>),
}

/// The model of a [`ProfileError`].
pub enum Refusal {
    Line { number: int, fault: Fault },
    NoRegexs,
    NoCmds,
}

impl View for EntryError {
    type V = Fault;

    open spec fn view(&self) -> Fault {
        match self {
            EntryError::NoValue => Fault::NoValue,
            EntryError::NotANumber => Fault::NotANumber,
            EntryError::UnknownKey(key) => Fault::UnknownKey(key@),
        }
    }
}

impl View for ProfileError {
    type V = Refusal;

    open spec fn view(&self) -> Refusal {
        match self {
            ProfileError::Line { number, error } => Refusal::Line {
                number: *number as int,
                fault: error@,
            },
            ProfileError::NoRegexs => Refusal::NoRegexs,
            ProfileError::NoCmds => Refusal::NoCmds,
        }
    }
}

/// What stands before the first equals sign of a line.
pub open spec fn entry_key(line: Seq<char>) -> Seq<char> {
    trim(line.take(find(line, '=')))
}

/// What stands between the first equals sign of a line and the next one, or
/// the end.
pub open spec fn entry_value(line: Seq<char>) -> Seq<char> {
    let rest = line.skip(find(line, '=') + 1);
    trim(rest.take(find(rest, '=')))
}

/// What a line of a profile says, or what is wrong with it.
pub open spec fn read_entry(line: Seq<char>) -> Result<Entry, Fault> {
    let line = trim_start(line);
    let key = entry_key(line);
    let value = entry_value(line);
    if line.len() == 0 {
        Ok(Entry::Blank)
    } else if find(line, '=') == line.len() {
        Err(Fault::NoValue)
    } else if key == "regexs"@ {
        Ok(Entry::Regex(value))
    } else if key == "cmds"@ {
        Ok(Entry::Cmd(value))
    } else if key == "current_regex"@ {
        match read_usize(value) {
            Some(n) => Ok(Entry::CurrentRegex(n)),
            None => Err(Fault::NotANumber),
        }
    } else if key == "current_cmd"@ {
        match read_usize(value) {
            Some(n) => Ok(Entry::CurrentCmd(n)),
            None => Err(Fault::NotANumber),
        }
    } else {
        Err(Fault::UnknownKey(key))
    }
}

/// A list with `item` at its end.
pub open spec fn with_item(strings: Strings, item: Seq<char>) -> Strings {
    Strings { list: Items { items: strings.list.items.push(item), ..strings.list }, ..strings }
}

/// A list with the cursor on the `n`th item.
pub open spec fn with_cursor(strings: Strings, n: int) -> Strings {
    Strings { list: Items { cursor_y: n, ..strings.list }, ..strings }
}

/// A list with the cursor on the last item if it is behind that.
pub open spec fn with_cursor_inside(strings: Strings) -> Strings {
    if strings.list.cursor_y > strings.list.items.len() - 1 {
        with_cursor(strings, strings.list.items.len() - 1)
    } else {
        strings
    }
}

impl Kept {
    /// Both lists are in order.
    pub open spec fn wf(self) -> bool {
        self.regexs.wf() && self.cmds.wf()
    }

    /// A profile without regexs and commands.
    pub open spec fn empty() -> Kept {
        Kept { regexs: Strings::empty(), cmds: Strings::empty() }
    }

    /// The profile with what a line says.
    pub open spec fn with_entry(self, entry: Entry) -> Kept {
        match entry {
            Entry::Blank => self,
            Entry::Regex(item) => Kept { regexs: with_item(self.regexs, item), ..self },
            Entry::Cmd(item) => Kept { cmds: with_item(self.cmds, item), ..self },
            Entry::CurrentRegex(n) => Kept { regexs: with_cursor(self.regexs, n as int), ..self },
            Entry::CurrentCmd(n) => Kept { cmds: with_cursor(self.cmds, n as int), ..self },
        }
    }
}

/// What the lines of a profile say together, or the first line that is wrong.
pub open spec fn read_entries(lines: Seq<Seq<char>>) -> Result<Kept, Refusal>
    decreases lines.len(),
{
    if lines.len() == 0 {
        Ok(Kept::empty())
    } else {
        match read_entries(lines.drop_last()) {
            Ok(kept) => match read_entry(lines.last()) {
                Ok(entry) => Ok(kept.with_entry(entry)),
                Err(fault) => Err(Refusal::Line { number: lines.len() as int, fault }),
            },
            Err(refusal) => Err(refusal),
        }
    }
}

/// The profile that a text holds, or why it holds none.
pub open spec fn read_profile(text: Seq<char>) -> Result<Kept, Refusal> {
    match read_entries(lines(text)) {
        Ok(kept) => if kept.regexs.list.items.len() == 0 {
            Err(Refusal::NoRegexs)
        } else if kept.cmds.list.items.len() == 0 {
            Err(Refusal::NoCmds)
        } else {
            Ok(
                Kept {
                    regexs: with_cursor_inside(kept.regexs),
                    cmds: with_cursor_inside(kept.cmds),
                },
            )
        },
        Err(refusal) => Err(refusal),
    }
}

/// A line of a profile.
pub open spec fn entry_text(key: Seq<char>, value: Seq<char>) -> Seq<char> {
    key + " = "@ + value + "\n"@
}

/// A line of a profile for each item.
pub open spec fn items_text(key: Seq<char>, items: Seq<Seq<char>>) -> Seq<char>
    decreases items.len(),
{
    if items.len() == 0 {
        Seq::empty()
    } else {
        items_text(key, items.drop_last()) + entry_text(key, items.last())
    }
}

/// The text that keeps a profile.
pub open spec fn profile_text(kept: Kept) -> Seq<char> {
    items_text("regexs"@, kept.regexs.list.items) + items_text("cmds"@, kept.cmds.list.items)
        + entry_text("current_regex"@, decimal(kept.regexs.list.cursor_y as nat)) + entry_text(
        "current_cmd"@,
        decimal(kept.cmds.list.cursor_y as nat),
    )
}

/// The report of an error on a line of the file at `path`.
pub open spec fn report(path: Seq<char>, number: int, fault: Fault) -> Seq<char> {
    path + ":"@ + decimal(number as nat) + ": "@ + match fault {
        Fault::NoValue => "Value is not provided"@,
        Fault::NotANumber => "Not a number"@,
        Fault::UnknownKey(key) => "Unknown key "@ + key,
    }
}

/// What PCRE2 says of the source of a regex: the source itself if it is
/// accepted, or else the error.
pub open spec fn compiled(source: Option<Seq<char>>) -> Cmdline {
    match source {
        Some(source) => match pcre2_compile_error(source) {
            None => Some(Ok(source)),
            Some(error) => Some(Err(error)),
        },
        None => None,
    }
}

/// The model of a regex.
pub open spec fn regex_view(regex: Option<Result<Pattern, String>>) -> Cmdline {
    match regex {
        Some(Ok(pattern)) => Some(Ok(pattern@)),
        Some(Err(error)) => Some(Err(error@)),
        None => None,
    }
}

/// What stands in a command for what the `i`th group captured.
pub open spec fn placeholder(i: int) -> Seq<char> {
    seq!['\\'] + decimal(i as nat)
}

/// The command with the placeholders of the groups before the `n`th filled
/// in, one group after the other. That of a group that took no part in the
/// match stays.
pub open spec fn filled(
    cmd: Seq<char>,
    line: Seq<char>,
    groups: Seq<Option<Span>>,
    n: int,
) -> Seq<char>
    decreases n,
{
    if n <= 1 {
        cmd
    } else {
        match groups[n - 1] {
            Some(span) => replace(
                filled(cmd, line, groups, n - 1),
                placeholder(n - 1),
                byte_slice(line, span.0 as int, span.1 as int),
            ),
            None => filled(cmd, line, groups, n - 1),
        }
    }
}

/// The command line that a command makes of what a search captured. There is
/// none without a match. Where the search failed the command stays as it is.
pub open spec fn cmdline_of(
    cmd: Option<Seq<char>>,
    line: Seq<char>,
    search: Option<Option<Seq<Option<Span>>>>,
) -> Option<Seq<char>> {
    match cmd {
        Some(cmd) => match search {
            Some(Some(groups)) => Some(filled(cmd, line, groups, groups.len() as int)),
            Some(None) => None,
            None => Some(cmd),
        },
        None => None,
    }
}

/// The command line that a profile makes of the selected line.
pub open spec fn profile_cmdline(kept: Kept, item: Option<Seq<char>>) -> Cmdline {
    match compiled(kept.regexs.chosen()) {
        Some(Ok(pattern)) => match item {
            Some(line) => match cmdline_of(
                kept.cmds.chosen(),
                line,
                pcre2_first_match(pattern, line),
            ) {
                Some(cmdline) => Some(Ok(cmdline)),
                None => None,
            },
            None => None,
        },
        Some(Err(error)) => Some(Err(error)),
        None => None,
    }
}

impl View for Profile {
    type V = Kept;

    open spec fn view(&self) -> Kept {
        Kept { regexs: self.regex_list@, cmds: self.cmd_list@ }
    }
}

impl EntryError {
    /// The report of this error on a line of the file at `path`.
    pub fn message(&self, path: &str, number: usize) -> (text: String)
        ensures
            text@ == report(path@, number as int, self@),
    {
        let mut text = path.to_owned();
        text.append(":");
        push_decimal(&mut text, number as u64);
        text.append(": ");
        match self {
            EntryError::NoValue => text.append("Value is not provided"),
            EntryError::NotANumber => text.append("Not a number"),
            EntryError::UnknownKey(key) => {
                let ghost before = text@;
                text.append("Unknown key ");
                text.append(key.as_str());
                assert(text@ == before + ("Unknown key "@ + key@));
            },
        }
        text
    }
}

/// Appends a line of a profile.
fn push_entry(text: &mut String, key: &str, value: &str)
    ensures
        final(text)@ == old(text)@ + entry_text(key@, value@),
{
    text.append(key);
    text.append(" = ");
    text.append(value);
    text.append("\n");
    assert(text@ == old(text)@ + entry_text(key@, value@));
}

/// Appends a line of a profile for each item.
fn push_entries(text: &mut String, key: &str, items: &Vec<String>)
    ensures
        final(text)@ == old(text)@ + items_text(key@, texts(items@)),
{
    let ghost all = texts(items@);
    let mut i: usize = 0;
    assert(text@ == old(text)@ + items_text(key@, all.take(0)));
    while i < items.len()
        invariant
            i <= items@.len(),
            all == texts(items@),
            text@ == old(text)@ + items_text(key@, all.take(i as int)),
        decreases items@.len() - i,
    {
        push_entry(text, key, items[i].as_str());
        assert(all.take(i + 1).drop_last() == all.take(i as int));
        assert(all.take(i + 1).last() == items@[i as int]@);
        i = i + 1;
        assert(text@ == old(text)@ + items_text(key@, all.take(i as int)));
    }
    assert(all.take(all.len() as int) == all);
}

/// Fills what the groups captured of `line` into a command.
pub fn fill_command(cmd: &str, line: &str, groups: &Vec<Option<Span>>) -> (cmdline: String)
    ensures
        cmdline@ == filled(cmd@, line@, groups@, groups@.len() as int),
{
    let mut cmdline = cmd.to_owned();
    let mut i: usize = 1;
    while i < groups.len()
        invariant
            1 <= i,
            i <= groups@.len() || i == 1,
            cmdline@ == filled(cmd@, line@, groups@, i as int),
        decreases groups@.len() - i,
    {
        if let Some(span) = groups[i] {
            let mut mark = "\\".to_owned();
            push_decimal(&mut mark, i as u64);
            proof {
                reveal_strlit("\\");
                assert("\\"@ == seq!['\\']);
                assert(mark@ == placeholder(i as int));
            }
            let part = slice_of(line, span.0, span.1);
            cmdline = replaced(cmdline.as_str(), mark.as_str(), part.as_str());
            assert(groups@[i as int] == Some(span));
        }
        i = i + 1;
    }
    cmdline
}

impl Profile {
    /// Both lists are in order.
    pub open spec fn wf(self) -> bool {
        self.regex_list.wf() && self.cmd_list.wf()
    }

    /// A profile without regexs and commands.
    pub fn new() -> (profile: Profile)
        ensures
            profile.wf(),
            profile@ == Kept::empty(),
    {
        Profile { regex_list: StringList::new(), cmd_list: StringList::new() }
    }

    /// Takes what a line of a profile says.
    pub fn read_line(&mut self, line: &str) -> (result: Result<(), EntryError>)
        ensures
            match result {
                Ok(_) => read_entry(line@) matches Ok(entry)
                    && final(self)@ == old(self)@.with_entry(entry),
                Err(error) => read_entry(line@) == Err::<Entry, Fault>(error@)
                    && final(self)@ == old(self)@,
            },
            final(self).regex_list.edit_field == old(self).regex_list.edit_field,
            final(self).cmd_list.edit_field == old(self).cmd_list.edit_field,
    {
        let line = without_leading_space(line);
        if line.as_str().is_empty() {
            return Ok(());
        }
        let (first, rest) = split_once(line.as_str(), '=');
        let key = without_outer_space(first.as_str());
        let value = match rest {
            Some(rest) => {
                let (second, _) = split_once(rest.as_str(), '=');
                without_outer_space(second.as_str())
            },
            None => {
                return Err(EntryError::NoValue);
            },
        };
        if key == "regexs".to_owned() {
            self.regex_list.list.push(value);
        } else if key == "cmds".to_owned() {
            self.cmd_list.list.push(value);
        } else if key == "current_regex".to_owned() {
            match parse_usize(value.as_str()) {
                Some(n) => {
                    self.regex_list.list.cursor_y = n;
                },
                None => {
                    return Err(EntryError::NotANumber);
                },
            }
        } else if key == "current_cmd".to_owned() {
            match parse_usize(value.as_str()) {
                Some(n) => {
                    self.cmd_list.list.cursor_y = n;
                },
                None => {
                    return Err(EntryError::NotANumber);
                },
            }
        } else {
            return Err(EntryError::UnknownKey(key));
        }
        Ok(())
    }

    /// The profile that `text` holds.
    pub fn from_text(text: &str) -> (result: Result<Profile, ProfileError>)
        ensures
            match result {
                Ok(profile) => read_profile(text@) == Ok::<Kept, Refusal>(profile@)
                    && profile.wf() && !profile@.regexs.editing() && !profile@.cmds.editing(),
                Err(error) => read_profile(text@) == Err::<Kept, Refusal>(error@),
            },
    {
        let mut profile = Profile::new();
        let list = lines_of(text);
        let ghost all = lines(text@);
        let mut i: usize = 0;
        assert(read_entries(all.take(0)) == Ok::<Kept, Refusal>(Kept::empty()));
        while i < list.len()
            invariant
                i <= list@.len(),
                all == texts(list@),
                read_entries(all.take(i as int)) == Ok::<Kept, Refusal>(profile@),
                all == lines(text@),
                profile.regex_list.edit_field.wf(),
                profile.cmd_list.edit_field.wf(),
                !profile@.regexs.editing(),
                !profile@.cmds.editing(),
                profile@.regexs.list.cursor_y >= 0,
                profile@.cmds.list.cursor_y >= 0,
            decreases list@.len() - i,
        {
            let ghost before = profile@;
            assert(all.take(i + 1).drop_last() == all.take(i as int));
            assert(all.take(i + 1).last() == list@[i as int]@);
            match profile.read_line(list[i].as_str()) {
                Ok(_) => {},
                Err(error) => {
                    proof {
                        lemma_first_refusal(all, i + 1);
                    }
                    return Err(ProfileError::Line { number: i + 1, error });
                },
            }
            i = i + 1;
        }
        assert(all.take(all.len() as int) == all);
        let regexs: usize = profile.regex_list.list.items.len();
        let cmds: usize = profile.cmd_list.list.items.len();
        if regexs == 0 {
            return Err(ProfileError::NoRegexs);
        }
        if cmds == 0 {
            return Err(ProfileError::NoCmds);
        }
        if profile.regex_list.list.cursor_y > regexs - 1 {
            profile.regex_list.list.cursor_y = regexs - 1;
        }
        if profile.cmd_list.list.cursor_y > cmds - 1 {
            profile.cmd_list.list.cursor_y = cmds - 1;
        }
        Ok(profile)
    }

    /// The text that keeps this profile.
    pub fn to_text(&self) -> (text: String)
        ensures
            text@ == profile_text(self@),
    {
        let mut text = String::new();
        push_entries(&mut text, "regexs", &self.regex_list.list.items);
        push_entries(&mut text, "cmds", &self.cmd_list.list.items);
        let mut cursor = String::new();
        push_decimal(&mut cursor, self.regex_list.list.cursor_y as u64);
        assert(cursor@ == decimal(self.regex_list.list.cursor_y as nat));
        push_entry(&mut text, "current_regex", cursor.as_str());
        let mut cursor = String::new();
        push_decimal(&mut cursor, self.cmd_list.list.cursor_y as u64);
        assert(cursor@ == decimal(self.cmd_list.list.cursor_y as nat));
        push_entry(&mut text, "current_cmd", cursor.as_str());
        assert(text@ == profile_text(self@));
        text
    }

    /// The regex in use: the one being edited, or else the selected one.
    pub fn current_regex(&self) -> (regex: Option<Result<Pattern, String>>)
        requires
            self.wf(),
        ensures
            regex_view(regex) == compiled(self@.regexs.chosen()),
    {
        match self.regex_list.chosen() {
            Some(source) => Some(Pattern::new(source)),
            None => None,
        }
    }

    /// The command in use: the one being edited, or else the selected one.
    pub fn current_command(&self) -> (command: Option<String>)
        requires
            self.wf(),
        ensures
            match command {
                Some(text) => self@.cmds.chosen() == Some(text@),
                None => self@.cmds.chosen() is None,
            },
    {
        match self.cmd_list.chosen() {
            Some(command) => Some(command.to_owned()),
            None => None,
        }
    }

    /// The command line that the command in use makes of what a search of
    /// `line` captured.
    pub fn cmdline_from(&self, line: &str, search: &Search) -> (cmdline: Option<String>)
        requires
            self.wf(),
        ensures
            match cmdline {
                Some(text) => cmdline_of(self@.cmds.chosen(), line@, search@) == Some(text@),
                None => cmdline_of(self@.cmds.chosen(), line@, search@) is None,
            },
    {
        match self.current_command() {
            Some(command) => match search {
                Search::Found(groups) => Some(fill_command(command.as_str(), line, groups)),
                Search::NoMatch => None,
                Search::Failed => Some(command),
            },
            None => None,
        }
    }

    /// The command line that the command in use makes of `line`.
    pub fn render_cmdline(&self, line: &str, regex: &Pattern) -> (cmdline: Option<String>)
        requires
            self.wf(),
        ensures
            match cmdline {
                Some(text) => cmdline_of(
                    self@.cmds.chosen(),
                    line@,
                    pcre2_first_match(regex@, line@),
                ) == Some(text@),
                None => cmdline_of(
                    self@.cmds.chosen(),
                    line@,
                    pcre2_first_match(regex@, line@),
                ) is None,
            },
    {
        let search = regex.search(line);
        self.cmdline_from(line, &search)
    }

    /// The command line that this profile makes of the selected line.
    pub fn cmdline(&self, item: Option<&str>) -> (cmdline: Option<Result<String, String>>)
        requires
            self.wf(),
        ensures
            cmdline_view(cmdline) == profile_cmdline(
                self@,
                match item {
                    Some(line) => Some(line@),
                    None => None,
                },
            ),
    {
        match self.current_regex() {
            Some(Ok(regex)) => match item {
                Some(line) => match self.render_cmdline(line, &regex) {
                    Some(cmdline) => Some(Ok(cmdline)),
                    None => None,
                },
                None => None,
            },
            Some(Err(error)) => Some(Err(error)),
            None => None,
        }
    }

    /// The profile of a user who has not made one yet.
    pub fn initial() -> (profile: Profile)
        ensures
            profile.wf(),
            profile@ == initial_profile(),
    {
        let mut profile = Profile::new();
        profile.regex_list.list.push("(\\/?\\b.*?):(\\d+):".to_owned());
        profile.cmd_list.list.push("vim +\\2 \\1".to_owned());
        profile.cmd_list.list.push("emacs -nw +\\2 \\1".to_owned());
        proof {
            assert(Seq::<Seq<char>>::empty().push("vim +\\2 \\1"@).push("emacs -nw +\\2 \\1"@)
                == seq!["vim +\\2 \\1"@, "emacs -nw +\\2 \\1"@]);
        }
        profile
    }
}

/// A regex for the places that compilers report, and the editors to go there.
pub open spec fn initial_profile() -> Kept {
    Kept {
        regexs: Strings {
            list: Items {
                items: seq!["(\\/?\\b.*?):(\\d+):"@],
                cursor_x: 0,
                cursor_y: 0,
            },
            ..Strings::empty()
        },
        cmds: Strings {
            list: Items {
                items: seq!["vim +\\2 \\1"@, "emacs -nw +\\2 \\1"@],
                cursor_x: 0,
                cursor_y: 0,
            },
            ..Strings::empty()
        },
    }
}

/// A refusal of the first lines is one of them all.
pub proof fn lemma_first_refusal(lines: Seq<Seq<char>>, n: int)
    requires
        0 <= n <= lines.len(),
        read_entries(lines.take(n)) is Err,
    ensures
        read_entries(lines) == read_entries(lines.take(n)),
    decreases lines.len(),
{
    if n < lines.len() {
        assert(lines.drop_last().take(n) == lines.take(n));
        lemma_first_refusal(lines.drop_last(), n);
    } else {
        assert(lines.take(n) == lines);
    }
}

/// A command without a backslash is run as it stands.
pub proof fn law_command_without_placeholders(
    cmd: Seq<char>,
    line: Seq<char>,
    groups: Seq<Option<Span>>,
    n: int,
)
    requires
        !cmd.contains('\\'),
    ensures
        filled(cmd, line, groups, n) == cmd,
    decreases n,
{
    if n > 1 {
        law_command_without_placeholders(cmd, line, groups, n - 1);
        if let Some(span) = groups[n - 1] {
            law_replace_absent(
                cmd,
                placeholder(n - 1),
                byte_slice(line, span.0 as int, span.1 as int),
            );
        }
    }
}

/// The placeholder of the only group gives way to what the group captured,
/// and the rest of the command stays.
pub proof fn law_placeholder_gives_way(
    before: Seq<char>,
    after: Seq<char>,
    line: Seq<char>,
    whole: Option<Span>,
    span: Span,
)
    requires
        !before.contains('\\'),
        !after.contains('\\'),
    ensures
        filled(before + placeholder(1) + after, line, seq![whole, Some(span)], 2) == before
            + byte_slice(line, span.0 as int, span.1 as int) + after,
{
    let cmd = before + placeholder(1) + after;
    let groups = seq![whole, Some(span)];
    reveal_with_fuel(filled, 3);
    assert(groups[1] == Some(span));
    law_replace_once(
        before,
        after,
        placeholder(1),
        byte_slice(line, span.0 as int, span.1 as int),
    );
}

/// A regex that is not accepted gives its error, and never a command line,
/// whatever is selected.
pub proof fn law_bad_regex_is_reported(kept: Kept, item: Option<Seq<char>>)
    requires
        kept.regexs.chosen() matches Some(source) && pcre2_compile_error(source) is Some,
    ensures
        profile_cmdline(kept, item) == Some(
            Err::<Seq<char>, Seq<char>>(
                pcre2_compile_error(kept.regexs.chosen()->Some_0)->Some_0,
            ),
        ),
{
}

/// Where the regex does not match the line there is no command line.
pub proof fn law_no_match_no_cmdline(kept: Kept, line: Seq<char>)
    requires
        kept.regexs.chosen() matches Some(source) && pcre2_compile_error(source) is None
            && pcre2_first_match(source, line) == Some(None::<Seq<Option<Span>>>),
    ensures
        profile_cmdline(kept, Some(line)) is None,
{
}

} // verus!
