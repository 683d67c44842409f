//! The lines to pick from.
use crate::global::{is_global_key, Global};
use crate::item_list::{page_start, page_top, ItemList, Items};
use crate::keys::{KEY_F5, KEY_RETURN};
use crate::regex::{pcre2_first_match, spans_within, Pattern, Search, Span};
use crate::screen::{append, drawn, lemma_drawn_push, Draw, Drawn, Rect, Style};
use crate::text::{
    byte_len, byte_slice, decimal, integer, lemma_byte_slice_len, push_decimal, push_integer, slice_of, texts,
};
use vstd::prelude::*;
use vstd::string::StringExecFns;

verus! {

/// The lines and the cursor on them.
#[derive(Debug)]
pub struct LineList {
    pub list: ItemList,
}

/// What is left to do outside after a key.
#[derive(Debug)]
pub enum LineAction {
    Stay,
    /// Run this command line.
    Execute(String),
    /// Run the command that produces the lines again.
    Restart,
}

/// The model of a [`LineAction`].
pub enum Acted {
    Stay,
    Execute(Seq<char>),
    Restart,
}

impl View for LineAction {
    type V = Acted;

    open spec fn view(&self) -> Acted {
        match self {
            LineAction::Stay => Acted::Stay,
            LineAction::Execute(cmdline) => Acted::Execute(cmdline@),
            LineAction::Restart => Acted::Restart,
        }
    }
}

/// The model of a command line: none if there is no match, an error if the
/// regex is not accepted.
pub type Cmdline = Option<Result<Seq<char>, Seq<char>>>;

/// The model of `cmdline`.
pub open spec fn cmdline_view(cmdline: Option<Result<String, String>>) -> Cmdline {
    match cmdline {
        Some(Ok(line)) => Some(Ok(line@)),
        Some(Err(error)) => Some(Err(error@)),
        None => None,
    }
}

/// What is left to do outside after `key`.
pub open spec fn action_for(key: i32, cmdline: Cmdline) -> Acted {
    if is_global_key(key) {
        Acted::Stay
    } else if key == KEY_RETURN {
        match cmdline {
            Some(Ok(line)) => Acted::Execute(line),
            _ => Acted::Stay,
        }
    } else if key == KEY_F5 {
        Acted::Restart
    } else {
        Acted::Stay
    }
}

/// The lines after `key`.
pub open spec fn lines_after_key(lines: Items, key: i32) -> Items {
    if is_global_key(key) || key == KEY_RETURN || key == KEY_F5 {
        lines
    } else {
        lines.after_key(key)
    }
}

/// How a captured part looks.
pub open spec fn match_style(selected: bool, focused: bool) -> Style {
    if !selected {
        Style::Match
    } else if focused {
        Style::MatchCursor
    } else {
        Style::UnfocusedMatchCursor
    }
}

/// The piece of text that marks what one group captured on the `i`th row of
/// `rect`, clipped to the columns that are seen. Where the group lies outside
/// these the piece is empty, and there is none at all where nothing is left
/// between the two ends.
pub open spec fn group_mark(
    cursor_x: int,
    rect: Rect,
    style: Style,
    i: int,
    line: Seq<char>,
    group: Option<Span>,
) -> Seq<Drawn> {
    match group {
        Some(span) => {
            let start = if span.0 > cursor_x {
                span.0 as int
            } else {
                cursor_x
            };
            let end = if span.1 < cursor_x + rect.w {
                span.1 as int
            } else {
                cursor_x + rect.w
            };
            if start != end {
                seq![
                    Drawn {
                        y: rect.y + i,
                        x: start - cursor_x + rect.x,
                        style,
                        text: byte_slice(line, start, end),
                    },
                ]
            } else {
                Seq::empty()
            }
        },
        None => Seq::empty(),
    }
}

/// The pieces of text that mark the groups from the first up to the `n`th.
/// The whole match, which stands before the first group, is not marked.
pub open spec fn group_marks(
    cursor_x: int,
    rect: Rect,
    style: Style,
    i: int,
    line: Seq<char>,
    groups: Seq<Option<Span>>,
    n: int,
) -> Seq<Drawn>
    decreases n,
{
    if n <= 1 {
        Seq::empty()
    } else {
        group_marks(cursor_x, rect, style, i, line, groups, n - 1) + group_mark(
            cursor_x,
            rect,
            style,
            i,
            line,
            groups[n - 1],
        )
    }
}

/// The pieces of text that mark what a search captured on the `i`th row.
pub open spec fn line_marks(
    cursor_x: int,
    rect: Rect,
    style: Style,
    i: int,
    line: Seq<char>,
    search: Option<Option<Seq<Option<Span>>>>,
) -> Seq<Drawn> {
    match search {
        Some(Some(groups)) => group_marks(
            cursor_x,
            rect,
            style,
            i,
            line,
            groups,
            groups.len() as int,
        ),
        _ => Seq::empty(),
    }
}

/// The pieces of text that mark what the first match of `pattern` captured on
/// each of the first `n` rows of `rect`.
pub open spec fn marks(lines: Items, rect: Rect, focused: bool, pattern: Seq<char>, n: int) -> Seq<
    Drawn,
>
    decreases n,
{
    if n <= 0 {
        Seq::empty()
    } else {
        let i = n - 1;
        marks(lines, rect, focused, pattern, i) + line_marks(
            lines.cursor_x,
            rect,
            match_style(lines.selected_row(i, rect.h as int), focused),
            i,
            lines.row_item(rect, i),
            pcre2_first_match(pattern, lines.row_item(rect, i)),
        )
    }
}

/// The pattern of a regex, if there is one that is accepted.
pub open spec fn accepted(regex: Option<Result<Pattern, String>>) -> Option<Seq<char>> {
    match regex {
        Some(Ok(pattern)) => Some(pattern@),
        _ => None,
    }
}

/// The lines on `rect`, and over them what the regex captured.
pub open spec fn lines_drawing(
    lines: Items,
    rect: Rect,
    focused: bool,
    pattern: Option<Seq<char>>,
) -> Seq<Drawn> {
    match pattern {
        Some(pattern) => lines.drawing(rect, focused) + marks(
            lines,
            rect,
            focused,
            pattern,
            lines.rows(rect) as int,
        ),
        None => lines.drawing(rect, focused),
    }
}

/// The first line of the output of a command.
pub open spec fn banner(pid: u32, shell: Seq<char>) -> Seq<char> {
    "PID: "@ + decimal(pid as nat) + ", Command: "@ + shell
}

/// The last line of the output of a command, by its exit code. A command that
/// was ended by a signal has none.
pub open spec fn epilogue(code: Option<i32>) -> Seq<char> {
    match code {
        Some(code) => "-- Execution Finished with status code: "@ + integer(code as int) + " --"@,
        None => "-- Execution Terminated by a signal --"@,
    }
}

impl View for LineList {
    type V = Items;

    open spec fn view(&self) -> Items {
        self.list@
    }
}

impl LineList {
    /// No lines.
    pub fn new() -> (lines: LineList)
        ensures
            lines@ == (Items { items: Seq::empty(), cursor_x: 0, cursor_y: 0 }),
            lines@.wf(),
    {
        LineList { list: ItemList::new() }
    }

    /// The selected line.
    pub fn current_item(&self) -> (item: Option<&str>)
        ensures
            match item {
                Some(text) => self@.current() == Some(text@),
                None => self@.current() is None,
            },
    {
        self.list.current_item()
    }

    /// The pieces of text that mark what `search` captured of `line`, which
    /// is on the `i`th row of `rect`.
    pub fn mark_line(
        &self,
        rect: Rect,
        style: Style,
        i: usize,
        line: &str,
        search: &Search,
    ) -> (draws: Vec<Draw>)
        requires
            rect.y + i <= usize::MAX,
            self.list.cursor_x + rect.w <= usize::MAX,
            rect.x <= isize::MAX,
            search@ matches Some(Some(groups)) ==> spans_within(groups, isize::MAX as int),
        ensures
            drawn(draws@) == line_marks(
                self@.cursor_x,
                rect,
                style,
                i as int,
                line@,
                search@,
            ),
    {
        let mut draws: Vec<Draw> = Vec::new();
        if let Search::Found(groups) = search {
            let cursor_x: usize = self.list.cursor_x;
            let limit: usize = cursor_x + rect.w;
            let mut j: usize = 1;
            while j < groups.len()
                invariant
                    1 <= j,
                    j <= groups@.len() || j == 1,
                    rect.y + i <= usize::MAX,
                    limit == cursor_x + rect.w,
                    rect.x <= isize::MAX,
                    spans_within(groups@, isize::MAX as int),
                    drawn(draws@) == group_marks(
                        cursor_x as int,
                        rect,
                        style,
                        i as int,
                        line@,
                        groups@,
                        j as int,
                    ),
                decreases groups@.len() - j,
            {
                let ghost before = draws@;
                if let Some(span) = groups[j] {
                    assert(groups@[j as int] == Some(span));
                    let start: usize = if span.0 > cursor_x {
                        span.0
                    } else {
                        cursor_x
                    };
                    let end: usize = if span.1 < limit {
                        span.1
                    } else {
                        limit
                    };
                    if start != end {
                        let draw = Draw {
                            y: rect.y + i,
                            x: start - cursor_x + rect.x,
                            style,
                            text: slice_of(line, start, end),
                        };
                        proof {
                            lemma_drawn_push(before, draw);
                        }
                        draws.push(draw);
                    }
                }
                assert(drawn(draws@) == drawn(before) + group_mark(
                    cursor_x as int,
                    rect,
                    style,
                    i as int,
                    line@,
                    groups@[j as int],
                ));
                j = j + 1;
            }
        }
        draws
    }

    /// The pieces of text that mark what `pattern` captures of the lines that
    /// are seen on `rect`.
    pub fn mark_lines(&self, rect: Rect, focused: bool, pattern: &Pattern) -> (draws: Vec<Draw>)
        requires
            rect.y + rect.h <= usize::MAX,
            self.list.cursor_x + rect.w <= usize::MAX,
            rect.x <= isize::MAX,
        ensures
            drawn(draws@) == marks(self@, rect, focused, pattern@, self@.rows(rect) as int),
    {
        let mut draws: Vec<Draw> = Vec::new();
        let n = self.list.visible_rows(rect);
        let len: usize = self.list.items.len();
        let mut i: usize = 0;
        while i < n
            invariant
                i <= n <= rect.h,
                n == self@.rows(rect),
                len == self.list.items@.len(),
                rect.h > 0 ==> page_top(self.list.cursor_y as int, rect.h as int) + n <= len || n
                    == 0,
                rect.y + rect.h <= usize::MAX,
                self.list.cursor_x + rect.w <= usize::MAX,
                rect.x <= isize::MAX,
                drawn(draws@) == marks(self@, rect, focused, pattern@, i as int),
            decreases n - i,
        {
            let selected = i == self.list.cursor_y % rect.h;
            let style = if !selected {
                Style::Match
            } else if focused {
                Style::MatchCursor
            } else {
                Style::UnfocusedMatchCursor
            };
            let top = page_start(self.list.cursor_y, rect.h);
            let line = self.list.items[top + i].as_str();
            let search = pattern.search(line);
            let more = self.mark_line(rect, style, i, line, &search);
            append(&mut draws, more);
            assert(self@.row_item(rect, i as int) == line@);
            i = i + 1;
        }
        draws
    }

    /// The pieces of text that show the lines on `rect`, and over them what
    /// the regex captured.
    pub fn render(
        &self,
        rect: Rect,
        focused: bool,
        regex: &Option<Result<Pattern, String>>,
    ) -> (draws: Vec<Draw>)
        requires
            rect.y + rect.h <= usize::MAX,
            self.list.cursor_x + rect.w <= usize::MAX,
            rect.x <= isize::MAX,
        ensures
            drawn(draws@) == lines_drawing(self@, rect, focused, accepted(*regex)),
    {
        let mut draws = self.list.render(rect, focused);
        if let Some(Ok(pattern)) = regex {
            let more = self.mark_lines(rect, focused, pattern);
            append(&mut draws, more);
        }
        draws
    }

    /// Takes a key, and says what is left to do outside.
    pub fn handle_key(
        &mut self,
        key: i32,
        cmdline: &Option<Result<String, String>>,
        global: &mut Global,
    ) -> (action: LineAction)
        requires
            old(self)@.wf(),
        ensures
            final(self)@ == lines_after_key(old(self)@, key),
            final(self)@.wf(),
            *final(global) == old(global).after_key(key),
            action@ == action_for(key, cmdline_view(*cmdline)),
    {
        if !global.handle_key(key) {
            if key == KEY_RETURN {
                if let Some(Ok(line)) = cmdline {
                    return LineAction::Execute(line.clone());
                }
            } else if key == KEY_F5 {
                return LineAction::Restart;
            } else {
                self.list.handle_key(key);
            }
        }
        LineAction::Stay
    }

    /// Takes the lines that the program was given at its start.
    pub fn set_lines(&mut self, lines: Vec<String>)
        requires
            old(self).list.cursor_y == 0,
        ensures
            final(self)@ == (Items { items: texts(lines@), ..old(self)@ }),
            final(self)@.wf(),
    {
        self.list.items = lines;
    }

    /// Begins anew with the output of a command that has just been started.
    pub fn start_output(&mut self, pid: u32, shell: &str)
        ensures
            final(self)@ == (Items {
                items: seq![banner(pid, shell@)],
                cursor_x: old(self)@.cursor_x,
                cursor_y: 0,
            }),
            final(self)@.wf(),
    {
        let mut text = "PID: ".to_owned();
        push_decimal(&mut text, pid as u64);
        text.append(", Command: ");
        text.append(shell);
        self.list.cursor_y = 0;
        self.list.items.clear();
        self.list.items.push(text);
        assert(texts(self.list.items@) == seq![banner(pid, shell@)]);
    }

    /// Takes what came of an attempt to read a line of output: the number of
    /// bytes read, which is 0 at the end, or `None` if there was none to
    /// read. Says whether to read on.
    pub fn take_output(&mut self, count: Option<usize>, line: &str) -> (more: bool)
        ensures
            more == (count matches Some(n) && n > 0),
            final(self)@ == if more {
                Items { items: old(self)@.items.push(line@), ..old(self)@ }
            } else {
                old(self)@
            },
            old(self)@.wf() ==> final(self)@.wf(),
    {
        match count {
            Some(n) => {
                if n > 0 {
                    self.list.push(line.to_owned());
                    true
                } else {
                    false
                }
            },
            None => false,
        }
    }

    /// Notes that the command has ended, with its exit code unless a signal
    /// ended it.
    pub fn end_output(&mut self, code: Option<i32>)
        ensures
            final(self)@ == (Items {
                items: old(self)@.items.push(epilogue(code)),
                ..old(self)@
            }),
            old(self)@.wf() ==> final(self)@.wf(),
    {
        match code {
            Some(code) => {
                let mut text = "-- Execution Finished with status code: ".to_owned();
                push_integer(&mut text, code);
                text.append(" --");
                self.list.push(text);
            },
            None => {
                self.list.push("-- Execution Terminated by a signal --".to_owned());
            },
        }
    }
}

/// A piece of text that is inside `rect`, on one of its first `n` rows.
pub open spec fn inside(mark: Drawn, rect: Rect, n: int) -> bool {
    &&& rect.y <= mark.y < rect.y + n
    &&& rect.x <= mark.x
    &&& mark.x + byte_len(mark.text) <= rect.x + rect.w
}

proof fn lemma_group_marks_inside(
    cursor_x: int,
    rect: Rect,
    style: Style,
    i: int,
    line: Seq<char>,
    groups: Seq<Option<Span>>,
    n: int,
)
    requires
        0 <= i,
    ensures
        forall|k: int|
            0 <= k < group_marks(cursor_x, rect, style, i, line, groups, n).len() && (
            #[trigger] group_marks(cursor_x, rect, style, i, line, groups, n)[k]).text.len() > 0
                ==> inside(
                group_marks(cursor_x, rect, style, i, line, groups, n)[k],
                rect,
                i + 1,
            ),
    decreases n,
{
    if n > 1 {
        lemma_group_marks_inside(cursor_x, rect, style, i, line, groups, n - 1);
        let init = group_marks(cursor_x, rect, style, i, line, groups, n - 1);
        let last = group_mark(cursor_x, rect, style, i, line, groups[n - 1]);
        let all = group_marks(cursor_x, rect, style, i, line, groups, n);
        assert forall|k: int| 0 <= k < all.len() && (#[trigger] all[k]).text.len() > 0 implies inside(
            all[k],
            rect,
            i + 1,
        ) by {
            if k < init.len() {
                assert(all[k] == init[k]);
            } else {
                assert(all[k] == last[k - init.len()]);
                let span = groups[n - 1]->Some_0;
                let start = if span.0 > cursor_x {
                    span.0 as int
                } else {
                    cursor_x
                };
                let end = if span.1 < cursor_x + rect.w {
                    span.1 as int
                } else {
                    cursor_x + rect.w
                };
                lemma_byte_slice_len(line, start, end);
            }
        }
    }
}

/// What is marked is marked inside the part of the screen that the lines are
/// on: every mark with text is on one of its rows, and between its columns.
pub proof fn law_marks_inside(
    lines: Items,
    rect: Rect,
    focused: bool,
    pattern: Seq<char>,
    n: int,
    k: int,
)
    requires
        0 <= n <= lines.rows(rect),
        0 <= k < marks(lines, rect, focused, pattern, n).len(),
        marks(lines, rect, focused, pattern, n)[k].text.len() > 0,
    ensures
        inside(marks(lines, rect, focused, pattern, n)[k], rect, rect.h as int),
    decreases n,
{
    if n > 0 {
        let i = n - 1;
        let init = marks(lines, rect, focused, pattern, i);
        if k < init.len() {
            law_marks_inside(lines, rect, focused, pattern, i, k);
        } else {
            let line = lines.row_item(rect, i);
            let style = match_style(lines.selected_row(i, rect.h as int), focused);
            let search = pcre2_first_match(pattern, line);
            let last = line_marks(lines.cursor_x, rect, style, i, line, search);
            assert(marks(lines, rect, focused, pattern, n)[k] == last[k - init.len()]);
            if let Some(Some(groups)) = search {
                lemma_group_marks_inside(
                    lines.cursor_x,
                    rect,
                    style,
                    i,
                    line,
                    groups,
                    groups.len() as int,
                );
            }
        }
    }
}

/// A command line is run only for Return, and only if there is one, and then
/// as it stands.
pub proof fn law_only_return_executes(key: i32, cmdline: Cmdline)
    ensures
        action_for(key, cmdline) matches Acted::Execute(line) ==> key == KEY_RETURN && cmdline
            == Some(Ok::<Seq<char>, Seq<char>>(line)),
        key == KEY_RETURN && (cmdline matches Some(Ok(_))) ==> action_for(
            key,
            cmdline,
        ) is Execute,
{
}

} // verus!
