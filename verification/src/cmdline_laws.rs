//! What the command line for a line is, whatever the regex captured.
use crate::profile::{
    cmdline_of, compiled, filled, placeholder, profile_cmdline, Kept,
};
use crate::regex::{pcre2_compile_error, pcre2_first_match, Span};
use crate::session::State;
use crate::string_list::Strings;
use crate::text::{byte_slice, decimal, replace, starts_with};
use crate::text_laws::law_decimal_stands_for_number;
use vstd::prelude::*;

verus! {

/// Whether `text` is what a list stands for: while an item is edited the text
/// in the field, on both sides of the cursor, and else the selected item.
pub open spec fn in_use(strings: Strings, text: Seq<char>) -> bool {
    if strings.state is Editing {
        text == strings.field.before + strings.field.after
    } else {
        0 <= strings.list.cursor_y < strings.list.items.len() && text
            == strings.list.items[strings.list.cursor_y]
    }
}

/// Whether a list stands for nothing: no item is edited, and the cursor is on
/// none.
pub open spec fn none_in_use(strings: Strings) -> bool {
    !(strings.state is Editing) && !(0 <= strings.list.cursor_y < strings.list.items.len())
}

/// The group whose placeholder `cmd` begins with: a backslash and a digit
/// from 1 to 9, for a group that took part in the match.
pub open spec fn leading_group(cmd: Seq<char>, groups: Seq<Option<Span>>) -> Option<int> {
    if cmd.len() >= 2 && cmd[0] == '\\' && '1' <= cmd[1] <= '9' {
        let d = cmd[1] as u32 - '0' as u32;
        if d < groups.len() && groups[d] is Some {
            Some(d)
        } else {
            None
        }
    } else {
        None
    }
}

/// The part of `line` that the group `d` captured.
pub open spec fn captured(line: Seq<char>, groups: Seq<Option<Span>>, d: int) -> Seq<char> {
    byte_slice(line, groups[d]->Some_0.0 as int, groups[d]->Some_0.1 as int)
}

/// `cmd` with what each group captured in each place where `cmd` holds the
/// placeholder of that group, and all else as it is in `cmd`.
pub open spec fn substituted(cmd: Seq<char>, line: Seq<char>, groups: Seq<Option<Span>>) -> Seq<
    char,
>
    decreases cmd.len(),
{
    if cmd.len() == 0 {
        cmd
    } else {
        match leading_group(cmd, groups) {
            Some(d) => captured(line, groups, d) + substituted(cmd.skip(2), line, groups),
            None => seq![cmd[0]] + substituted(cmd.skip(1), line, groups),
        }
    }
}

/// Whether the captured texts and the other backslashes of `cmd` make no new
/// placeholder: no captured text holds a backslash, and no backslash stands
/// directly before a placeholder.
pub open spec fn clear_cut(cmd: Seq<char>, line: Seq<char>, groups: Seq<Option<Span>>) -> bool {
    &&& forall|d: int|
        1 <= d <= 9 && d < groups.len() && groups[d] is Some ==> !(#[trigger] captured(
            line,
            groups,
            d,
        )).contains('\\')
    &&& forall|p: int|
        0 < p < cmd.len() && leading_group(#[trigger] cmd.skip(p), groups) is Some ==> cmd[p - 1]
            != '\\'
}

/// Whether a backslash and one digit are enough to name a group: there are no
/// more groups than that, or the first nine all took part in the match.
pub open spec fn one_digit_names(groups: Seq<Option<Span>>) -> bool {
    groups.len() <= 10 || forall|d: int| 1 <= d <= 9 ==> #[trigger] groups[d] is Some
}

spec fn leading_below(cmd: Seq<char>, groups: Seq<Option<Span>>, n: int) -> Option<int> {
    match leading_group(cmd, groups) {
        Some(d) => if d < n {
            Some(d)
        } else {
            None
        },
        None => None,
    }
}

spec fn substituted_below(
    cmd: Seq<char>,
    line: Seq<char>,
    groups: Seq<Option<Span>>,
    n: int,
) -> Seq<char>
    decreases cmd.len(),
{
    if cmd.len() == 0 {
        cmd
    } else {
        match leading_below(cmd, groups, n) {
            Some(d) => captured(line, groups, d) + substituted_below(cmd.skip(2), line, groups, n),
            None => seq![cmd[0]] + substituted_below(cmd.skip(1), line, groups, n),
        }
    }
}

proof fn lemma_below_all(cmd: Seq<char>, line: Seq<char>, groups: Seq<Option<Span>>)
    ensures
        substituted_below(cmd, line, groups, groups.len() as int) == substituted(
            cmd,
            line,
            groups,
        ),
    decreases cmd.len(),
{
    if cmd.len() > 0 {
        if cmd.len() >= 2 {
            lemma_below_all(cmd.skip(2), line, groups);
        }
        lemma_below_all(cmd.skip(1), line, groups);
    }
}

proof fn lemma_below_none(cmd: Seq<char>, line: Seq<char>, groups: Seq<Option<Span>>, n: int)
    requires
        n <= 1,
    ensures
        substituted_below(cmd, line, groups, n) == cmd,
    decreases cmd.len(),
{
    if cmd.len() > 0 {
        lemma_below_none(cmd.skip(1), line, groups, n);
        assert(seq![cmd[0]] + cmd.skip(1) == cmd);
    }
}

/// A group that took no part has no placeholder to fill.
proof fn lemma_below_skips(cmd: Seq<char>, line: Seq<char>, groups: Seq<Option<Span>>, n: int)
    requires
        0 <= n < groups.len(),
        groups[n] is None || n >= 10,
    ensures
        substituted_below(cmd, line, groups, n + 1) == substituted_below(cmd, line, groups, n),
    decreases cmd.len(),
{
    if cmd.len() > 0 {
        if cmd.len() >= 2 {
            lemma_below_skips(cmd.skip(2), line, groups, n);
        }
        lemma_below_skips(cmd.skip(1), line, groups, n);
    }
}

/// A text without the first character of what is to be replaced passes.
proof fn lemma_replace_passes(a: Seq<char>, b: Seq<char>, from: Seq<char>, to: Seq<char>)
    requires
        from.len() > 0,
        !a.contains(from[0]),
    ensures
        replace(a + b, from, to) == a + replace(b, from, to),
    decreases a.len(),
{
    if a.len() == 0 {
        assert(a + b == b);
        assert(a + replace(b, from, to) == replace(b, from, to));
    } else {
        let s = a + b;
        assert(a.contains(a[0]));
        if starts_with(s, from) {
            assert(s.take(from.len() as int)[0] == s[0]);
        }
        let rest = a.skip(1);
        if rest.contains(from[0]) {
            let i = choose|i: int| 0 <= i < rest.len() && rest[i] == from[0];
            assert(a[i + 1] == from[0]);
        }
        lemma_replace_passes(rest, b, from, to);
        assert(s.skip(1) == rest + b);
        assert(seq![s[0]] + (rest + replace(b, from, to)) == a + replace(b, from, to));
    }
}

proof fn lemma_clear_cut_skip(cmd: Seq<char>, line: Seq<char>, groups: Seq<Option<Span>>, k: int)
    requires
        clear_cut(cmd, line, groups),
        0 <= k <= cmd.len(),
    ensures
        clear_cut(cmd.skip(k), line, groups),
{
    let rest = cmd.skip(k);
    assert forall|p: int|
        0 < p < rest.len() && leading_group(#[trigger] rest.skip(p), groups) is Some implies rest[p
        - 1] != '\\' by {
        assert(rest.skip(p) == cmd.skip(p + k));
    }
}

proof fn lemma_placeholder(n: int)
    requires
        n >= 1,
    ensures
        placeholder(n).len() >= 2,
        placeholder(n)[0] == '\\',
        '1' <= placeholder(n)[1] <= '9',
        n <= 9 ==> placeholder(n) == seq!['\\', ('0' as u32 + n) as char],
        n >= 10 ==> placeholder(n).len() >= 3,
{
    law_decimal_stands_for_number(n as nat);
    let d = decimal(n as nat);
    assert(placeholder(n)[1] == d[0]);
    if n <= 9 {
        assert(d.len() == 1);
        assert(placeholder(n) =~= seq!['\\', ('0' as u32 + n) as char]);
    } else {
        law_decimal_stands_for_number((n / 10) as nat);
    }
}

/// Filling in one more group.
proof fn lemma_fill_step(cmd: Seq<char>, line: Seq<char>, groups: Seq<Option<Span>>, n: int)
    requires
        clear_cut(cmd, line, groups),
        one_digit_names(groups),
        1 <= n < groups.len(),
        groups[n] is Some,
    ensures
        replace(
            substituted_below(cmd, line, groups, n),
            placeholder(n),
            captured(line, groups, n),
        ) == substituted_below(cmd, line, groups, n + 1),
    decreases cmd.len(),
{
    let from = placeholder(n);
    let to = captured(line, groups, n);
    lemma_placeholder(n);
    let s = substituted_below(cmd, line, groups, n);
    if cmd.len() > 0 {
        lemma_clear_cut_skip(cmd, line, groups, 1);
        match leading_below(cmd, groups, n) {
            Some(d) => {
                lemma_clear_cut_skip(cmd, line, groups, 2);
                assert(!captured(line, groups, d).contains('\\'));
                let rest = substituted_below(cmd.skip(2), line, groups, n);
                lemma_replace_passes(captured(line, groups, d), rest, from, to);
                lemma_fill_step(cmd.skip(2), line, groups, n);
            },
            None => {
                let one = cmd.skip(1);
                let rest = substituted_below(one, line, groups, n);
                assert(s == seq![cmd[0]] + rest);
                if leading_below(cmd, groups, n + 1) is Some {
                    // The placeholder of this very group.
                    assert(leading_group(cmd, groups) == Some(n));
                    lemma_clear_cut_skip(cmd, line, groups, 2);
                    assert(leading_below(one, groups, n) is None);
                    assert(one.skip(1) == cmd.skip(2));
                    let two = substituted_below(cmd.skip(2), line, groups, n);
                    assert(rest == seq![cmd[1]] + two);
                    assert(cmd[1] == ('0' as u32 + n) as char);
                    assert(s.take(2) =~= from);
                    assert(s.skip(2) =~= two);
                    lemma_fill_step(cmd.skip(2), line, groups, n);
                } else {
                    if starts_with(s, from) {
                        assert(s.take(from.len() as int)[0] == s[0]);
                        assert(s.take(from.len() as int)[1] == s[1]);
                        assert(cmd[0] == '\\');
                        assert(one.len() > 0);
                        assert(cmd.skip(1)[0] == cmd[1]);
                        if leading_group(cmd.skip(1), groups) is Some {
                            assert(cmd[1 - 1] != '\\');
                        }
                        assert(rest[0] == cmd[1]);
                        assert('1' <= cmd[1] <= '9');
                        let d = cmd[1] as u32 - '0' as u32;
                        assert(d < groups.len() ==> leading_group(cmd, groups) == if groups[d] is Some {
                            Some(d)
                        } else {
                            None
                        });
                        if n >= 10 {
                            assert(groups[d] is Some);
                        } else {
                            assert(cmd[1] == ('0' as u32 + n) as char);
                            assert(d == n);
                        }
                        assert(false);
                    }
                    assert(s.skip(1) =~= rest);
                    lemma_fill_step(one, line, groups, n);
                }
            },
        }
    }
}

proof fn lemma_filled(cmd: Seq<char>, line: Seq<char>, groups: Seq<Option<Span>>, n: int)
    requires
        clear_cut(cmd, line, groups),
        one_digit_names(groups),
        n <= groups.len(),
    ensures
        filled(cmd, line, groups, n) == substituted_below(cmd, line, groups, n),
    decreases n,
{
    if n <= 1 {
        lemma_below_none(cmd, line, groups, n);
    } else {
        lemma_filled(cmd, line, groups, n - 1);
        if groups[n - 1] is Some {
            lemma_fill_step(cmd, line, groups, n - 1);
        } else {
            lemma_below_skips(cmd, line, groups, n - 1);
        }
    }
}

/// The command line for a match, whatever the number of groups: in each place
/// where the command holds the placeholder of a group stands what that group
/// captured, and the rest of the command is unchanged.
pub proof fn law_match_fills_command(cmd: Seq<char>, line: Seq<char>, groups: Seq<Option<Span>>)
    requires
        clear_cut(cmd, line, groups),
        one_digit_names(groups),
    ensures
        cmdline_of(Some(cmd), line, Some(Some(groups))) == Some(substituted(cmd, line, groups)),
{
    lemma_filled(cmd, line, groups, groups.len() as int);
    lemma_below_all(cmd, line, groups);
}

/// The command line that a profile makes of a line that its regex matches.
pub proof fn law_profile_fills_command(
    kept: Kept,
    source: Seq<char>,
    cmd: Seq<char>,
    line: Seq<char>,
    groups: Seq<Option<Span>>,
)
    requires
        in_use(kept.regexs, source),
        in_use(kept.cmds, cmd),
        pcre2_compile_error(source) is None,
        pcre2_first_match(source, line) == Some(Some(groups)),
        clear_cut(cmd, line, groups),
        one_digit_names(groups),
    ensures
        profile_cmdline(kept, Some(line)) == Some(
            Ok::<Seq<char>, Seq<char>>(substituted(cmd, line, groups)),
        ),
{
    law_match_fills_command(cmd, line, groups);
}

/// The command line of the whole program is made of the selected line.
pub proof fn law_session_fills_command(
    state: State,
    source: Seq<char>,
    cmd: Seq<char>,
    groups: Seq<Option<Span>>,
)
    requires
        in_use(state.kept.regexs, source),
        in_use(state.kept.cmds, cmd),
        0 <= state.lines.cursor_y < state.lines.items.len(),
        pcre2_compile_error(source) is None,
        pcre2_first_match(source, state.lines.items[state.lines.cursor_y]) == Some(Some(groups)),
        clear_cut(cmd, state.lines.items[state.lines.cursor_y], groups),
        one_digit_names(groups),
    ensures
        state.cmdline() == Some(
            Ok::<Seq<char>, Seq<char>>(
                substituted(cmd, state.lines.items[state.lines.cursor_y], groups),
            ),
        ),
{
    law_match_fills_command(cmd, state.lines.items[state.lines.cursor_y], groups);
}

proof fn lemma_substituted_concat(
    a: Seq<char>,
    b: Seq<char>,
    line: Seq<char>,
    groups: Seq<Option<Span>>,
)
    requires
        a.len() > 0 ==> a[a.len() - 1] != '\\',
    ensures
        substituted(a + b, line, groups) == substituted(a, line, groups) + substituted(
            b,
            line,
            groups,
        ),
    decreases a.len(),
{
    let s = a + b;
    if a.len() == 0 {
        assert(s == b);
        assert(a + substituted(b, line, groups) == substituted(b, line, groups));
    } else {
        assert(s[0] == a[0]);
        if a.len() >= 2 {
            assert(s[1] == a[1]);
            assert(s.skip(2) == a.skip(2) + b);
            lemma_substituted_concat(a.skip(2), b, line, groups);
        } else {
            assert(leading_group(s, groups) is None);
        }
        assert(s.skip(1) == a.skip(1) + b);
        lemma_substituted_concat(a.skip(1), b, line, groups);
        assert(leading_group(s, groups) == leading_group(a, groups));
        match leading_group(a, groups) {
            Some(d) => {
                assert(captured(line, groups, d) + (substituted(a.skip(2), line, groups)
                    + substituted(b, line, groups)) == substituted(a, line, groups) + substituted(
                    b,
                    line,
                    groups,
                ));
            },
            None => {
                assert(seq![s[0]] + (substituted(a.skip(1), line, groups) + substituted(
                    b,
                    line,
                    groups,
                )) == substituted(a, line, groups) + substituted(b, line, groups));
            },
        }
    }
}

/// A placeholder in a command: before it and behind it the command line is
/// what the two rests of the command give on their own, and between them
/// stands what the group captured.
pub proof fn law_placeholder_in_place(
    a: Seq<char>,
    c: char,
    b: Seq<char>,
    line: Seq<char>,
    groups: Seq<Option<Span>>,
)
    requires
        a.len() > 0 ==> a[a.len() - 1] != '\\',
        '1' <= c <= '9',
        (c as u32 - '0' as u32) < groups.len(),
        groups[c as u32 - '0' as u32] is Some,
        clear_cut(a + seq!['\\', c] + b, line, groups),
        clear_cut(a, line, groups),
        clear_cut(b, line, groups),
        one_digit_names(groups),
    ensures
        cmdline_of(Some(a + seq!['\\', c] + b), line, Some(Some(groups))) == Some(
            cmdline_of(Some(a), line, Some(Some(groups)))->Some_0 + captured(
                line,
                groups,
                c as u32 - '0' as u32,
            ) + cmdline_of(Some(b), line, Some(Some(groups)))->Some_0,
        ),
{
    let mid = seq!['\\', c];
    law_match_fills_command(a + mid + b, line, groups);
    law_match_fills_command(a, line, groups);
    law_match_fills_command(b, line, groups);
    assert(a + mid + b == a + (mid + b));
    lemma_substituted_concat(a, mid + b, line, groups);
    let s = mid + b;
    let d = c as u32 - '0' as u32;
    assert(s[0] == '\\' && s[1] == c);
    assert(leading_group(s, groups) == Some(d));
    assert(s.skip(2) == b);
    assert(substituted(a, line, groups) + (captured(line, groups, d) + substituted(
        b,
        line,
        groups,
    )) == substituted(a, line, groups) + captured(line, groups, d) + substituted(b, line, groups));
}

proof fn lemma_filled_ignores(
    cmd: Seq<char>,
    line: Seq<char>,
    groups: Seq<Option<Span>>,
    group: Option<Span>,
    n: int,
)
    requires
        n <= groups.len(),
    ensures
        filled(cmd, line, groups.push(group), n) == filled(cmd, line, groups, n),
    decreases n,
{
    if n > 1 {
        lemma_filled_ignores(cmd, line, groups, group, n - 1);
    }
}

/// The groups are filled in one after the other. One group more, which took
/// part, is filled into the command line without it: its number behind a
/// backslash gives way, wherever it then stands, to what the group captured.
/// One that took no part changes nothing, and neither does the whole match.
pub proof fn law_groups_fill_in_turn(
    cmd: Seq<char>,
    line: Seq<char>,
    groups: Seq<Option<Span>>,
    span: Span,
)
    ensures
        groups.len() <= 1 ==> cmdline_of(Some(cmd), line, Some(Some(groups))) == Some(cmd),
        groups.len() >= 1 ==> cmdline_of(Some(cmd), line, Some(Some(groups.push(Some(span)))))
            == Some(
            replace(
                cmdline_of(Some(cmd), line, Some(Some(groups)))->Some_0,
                seq!['\\'] + decimal(groups.len()),
                byte_slice(line, span.0 as int, span.1 as int),
            ),
        ),
        cmdline_of(Some(cmd), line, Some(Some(groups.push(None)))) == cmdline_of(
            Some(cmd),
            line,
            Some(Some(groups)),
        ),
{
    let n = groups.len() as int;
    lemma_filled_ignores(cmd, line, groups, Some(span), n);
    lemma_filled_ignores(cmd, line, groups, None, n);
    reveal_with_fuel(filled, 2);
}

/// Without a match there is no command line, and without a command neither.
/// Where the engine gave up on the line, the command stands as it is.
pub proof fn law_without_a_match(cmd: Seq<char>, line: Seq<char>)
    ensures
        cmdline_of(Some(cmd), line, Some(None)) is None,
        cmdline_of(Some(cmd), line, None) == Some(cmd),
        forall|search: Option<Option<Seq<Option<Span>>>>|
            #[trigger] cmdline_of(None, line, search) is None,
{
}

/// When the program has a command line, and which: none while nothing is
/// selected of the lines, the regexs or the commands, or the line does not
/// match; the error of a regex that is not accepted, whatever else; and the
/// plain command where the engine gives up on the line.
pub proof fn law_session_cmdline(state: State, source: Seq<char>, cmd: Seq<char>)
    ensures
        none_in_use(state.kept.regexs) ==> state.cmdline() is None,
        in_use(state.kept.regexs, source) && pcre2_compile_error(source) is Some
            ==> state.cmdline() == Some(
            Err::<Seq<char>, Seq<char>>(pcre2_compile_error(source)->Some_0),
        ),
        in_use(state.kept.regexs, source) && pcre2_compile_error(source) is None ==> {
            &&& !(0 <= state.lines.cursor_y < state.lines.items.len()) ==> state.cmdline() is None
            &&& none_in_use(state.kept.cmds) ==> state.cmdline() is None
            &&& 0 <= state.lines.cursor_y < state.lines.items.len() && in_use(
                state.kept.cmds,
                cmd,
            ) ==> {
                let line = state.lines.items[state.lines.cursor_y];
                &&& pcre2_first_match(source, line) == Some(None::<Seq<Option<Span>>>)
                    ==> state.cmdline() is None
                &&& pcre2_first_match(source, line) is None ==> state.cmdline() == Some(
                    Ok::<Seq<char>, Seq<char>>(cmd),
                )
                &&& pcre2_first_match(source, line) matches Some(Some(groups))
                    ==> state.cmdline() == Some(
                    Ok::<Seq<char>, Seq<char>>(
                        cmdline_of(Some(cmd), line, Some(Some(groups)))->Some_0,
                    ),
                )
            }
        },
{
}

/// A regex in use is accepted as it is written, or gives its error.
pub proof fn law_regex_in_use(strings: Strings, source: Seq<char>)
    ensures
        in_use(strings, source) && pcre2_compile_error(source) is None ==> compiled(
            strings.chosen(),
        ) == Some(Ok::<Seq<char>, Seq<char>>(source)),
        in_use(strings, source) && pcre2_compile_error(source) is Some ==> compiled(
            strings.chosen(),
        ) == Some(Err::<Seq<char>, Seq<char>>(pcre2_compile_error(source)->Some_0)),
        none_in_use(strings) ==> compiled(strings.chosen()) is None,
        in_use(strings, source) ==> strings.chosen() == Some(source),
        none_in_use(strings) ==> strings.chosen() is None,
{
}

} // verus!
