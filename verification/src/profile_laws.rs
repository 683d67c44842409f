//! What a profile keeps: the text that is written for it gives it back.
use crate::item_list::Items;
use crate::profile::{
    entry_key, entry_text, entry_value, initial_profile, items_text, profile_text, read_entries, read_entry,
    read_profile, Entry, Fault, Kept, Refusal,
};
use crate::string_list::Strings;
use crate::text::{
    decimal, digit, find, is_digit, is_space, lemma_find, lemma_find_at, lemma_trim_end,
    lemma_trim_start, lines, number, read_usize, trim, trim_end, trim_start, unsigned,
};
use vstd::prelude::*;

verus! {

/// An item that a profile can keep: it fits on a line, holds no equals sign
/// and neither begins nor ends with white space.
pub open spec fn keepable(item: Seq<char>) -> bool {
    &&& !item.contains('=')
    &&& !item.contains('\n')
    &&& item.len() > 0 ==> !is_space(item[0]) && !is_space(item.last())
}

/// A list that a profile can keep: it has items, all of which can be kept,
/// and the cursor is on one of them.
pub open spec fn keepable_list(strings: Strings) -> bool {
    &&& forall|i: int|
        0 <= i < strings.list.items.len() ==> keepable(#[trigger] strings.list.items[i])
    &&& 0 <= strings.list.cursor_y < strings.list.items.len()
    &&& strings.list.cursor_y <= usize::MAX
}

/// The items and the cursor of a list, out of which nothing is being edited.
pub open spec fn at_rest(strings: Strings) -> Strings {
    Strings {
        list: Items {
            items: strings.list.items,
            cursor_x: 0,
            cursor_y: strings.list.cursor_y,
        },
        ..Strings::empty()
    }
}

/// A number reads back from its decimal digits.
pub proof fn law_decimal_reads_back(n: usize)
    ensures
        read_usize(decimal(n as nat)) == Some(n),
{
    lemma_decimal(n as nat);
    let s = decimal(n as nat);
    assert(is_digit(s[0]));
    assert(unsigned(s) == s);
}

proof fn lemma_decimal(n: nat)
    ensures
        decimal(n).len() > 0,
        number(decimal(n)) == n,
        forall|i: int| 0 <= i < decimal(n).len() ==> is_digit(#[trigger] decimal(n)[i]),
    decreases n,
{
    let s = decimal(n);
    if n < 10 {
        assert(s.drop_last() == Seq::<char>::empty());
        assert(number(s.drop_last()) == 0);
        assert(s.last() == digit(n as int));
    } else {
        lemma_decimal(n / 10);
        assert(s.drop_last() == decimal(n / 10));
        assert(s.last() == digit((n % 10) as int));
        assert forall|i: int| 0 <= i < s.len() implies is_digit(#[trigger] s[i]) by {
            if i < s.len() - 1 {
                assert(s[i] == decimal(n / 10)[i]);
            }
        }
    }
}

proof fn lemma_decimal_keepable(n: nat)
    ensures
        keepable(decimal(n)),
{
    lemma_decimal(n);
    let s = decimal(n);
    assert forall|i: int| 0 <= i < s.len() implies #[trigger] s[i] != '=' && s[i] != '\n'
        && !is_space(s[i]) by {
        assert(is_digit(s[i]));
    }
    assert(is_digit(s.last()));
    assert(is_digit(s[0]));
}

/// A line that ends before the rest of a text is the first of its lines.
proof fn lemma_first_line(line: Seq<char>, rest: Seq<char>)
    requires
        !line.contains('\n'),
    ensures
        lines(line + seq!['\n'] + rest) == seq![line] + lines(rest),
{
    let s = line + seq!['\n'] + rest;
    let n = line.len() as int;
    assert forall|i: int| 0 <= i < n implies s[i] != '\n' by {
        assert(s[i] == line[i]);
        if line[i] == '\n' {
            assert(line.contains('\n'));
        }
    }
    assert(s[n] == '\n');
    lemma_find_at(s, '\n', n);
    assert(s.take(n) == line);
    assert(s.skip(n + 1) == rest);
}

/// The line of a profile for a key and a value, without its end.
pub open spec fn entry_line(key: Seq<char>, value: Seq<char>) -> Seq<char> {
    key + " = "@ + value
}

/// The lines of a profile for items, without their ends.
pub open spec fn entry_lines(key: Seq<char>, items: Seq<Seq<char>>) -> Seq<Seq<char>> {
    Seq::new(items.len(), |i: int| entry_line(key, items[i]))
}

/// A key of a profile.
pub open spec fn plain_key(key: Seq<char>) -> bool {
    &&& key.len() > 0
    &&& keepable(key)
}

proof fn lemma_entry_line(key: Seq<char>, value: Seq<char>, rest: Seq<char>)
    requires
        plain_key(key),
        keepable(value),
    ensures
        lines(entry_text(key, value) + rest) == seq![entry_line(key, value)] + lines(rest),
{
    reveal_strlit(" = ");
    reveal_strlit("\n");
    let line = entry_line(key, value);
    assert forall|i: int| 0 <= i < line.len() implies line[i] != '\n' by {
        if i < key.len() {
            assert(line[i] == key[i]);
            assert(key.contains(key[i]));
        } else if i < key.len() + 3 {
            assert(line[i] == " = "@[i - key.len()]);
        } else {
            assert(line[i] == value[i - key.len() - 3]);
            assert(value.contains(value[i - key.len() - 3]));
        }
    }
    assert("\n"@ == seq!['\n']);
    assert(entry_text(key, value) + rest == line + seq!['\n'] + rest);
    lemma_first_line(line, rest);
}

proof fn lemma_items_lines(key: Seq<char>, items: Seq<Seq<char>>, rest: Seq<char>)
    requires
        plain_key(key),
        forall|i: int| 0 <= i < items.len() ==> keepable(#[trigger] items[i]),
    ensures
        lines(items_text(key, items) + rest) == entry_lines(key, items) + lines(rest),
    decreases items.len(),
{
    if items.len() == 0 {
        assert(items_text(key, items) + rest == rest);
        assert(entry_lines(key, items) + lines(rest) == lines(rest));
    } else {
        let init = items.drop_last();
        let tail = entry_text(key, items.last()) + rest;
        assert forall|i: int| 0 <= i < init.len() implies keepable(#[trigger] init[i]) by {
            assert(init[i] == items[i]);
        }
        assert(keepable(items[items.len() - 1]));
        assert(items_text(key, items) + rest == items_text(key, init) + tail);
        lemma_items_lines(key, init, tail);
        lemma_entry_line(key, items.last(), rest);
        assert(entry_lines(key, init) + (seq![entry_line(key, items.last())] + lines(rest))
            == entry_lines(key, items) + lines(rest));
    }
}

/// What a line that was written for a key and a value says.
proof fn lemma_read_line(key: Seq<char>, value: Seq<char>)
    requires
        plain_key(key),
        keepable(value),
    ensures
        ({
            let line = entry_line(key, value);
            &&& line.len() > 0
            &&& trim_start(line) == line
            &&& find(line, '=') < line.len()
            &&& entry_key(line) == key
            &&& entry_value(line) == value
        }),
{
    reveal_strlit(" = ");
    let line = entry_line(key, value);
    let at = key.len() as int + 1;
    assert(line[0] == key[0]);
    lemma_trim_start(line, 0);
    assert(line.skip(0) == line);
    assert forall|i: int| 0 <= i < at implies line[i] != '=' by {
        if i < key.len() {
            assert(line[i] == key[i]);
            assert(key.contains(key[i]));
        }
    }
    assert(line[at] == '=');
    lemma_find_at(line, '=', at);
    let head = line.take(at);
    assert(head[0] == key[0]);
    lemma_trim_start(head, 0);
    assert(head.skip(0) == head);
    assert(head[key.len() as int] == ' ');
    assert(head[key.len() - 1] == key.last());
    lemma_trim_end(head, key.len() as int);
    assert(head.take(key.len() as int) == key);
    let rest = line.skip(at + 1);
    assert(rest[0] == ' ');
    assert(rest.skip(1) == value);
    assert forall|i: int| 0 <= i < rest.len() implies rest[i] != '=' by {
        if i > 0 {
            assert(rest[i] == value[i - 1]);
            assert(value.contains(value[i - 1]));
        }
    }
    lemma_find_at(rest, '=', rest.len() as int);
    assert(rest.take(rest.len() as int) == rest);
    if value.len() > 0 {
        assert(rest[1] == value[0]);
    }
    lemma_trim_start(rest, 1);
    lemma_trim_end(value, value.len() as int);
    assert(value.take(value.len() as int) == value);
}

proof fn lemma_keys()
    ensures
        plain_key("regexs"@),
        plain_key("cmds"@),
        plain_key("current_regex"@),
        plain_key("current_cmd"@),
        "regexs"@ != "cmds"@,
        "regexs"@ != "current_regex"@,
        "regexs"@ != "current_cmd"@,
        "cmds"@ != "current_regex"@,
        "cmds"@ != "current_cmd"@,
        "current_regex"@ != "current_cmd"@,
{
    reveal_strlit("regexs");
    reveal_strlit("cmds");
    reveal_strlit("current_regex");
    reveal_strlit("current_cmd");
    assert("regexs"@.len() == 6);
    assert("cmds"@.len() == 4);
    assert("current_regex"@.len() == 13);
    assert("current_cmd"@.len() == 11);
    assert(!is_space('r') && !is_space('s') && !is_space('c') && !is_space('x') && !is_space('d'));
}

/// Lines that were written for regexs add these.
proof fn lemma_read_regexs(before: Seq<Seq<char>>, items: Seq<Seq<char>>, kept: Kept)
    requires
        read_entries(before) == Ok::<Kept, Refusal>(kept),
        forall|i: int| 0 <= i < items.len() ==> keepable(#[trigger] items[i]),
    ensures
        read_entries(before + entry_lines("regexs"@, items)) == Ok::<Kept, Refusal>(
            Kept {
                regexs: Strings {
                    list: Items { items: kept.regexs.list.items + items, ..kept.regexs.list },
                    ..kept.regexs
                },
                ..kept
            },
        ),
    decreases items.len(),
{
    let key = "regexs"@;
    let all = before + entry_lines(key, items);
    if items.len() == 0 {
        assert(all == before);
        assert(kept.regexs.list.items + items == kept.regexs.list.items);
    } else {
        let init = items.drop_last();
        assert forall|i: int| 0 <= i < init.len() implies keepable(#[trigger] init[i]) by {
            assert(init[i] == items[i]);
        }
        lemma_read_regexs(before, init, kept);
        assert(all.drop_last() == before + entry_lines(key, init));
        assert(keepable(items[items.len() - 1]));
        lemma_keys();
        lemma_read_line(key, items.last());
        assert(all.last() == entry_line(key, items.last()));
        assert((kept.regexs.list.items + init).push(items.last()) == kept.regexs.list.items
            + items);
    }
}

/// Lines that were written for commands add these.
proof fn lemma_read_cmds(before: Seq<Seq<char>>, items: Seq<Seq<char>>, kept: Kept)
    requires
        read_entries(before) == Ok::<Kept, Refusal>(kept),
        forall|i: int| 0 <= i < items.len() ==> keepable(#[trigger] items[i]),
    ensures
        read_entries(before + entry_lines("cmds"@, items)) == Ok::<Kept, Refusal>(
            Kept {
                cmds: Strings {
                    list: Items { items: kept.cmds.list.items + items, ..kept.cmds.list },
                    ..kept.cmds
                },
                ..kept
            },
        ),
    decreases items.len(),
{
    let key = "cmds"@;
    let all = before + entry_lines(key, items);
    if items.len() == 0 {
        assert(all == before);
        assert(kept.cmds.list.items + items == kept.cmds.list.items);
    } else {
        let init = items.drop_last();
        assert forall|i: int| 0 <= i < init.len() implies keepable(#[trigger] init[i]) by {
            assert(init[i] == items[i]);
        }
        lemma_read_cmds(before, init, kept);
        assert(all.drop_last() == before + entry_lines(key, init));
        assert(keepable(items[items.len() - 1]));
        lemma_keys();
        lemma_read_line(key, items.last());
        assert(all.last() == entry_line(key, items.last()));
        assert((kept.cmds.list.items + init).push(items.last()) == kept.cmds.list.items + items);
    }
}

/// The text that is written for a profile gives back its regexs, its commands
/// and what is selected of both.
pub proof fn law_written_profile_reads_back(kept: Kept)
    requires
        keepable_list(kept.regexs),
        keepable_list(kept.cmds),
    ensures
        read_profile(profile_text(kept)) == Ok::<Kept, Refusal>(
            Kept { regexs: at_rest(kept.regexs), cmds: at_rest(kept.cmds) },
        ),
{
    lemma_keys();
    let regexs = kept.regexs.list.items;
    let cmds = kept.cmds.list.items;
    let regex = kept.regexs.list.cursor_y as usize;
    let cmd = kept.cmds.list.cursor_y as usize;
    let none = Seq::<char>::empty();
    let t4 = entry_text("current_cmd"@, decimal(cmd as nat));
    let t3 = entry_text("current_regex"@, decimal(regex as nat)) + t4;
    let t2 = items_text("cmds"@, cmds) + t3;
    lemma_decimal_keepable(regex as nat);
    lemma_decimal_keepable(cmd as nat);
    lemma_items_lines("regexs"@, regexs, t2);
    lemma_items_lines("cmds"@, cmds, t3);
    lemma_entry_line("current_regex"@, decimal(regex as nat), t4);
    lemma_entry_line("current_cmd"@, decimal(cmd as nat), none);
    assert(t4 + none == t4);
    assert(profile_text(kept) == items_text("regexs"@, regexs) + t2);
    let last_regex = entry_line("current_regex"@, decimal(regex as nat));
    let last_cmd = entry_line("current_cmd"@, decimal(cmd as nat));
    let start = Seq::<Seq<char>>::empty();
    let l1 = start + entry_lines("regexs"@, regexs);
    let l2 = l1 + entry_lines("cmds"@, cmds);
    let l3 = l2.push(last_regex);
    let l4 = l3.push(last_cmd);
    assert(lines(none) == start);
    assert(lines(profile_text(kept)) == l4);
    let k0 = Kept::empty();
    lemma_read_regexs(start, regexs, k0);
    let k1 = Kept {
        regexs: Strings {
            list: Items { items: k0.regexs.list.items + regexs, ..k0.regexs.list },
            ..k0.regexs
        },
        ..k0
    };
    lemma_read_cmds(l1, cmds, k1);
    let k2 = Kept {
        cmds: Strings {
            list: Items { items: k1.cmds.list.items + cmds, ..k1.cmds.list },
            ..k1.cmds
        },
        ..k1
    };
    assert(k0.regexs.list.items + regexs == regexs);
    assert(k1.cmds.list.items + cmds == cmds);
    assert(read_entries(l2) == Ok::<Kept, Refusal>(k2));
    lemma_read_line("current_regex"@, decimal(regex as nat));
    law_decimal_reads_back(regex);
    assert(l3.drop_last() == l2);
    assert(read_entry(last_regex) == Ok::<Entry, Fault>(Entry::CurrentRegex(regex)));
    let k3 = k2.with_entry(Entry::CurrentRegex(regex));
    assert(read_entries(l3) == Ok::<Kept, Refusal>(k3));
    lemma_read_line("current_cmd"@, decimal(cmd as nat));
    law_decimal_reads_back(cmd);
    assert(l4.drop_last() == l3);
    assert(read_entry(last_cmd) == Ok::<Entry, Fault>(Entry::CurrentCmd(cmd)));
    let k4 = k3.with_entry(Entry::CurrentCmd(cmd));
    assert(read_entries(l4) == Ok::<Kept, Refusal>(k4));
}

proof fn lemma_trim_start_ends(s: Seq<char>, c: char)
    ensures
        trim_start(s).len() > 0 ==> !is_space(trim_start(s)[0]),
        !s.contains(c) ==> !trim_start(s).contains(c),
    decreases s.len(),
{
    if s.len() > 0 && is_space(s[0]) {
        let rest = s.skip(1);
        lemma_trim_start_ends(rest, c);
        if rest.contains(c) {
            let i = choose|i: int| 0 <= i < rest.len() && rest[i] == c;
            assert(s[i + 1] == c);
        }
    }
}

proof fn lemma_trim_end_ends(s: Seq<char>, c: char)
    ensures
        trim_end(s).len() > 0 ==> !is_space(trim_end(s).last()) && trim_end(s)[0] == s[0],
        !s.contains(c) ==> !trim_end(s).contains(c),
    decreases s.len(),
{
    if s.len() > 0 && is_space(s.last()) {
        let rest = s.drop_last();
        lemma_trim_end_ends(rest, c);
        if rest.contains(c) {
            let i = choose|i: int| 0 <= i < rest.len() && rest[i] == c;
            assert(s[i] == c);
        }
    }
}

proof fn lemma_trim_ends(s: Seq<char>, c: char)
    ensures
        trim(s).len() > 0 ==> !is_space(trim(s)[0]) && !is_space(trim(s).last()),
        !s.contains(c) ==> !trim(s).contains(c),
{
    lemma_trim_start_ends(s, c);
    lemma_trim_end_ends(trim_start(s), c);
}

/// The value of a line can be kept.
proof fn lemma_value_keepable(line: Seq<char>)
    requires
        !line.contains('\n'),
        find(line, '=') < line.len(),
    ensures
        keepable(entry_value(line)),
{
    lemma_find(line, '=');
    let rest = line.skip(find(line, '=') + 1);
    lemma_find(rest, '=');
    let part = rest.take(find(rest, '='));
    assert forall|i: int| 0 <= i < part.len() implies part[i] != '=' && part[i] != '\n' by {
        assert(part[i] == rest[i]);
        assert(rest[i] == line[i + find(line, '=') + 1]);
        assert(line.contains(line[i + find(line, '=') + 1]));
    }
    lemma_trim_ends(part, '=');
    lemma_trim_ends(part, '\n');
}

/// No line holds a line feed.
proof fn lemma_lines_end(s: Seq<char>)
    ensures
        forall|i: int| 0 <= i < lines(s).len() ==> !(#[trigger] lines(s)[i]).contains('\n'),
    decreases s.len(),
{
    lemma_find(s, '\n');
    let n = find(s, '\n');
    if s.len() > 0 {
        if n < s.len() {
            lemma_lines_end(s.skip(n + 1));
            assert forall|i: int| 0 <= i < lines(s).len() implies !(#[trigger] lines(
                s,
            )[i]).contains('\n') by {
                if i > 0 {
                    assert(lines(s)[i] == lines(s.skip(n + 1))[i - 1]);
                }
            }
        }
    }
}

/// A list as it is while a profile is read.
spec fn being_read(strings: Strings) -> bool {
    &&& strings == at_rest(strings)
    &&& 0 <= strings.list.cursor_y <= usize::MAX
    &&& forall|i: int|
        0 <= i < strings.list.items.len() ==> keepable(#[trigger] strings.list.items[i])
}

proof fn lemma_entries_keepable(lines: Seq<Seq<char>>)
    requires
        forall|i: int| 0 <= i < lines.len() ==> !(#[trigger] lines[i]).contains('\n'),
    ensures
        read_entries(lines) matches Ok(kept) ==> being_read(kept.regexs) && being_read(kept.cmds),
    decreases lines.len(),
{
    if lines.len() > 0 {
        let init = lines.drop_last();
        assert forall|i: int| 0 <= i < init.len() implies !(#[trigger] init[i]).contains('\n') by {
            assert(init[i] == lines[i]);
        }
        lemma_entries_keepable(init);
        let last = lines[lines.len() - 1];
        let line = trim_start(last);
        lemma_trim_start_ends(last, '\n');
        if line.len() > 0 && find(line, '=') != line.len() {
            lemma_find(line, '=');
            lemma_value_keepable(line);
        }
    }
}

/// A profile that was read is written so that it reads as the same again.
pub proof fn law_read_profile_is_kept(text: Seq<char>)
    requires
        read_profile(text) is Ok,
    ensures
        read_profile(profile_text(read_profile(text)->Ok_0)) == read_profile(text),
{
    let kept = read_profile(text)->Ok_0;
    lemma_lines_end(text);
    lemma_entries_keepable(lines(text));
    law_written_profile_reads_back(kept);
    assert(at_rest(kept.regexs) == kept.regexs);
    assert(at_rest(kept.cmds) == kept.cmds);
}

/// The profile to begin with is one that can be kept.
pub proof fn law_initial_profile_is_kept()
    ensures
        read_profile(profile_text(initial_profile())) == Ok::<Kept, Refusal>(initial_profile()),
{
    let kept = initial_profile();
    reveal_strlit("(\\/?\\b.*?):(\\d+):");
    reveal_strlit("vim +\\2 \\1");
    reveal_strlit("emacs -nw +\\2 \\1");
    assert(!is_space('(') && !is_space(':') && !is_space('v') && !is_space('1') && !is_space('e'));
    assert(keepable("(\\/?\\b.*?):(\\d+):"@));
    assert(keepable("vim +\\2 \\1"@));
    assert(keepable("emacs -nw +\\2 \\1"@));
    law_written_profile_reads_back(kept);
}

} // verus!
