//! What the file of a profile holds, and what is read of such a file.
use crate::line_list::{banner, epilogue};
use crate::profile::{
    items_text, lemma_first_refusal, profile_text, read_entries, read_entry, read_profile, report,
    Entry, Fault, Kept, Refusal,
};
use crate::string_list::{StringListState, Strings};
use crate::text::{
    decimal, is_space, lemma_find_at, lemma_trim_start, lines, number, read_usize, trim, trim_start,
};
use crate::text_laws::{
    all_space, digits, ended, law_decimal_stands_for_number, law_lines_stand_between_feeds,
    law_trim_takes_outer_space, lemma_ended_concat, tight, unbroken,
};
use vstd::prelude::*;

verus! {

/// A line of the file for each item, behind `start`.
pub open spec fn item_lines(start: Seq<char>, items: Seq<Seq<char>>) -> Seq<Seq<char>> {
    Seq::new(items.len(), |i: int| start + items[i])
}

proof fn lemma_items_text(key: Seq<char>, start: Seq<char>, items: Seq<Seq<char>>)
    requires
        start == key + " = "@,
    ensures
        items_text(key, items) == ended(item_lines(start, items)),
    decreases items.len(),
{
    reveal_strlit("\n");
    assert("\n"@ == seq!['\n']);
    let all = item_lines(start, items);
    if items.len() > 0 {
        lemma_items_text(key, start, items.drop_last());
        assert(all.drop_last() == item_lines(start, items.drop_last()));
        assert(all.last() == start + items.last());
        assert(items_text(key, items) == ended(all));
    }
}

proof fn lemma_starts()
    ensures
        "regexs = "@ == "regexs"@ + " = "@,
        "cmds = "@ == "cmds"@ + " = "@,
        "current_regex = "@ == "current_regex"@ + " = "@,
        "current_cmd = "@ == "current_cmd"@ + " = "@,
        "regexs = "@.len() == 9,
        "cmds = "@.len() == 7,
        forall|i: int| 0 <= i < "regexs = "@.len() ==> "regexs = "@[i] != '\n',
        forall|i: int| 0 <= i < "cmds = "@.len() ==> "cmds = "@[i] != '\n',
        forall|i: int| 0 <= i < "current_regex = "@.len() ==> "current_regex = "@[i] != '\n',
        forall|i: int| 0 <= i < "current_cmd = "@.len() ==> "current_cmd = "@[i] != '\n',
{
    reveal_strlit(" = ");
    reveal_strlit("regexs = ");
    reveal_strlit("regexs");
    reveal_strlit("cmds = ");
    reveal_strlit("cmds");
    reveal_strlit("current_regex = ");
    reveal_strlit("current_regex");
    reveal_strlit("current_cmd = ");
    reveal_strlit("current_cmd");
    assert("regexs = "@ =~= "regexs"@ + " = "@);
    assert("cmds = "@ =~= "cmds"@ + " = "@);
    assert("current_regex = "@ =~= "current_regex"@ + " = "@);
    assert("current_cmd = "@ =~= "current_cmd"@ + " = "@);
}

/// The two lines of the file for the cursors.
pub open spec fn cursor_lines(kept: Kept) -> Seq<Seq<char>> {
    seq![
        "current_regex = "@ + decimal(kept.regexs.list.cursor_y as nat),
        "current_cmd = "@ + decimal(kept.cmds.list.cursor_y as nat),
    ]
}

/// The file of a profile is a line for each regex in their order, a line for
/// each command in their order, whatever they hold, and a line for each of
/// the two cursors.
pub proof fn law_file_holds_every_item(kept: Kept)
    ensures
        profile_text(kept) == ended(
            item_lines("regexs = "@, kept.regexs.list.items) + item_lines(
                "cmds = "@,
                kept.cmds.list.items,
            ) + cursor_lines(kept),
        ),
{
    lemma_starts();
    reveal_strlit("\n");
    assert("\n"@ == seq!['\n']);
    let a = item_lines("regexs = "@, kept.regexs.list.items);
    let b = item_lines("cmds = "@, kept.cmds.list.items);
    let c = cursor_lines(kept);
    lemma_items_text("regexs"@, "regexs = "@, kept.regexs.list.items);
    lemma_items_text("cmds"@, "cmds = "@, kept.cmds.list.items);
    lemma_ended_concat(a + b, c);
    lemma_ended_concat(a, b);
    reveal_with_fuel(ended, 3);
    assert(c.drop_last().drop_last() == Seq::<Seq<char>>::empty());
    assert(c.drop_last().last() == c[0]);
    assert(c.last() == c[1]);
    assert(ended(c) == c[0] + seq!['\n'] + c[1] + seq!['\n']);
    assert(profile_text(kept) == ended(a) + ended(b) + ended(c));
}

/// Where no item holds a line feed, the lines of the file are these: one
/// `regexs = item` for each regex, one `cmds = item` for each command, and
/// the two of the cursors.
pub proof fn law_file_lines(kept: Kept)
    requires
        unbroken(kept.regexs.list.items),
        unbroken(kept.cmds.list.items),
    ensures
        ({
            let regexs = kept.regexs.list.items;
            let cmds = kept.cmds.list.items;
            let file = lines(profile_text(kept));
            &&& file.len() == regexs.len() + cmds.len() + 2
            &&& forall|i: int|
                0 <= i < regexs.len() ==> #[trigger] file[i] == "regexs = "@ + regexs[i]
            &&& forall|i: int|
                regexs.len() <= i < regexs.len() + cmds.len() ==> #[trigger] file[i]
                    == "cmds = "@ + cmds[i - regexs.len()]
            &&& file[file.len() - 2] == "current_regex = "@ + decimal(
                kept.regexs.list.cursor_y as nat,
            )
            &&& file[file.len() - 1] == "current_cmd = "@ + decimal(
                kept.cmds.list.cursor_y as nat,
            )
        }),
{
    law_file_holds_every_item(kept);
    lemma_starts();
    let a = item_lines("regexs = "@, kept.regexs.list.items);
    let b = item_lines("cmds = "@, kept.cmds.list.items);
    let all = a + b + cursor_lines(kept);
    assert forall|i: int| 0 <= i < all.len() implies !(#[trigger] all[i]).contains('\n') by {
        if i < a.len() {
            lemma_unbroken_line("regexs = "@, kept.regexs.list.items[i]);
        } else if i < a.len() + b.len() {
            lemma_unbroken_line("cmds = "@, kept.cmds.list.items[i - a.len()]);
        } else if i == a.len() + b.len() {
            lemma_digits_unbroken(kept.regexs.list.cursor_y as nat);
            lemma_unbroken_line("current_regex = "@, decimal(kept.regexs.list.cursor_y as nat));
        } else {
            lemma_digits_unbroken(kept.cmds.list.cursor_y as nat);
            lemma_unbroken_line("current_cmd = "@, decimal(kept.cmds.list.cursor_y as nat));
        }
    }
    law_lines_stand_between_feeds(all, Seq::empty());
    assert(ended(all) + Seq::<char>::empty() == ended(all));
}

proof fn lemma_unbroken_line(start: Seq<char>, value: Seq<char>)
    requires
        forall|i: int| 0 <= i < start.len() ==> start[i] != '\n',
        !value.contains('\n'),
    ensures
        !(start + value).contains('\n'),
{
    let s = start + value;
    assert forall|i: int| 0 <= i < s.len() implies s[i] != '\n' by {
        if i >= start.len() {
            assert(s[i] == value[i - start.len()]);
            assert(value.contains(value[i - start.len()]));
        }
    }
}

proof fn lemma_digits_unbroken(n: nat)
    ensures
        !decimal(n).contains('\n'),
{
    law_decimal_stands_for_number(n);
}

/// A line of a file as a user may write it: a key and a value round an equals
/// sign, with white space round both, and anything behind a second equals
/// sign.
pub struct Written {
    pub lead: Seq<char>,
    pub key: Seq<char>,
    pub mid: Seq<char>,
    pub gap: Seq<char>,
    pub value: Seq<char>,
    pub trail: Seq<char>,
    pub tail: Seq<char>,
}

impl Written {
    /// The parts are what they are meant to be.
    pub open spec fn wf(self) -> bool {
        &&& all_space(self.lead) && all_space(self.mid) && all_space(self.gap) && all_space(
            self.trail,
        )
        &&& tight(self.key) && !self.key.contains('=')
        &&& tight(self.value) && !self.value.contains('=')
        &&& self.tail.len() > 0 ==> self.tail[0] == '='
    }

    /// The line.
    pub open spec fn line(self) -> Seq<char> {
        self.lead + self.key + self.mid + seq!['='] + self.gap + self.value + self.trail
            + self.tail
    }

    /// Whether the line is one that a profile can hold.
    pub open spec fn good(self) -> bool {
        ||| self.key == "regexs"@
        ||| self.key == "cmds"@
        ||| self.key == "current_regex"@ && read_usize(self.value) is Some
        ||| self.key == "current_cmd"@ && read_usize(self.value) is Some
    }
}

proof fn lemma_distinct_keys()
    ensures
        "regexs"@ != "cmds"@,
        "regexs"@ != "current_regex"@,
        "regexs"@ != "current_cmd"@,
        "cmds"@ != "current_regex"@,
        "cmds"@ != "current_cmd"@,
        "current_regex"@ != "current_cmd"@,
{
    reveal_strlit("regexs");
    reveal_strlit("cmds");
    reveal_strlit("current_regex");
    reveal_strlit("current_cmd");
    assert("regexs"@.len() == 6);
    assert("cmds"@.len() == 4);
    assert("current_regex"@.len() == 13);
    assert("current_cmd"@.len() == 11);
}

/// What a line says goes by its key and its value alone, and not by the white
/// space round them or by what stands behind a second equals sign.
pub proof fn law_line_goes_by_key_and_value(w: Written)
    requires
        w.wf(),
    ensures
        w.key == "regexs"@ ==> read_entry(w.line()) == Ok::<Entry, Fault>(Entry::Regex(w.value)),
        w.key == "cmds"@ ==> read_entry(w.line()) == Ok::<Entry, Fault>(Entry::Cmd(w.value)),
        w.key == "current_regex"@ ==> read_entry(w.line()) == match read_usize(w.value) {
            Some(n) => Ok::<Entry, Fault>(Entry::CurrentRegex(n)),
            None => Err(Fault::NotANumber),
        },
        w.key == "current_cmd"@ ==> read_entry(w.line()) == match read_usize(w.value) {
            Some(n) => Ok::<Entry, Fault>(Entry::CurrentCmd(n)),
            None => Err(Fault::NotANumber),
        },
        w.key != "regexs"@ && w.key != "cmds"@ && w.key != "current_regex"@ && w.key
            != "current_cmd"@ ==> read_entry(w.line()) == Err::<Entry, Fault>(
            Fault::UnknownKey(w.key),
        ),
{
    lemma_distinct_keys();
    let line = w.line();
    let none = Seq::<char>::empty();
    let rest = w.gap + w.value + w.trail + w.tail;
    let head = if w.key.len() > 0 {
        w.key + w.mid
    } else {
        none
    };
    let n = if w.key.len() > 0 {
        w.lead.len() as int
    } else {
        w.lead.len() as int + w.mid.len()
    };
    assert(!is_space('='));
    assert forall|i: int| 0 <= i < n implies is_space(line[i]) by {
        if i < w.lead.len() {
            assert(line[i] == w.lead[i]);
        } else {
            assert(line[i] == w.mid[i - w.lead.len()]);
        }
    }
    if w.key.len() > 0 {
        assert(line[n] == w.key[0]);
    } else {
        assert(line[n] == '=');
    }
    lemma_trim_start(line, n);
    let core = trim_start(line);
    assert(core =~= head + seq!['='] + rest);
    let at = head.len() as int;
    assert forall|i: int| 0 <= i < at implies core[i] != '=' by {
        if i < w.key.len() {
            assert(core[i] == w.key[i]);
            assert(w.key.contains(w.key[i]));
        } else {
            assert(core[i] == w.mid[i - w.key.len()]);
            assert(is_space(w.mid[i - w.key.len()]));
        }
    }
    assert(core[at] == '=');
    lemma_find_at(core, '=', at);
    assert(core.take(at) =~= head);
    if w.key.len() > 0 {
        law_trim_takes_outer_space(none, w.key, w.mid);
        assert(none + w.key + w.mid =~= head);
    } else {
        law_trim_takes_outer_space(none, w.key, none);
        assert(none + w.key + none =~= head);
    }
    assert(trim(core.take(at)) == w.key);
    assert(core.skip(at + 1) =~= rest);
    let inner = w.gap + w.value + w.trail;
    let m = inner.len() as int;
    assert forall|i: int| 0 <= i < m implies rest[i] != '=' by {
        if i < w.gap.len() {
            assert(rest[i] == w.gap[i]);
            assert(is_space(w.gap[i]));
        } else if i < w.gap.len() + w.value.len() {
            assert(rest[i] == w.value[i - w.gap.len()]);
            assert(w.value.contains(w.value[i - w.gap.len()]));
        } else {
            assert(rest[i] == w.trail[i - w.gap.len() - w.value.len()]);
            assert(is_space(w.trail[i - w.gap.len() - w.value.len()]));
        }
    }
    if w.tail.len() > 0 {
        assert(rest[m] == w.tail[0]);
    }
    lemma_find_at(rest, '=', m);
    assert(rest.take(m) =~= inner);
    law_trim_takes_outer_space(w.gap, w.value, w.trail);
}

/// A line of white space says nothing, and a line with text but without an
/// equals sign lacks a value.
pub proof fn law_line_without_value(line: Seq<char>)
    ensures
        all_space(line) ==> read_entry(line) == Ok::<Entry, Fault>(Entry::Blank),
        !all_space(line) && !line.contains('=') ==> read_entry(line) == Err::<Entry, Fault>(
            Fault::NoValue,
        ),
{
    let none = Seq::<char>::empty();
    if all_space(line) {
        law_trim_takes_outer_space(line, none, none);
        assert(line + none + none == line);
    } else if !line.contains('=') {
        lemma_trim_start_keeps(line);
        let t = trim_start(line);
        assert forall|i: int| 0 <= i < t.len() implies t[i] != '=' by {
            assert(t.contains(t[i]));
        }
        lemma_find_at(t, '=', t.len() as int);
    }
}

proof fn lemma_trim_start_keeps(s: Seq<char>)
    ensures
        !all_space(s) ==> trim_start(s).len() > 0,
        !s.contains('=') ==> !trim_start(s).contains('='),
    decreases s.len(),
{
    if s.len() > 0 && is_space(s[0]) {
        let rest = s.skip(1);
        lemma_trim_start_keeps(rest);
        if !all_space(s) {
            let i = choose|i: int| 0 <= i < s.len() && !is_space(#[trigger] s[i]);
            assert(rest[i - 1] == s[i]);
        }
        if rest.contains('=') {
            let i = choose|i: int| 0 <= i < rest.len() && rest[i] == '=';
            assert(s[i + 1] == '=');
        }
    }
}

/// A line of a file that can be read: white space, or an entry.
pub enum Form {
    Blank(Seq<char>),
    Entry(Written),
}

impl Form {
    /// The line.
    pub open spec fn line(self) -> Seq<char> {
        match self {
            Form::Blank(space) => space,
            Form::Entry(w) => w.line(),
        }
    }

    /// Whether the line can be read.
    pub open spec fn good(self) -> bool {
        match self {
            Form::Blank(space) => all_space(space),
            Form::Entry(w) => w.wf() && w.good(),
        }
    }

    /// The value of the line if it is one for `key`.
    pub open spec fn value(self, key: Seq<char>) -> Option<Seq<char>> {
        match self {
            Form::Blank(_) => None,
            Form::Entry(w) => if w.key == key {
                Some(w.value)
            } else {
                None
            },
        }
    }
}

/// Whether all lines can be read.
pub open spec fn all_good(forms: Seq<Form>) -> bool {
    forall|i: int| 0 <= i < forms.len() ==> (#[trigger] forms[i]).good()
}

/// The lines.
pub open spec fn form_lines(forms: Seq<Form>) -> Seq<Seq<char>> {
    Seq::new(forms.len(), |i: int| forms[i].line())
}

/// The values of the lines for `key`, in their order.
pub open spec fn values(forms: Seq<Form>, key: Seq<char>) -> Seq<Seq<char>> {
    forms.filter_map(|form: Form| form.value(key))
}

/// The number that the last of the lines for `key` gives, or 0 without one.
pub open spec fn last_number(forms: Seq<Form>, key: Seq<char>) -> int {
    let all = values(forms, key);
    if all.len() > 0 {
        read_usize(all[all.len() - 1])->Some_0 as int
    } else {
        0
    }
}

/// Whether `list` is at rest, with these items and the cursor there.
pub open spec fn rests(list: Strings, items: Seq<Seq<char>>, cursor_y: int) -> bool {
    &&& list.state == StringListState::Navigate
    &&& list.list.items == items
    &&& list.list.cursor_y == cursor_y
    &&& list.list.cursor_x == 0
    &&& list.field.before.len() == 0
    &&& list.field.after.len() == 0
}

proof fn lemma_forms_read(forms: Seq<Form>)
    requires
        all_good(forms),
    ensures
        read_entries(form_lines(forms)) matches Ok(kept) && rests(
            kept.regexs,
            values(forms, "regexs"@),
            last_number(forms, "current_regex"@),
        ) && rests(kept.cmds, values(forms, "cmds"@), last_number(forms, "current_cmd"@)),
    decreases forms.len(),
{
    if forms.len() > 0 {
        lemma_distinct_keys();
        let init = forms.drop_last();
        let last = forms[forms.len() - 1];
        assert forall|i: int| 0 <= i < init.len() implies (#[trigger] init[i]).good() by {
            assert(init[i] == forms[i]);
        }
        lemma_forms_read(init);
        let file = form_lines(forms);
        assert(file.drop_last() == form_lines(init));
        assert(file.last() == last.line());
        assert(last.good());
        match last {
            Form::Blank(space) => {
                law_line_without_value(space);
            },
            Form::Entry(w) => {
                law_line_goes_by_key_and_value(w);
            },
        }
        let kept = read_entries(form_lines(init))->Ok_0;
        assert(values(forms, "regexs"@) == match last.value("regexs"@) {
            Some(v) => values(init, "regexs"@).push(v),
            None => values(init, "regexs"@),
        });
        assert(values(forms, "cmds"@) == match last.value("cmds"@) {
            Some(v) => values(init, "cmds"@).push(v),
            None => values(init, "cmds"@),
        });
        assert(values(forms, "current_regex"@) == match last.value("current_regex"@) {
            Some(v) => values(init, "current_regex"@).push(v),
            None => values(init, "current_regex"@),
        });
        assert(values(forms, "current_cmd"@) == match last.value("current_cmd"@) {
            Some(v) => values(init, "current_cmd"@).push(v),
            None => values(init, "current_cmd"@),
        });
    }
}

/// Whether the lines of `text` are `file`: each ends with a line feed, but
/// the last need not.
pub open spec fn has_lines(text: Seq<char>, file: Seq<Seq<char>>) -> bool {
    &&& unbroken(file)
    &&& text == ended(file) || (file.len() > 0 && file.last().len() > 0 && text == ended(
        file.drop_last(),
    ) + file.last())
}

proof fn lemma_has_lines(text: Seq<char>, file: Seq<Seq<char>>)
    requires
        has_lines(text, file),
    ensures
        lines(text) == file,
{
    let none = Seq::<char>::empty();
    if text == ended(file) {
        law_lines_stand_between_feeds(file, none);
        assert(ended(file) + none == ended(file));
    } else {
        let init = file.drop_last();
        assert forall|i: int| 0 <= i < init.len() implies !(#[trigger] init[i]).contains('\n') by {
            assert(init[i] == file[i]);
        }
        assert(!file[file.len() - 1].contains('\n'));
        law_lines_stand_between_feeds(init, file.last());
        assert(init.push(file.last()) == file);
    }
}

/// The lesser of two numbers.
pub open spec fn lesser(a: int, b: int) -> int {
    if a < b {
        a
    } else {
        b
    }
}

/// What is read of a file whose lines can all be read: the regexs and the
/// commands in their order, and the cursors that the last lines for them
/// give, but none behind the last item. There must be a regex and a command.
pub proof fn law_file_is_read(text: Seq<char>, forms: Seq<Form>)
    requires
        all_good(forms),
        has_lines(text, form_lines(forms)),
    ensures
        ({
            let regexs = values(forms, "regexs"@);
            let cmds = values(forms, "cmds"@);
            &&& regexs.len() == 0 ==> read_profile(text) == Err::<Kept, Refusal>(
                Refusal::NoRegexs,
            )
            &&& regexs.len() > 0 && cmds.len() == 0 ==> read_profile(text) == Err::<
                Kept,
                Refusal,
            >(Refusal::NoCmds)
            &&& regexs.len() > 0 && cmds.len() > 0 ==> (read_profile(text) matches Ok(kept)
                && rests(
                kept.regexs,
                regexs,
                lesser(last_number(forms, "current_regex"@), regexs.len() - 1),
            ) && rests(
                kept.cmds,
                cmds,
                lesser(last_number(forms, "current_cmd"@), cmds.len() - 1),
            ))
        }),
{
    lemma_has_lines(text, form_lines(forms));
    lemma_forms_read(forms);
}

/// What is wrong with a line.
pub open spec fn wrong(line: Seq<char>, fault: Fault) -> bool {
    match fault {
        Fault::NoValue => !all_space(line) && !line.contains('='),
        Fault::NotANumber => exists|w: Written| #[trigger]
            w.line() == line && w.wf() && (w.key == "current_regex"@ || w.key == "current_cmd"@)
                && read_usize(w.value) is None,
        Fault::UnknownKey(key) => exists|w: Written| #[trigger]
            w.line() == line && w.wf() && w.key == key && key != "regexs"@ && key != "cmds"@ && key
                != "current_regex"@ && key != "current_cmd"@,
    }
}

/// The first line that is wrong is the one that is reported, counted from 1,
/// with what is wrong with it. What follows it does not matter.
pub proof fn law_first_wrong_line(
    text: Seq<char>,
    forms: Seq<Form>,
    line: Seq<char>,
    fault: Fault,
    rest: Seq<Seq<char>>,
)
    requires
        all_good(forms),
        wrong(line, fault),
        has_lines(text, form_lines(forms) + seq![line] + rest),
    ensures
        read_profile(text) == Err::<Kept, Refusal>(
            Refusal::Line { number: forms.len() as int + 1, fault },
        ),
{
    let good = form_lines(forms);
    let file = good + seq![line] + rest;
    lemma_has_lines(text, file);
    lemma_forms_read(forms);
    lemma_distinct_keys();
    match fault {
        Fault::NoValue => {
            law_line_without_value(line);
        },
        Fault::NotANumber => {
            let w = choose|w: Written| #[trigger]
                w.line() == line && w.wf() && (w.key == "current_regex"@ || w.key
                    == "current_cmd"@) && read_usize(w.value) is None;
            law_line_goes_by_key_and_value(w);
        },
        Fault::UnknownKey(key) => {
            let w = choose|w: Written| #[trigger]
                w.line() == line && w.wf() && w.key == key && key != "regexs"@ && key != "cmds"@
                    && key != "current_regex"@ && key != "current_cmd"@;
            law_line_goes_by_key_and_value(w);
        },
    }
    assert(read_entry(line) == Err::<Entry, Fault>(fault));
    let n = good.len() as int + 1;
    let upto = file.take(n);
    assert(upto.drop_last() =~= good);
    assert(upto.last() == line);
    assert(read_entries(upto) == Err::<Kept, Refusal>(Refusal::Line { number: n, fault }));
    lemma_first_refusal(file, n);
}

/// The report of a line names the file, the number of the line in digits, and
/// what is wrong.
pub proof fn law_report_names_place(path: Seq<char>, n: nat, key: Seq<char>) -> (d: Seq<char>)
    ensures
        digits(d),
        number(d) == n,
        n > 0 ==> d[0] != '0',
        report(path, n as int, Fault::NoValue) == path + ":"@ + d + ": "@
            + "Value is not provided"@,
        report(path, n as int, Fault::NotANumber) == path + ":"@ + d + ": "@ + "Not a number"@,
        report(path, n as int, Fault::UnknownKey(key)) == path + ":"@ + d + ": "@ + (
        "Unknown key "@ + key),
{
    law_decimal_stands_for_number(n);
    decimal(n)
}

/// The first line of an output names the process, in digits, and the command.
pub proof fn law_banner_names_process(pid: u32, shell: Seq<char>) -> (d: Seq<char>)
    ensures
        digits(d),
        number(d) == pid,
        pid > 0 ==> d[0] != '0',
        banner(pid, shell) == "PID: "@ + d + ", Command: "@ + shell,
{
    law_decimal_stands_for_number(pid as nat);
    decimal(pid as nat)
}

/// The last line of an output tells the exit code, in digits and with its
/// sign, or that a signal ended the command.
pub proof fn law_epilogue_tells_code(code: i32) -> (d: Seq<char>)
    ensures
        digits(d),
        code >= 0 ==> number(d) == code,
        code < 0 ==> number(d) == -(code as int),
        code != 0 ==> d[0] != '0',
        code >= 0 ==> epilogue(Some(code)) == "-- Execution Finished with status code: "@ + d
            + " --"@,
        code < 0 ==> epilogue(Some(code)) == "-- Execution Finished with status code: "@ + (
        seq!['-'] + d) + " --"@,
        epilogue(None) == "-- Execution Terminated by a signal --"@,
{
    let n: nat = if code < 0 {
        (-(code as int)) as nat
    } else {
        code as nat
    };
    law_decimal_stands_for_number(n);
    decimal(n)
}

} // verus!
