//! What the screen shows, and where.
use crate::edit_field::{blanks, Edit};
use crate::global::{Focus, Global};
use crate::item_list::{page_top, visible, Items};
use crate::line_list::{group_mark, group_marks, lines_drawing, marks, match_style};
use crate::regex::{pcre2_compile_error, pcre2_first_match, Span};
use crate::screen::{drawn, Draw, Drawn, Rect, Style};
use crate::session::State;
use crate::status_line::{Shown, Status};
use crate::string_list::Strings;
use crate::cmdline_laws::{in_use, none_in_use};
use crate::text::{byte_len, byte_slice, law_offsets_name_part, lemma_byte_slice_len, trim_end};
use crate::text_laws::all_space;
use vstd::arithmetic::div_mod::{lemma_fundamental_div_mod, lemma_mod_bound};
use vstd::prelude::*;

verus! {

/// The index of the item on the `i`th row of a page of `h` rows: the pages
/// follow one another, and the one that is shown holds the cursor.
pub open spec fn shown_index(list: Items, h: int, i: int) -> int {
    list.cursor_y - list.cursor_y % h + i
}

/// Whether there is an item on the `i`th row of `rect`.
pub open spec fn on_row(list: Items, rect: Rect, i: int) -> bool {
    0 <= i < rect.h && shown_index(list, rect.h as int, i) < list.items.len()
}

/// The item on the `i`th row of `rect`.
pub open spec fn shown_item(list: Items, rect: Rect, i: int) -> Seq<char> {
    list.items[shown_index(list, rect.h as int, i)]
}

proof fn lemma_page(list: Items, rect: Rect)
    requires
        rect.h > 0,
    ensures
        page_top(list.cursor_y, rect.h as int) == list.cursor_y - list.cursor_y % (rect.h as int),
        0 <= list.cursor_y % (rect.h as int) < rect.h,
{
    let h = rect.h as int;
    lemma_fundamental_div_mod(list.cursor_y, h);
    lemma_mod_bound(list.cursor_y, h);
    assert((list.cursor_y / h) * h == h * (list.cursor_y / h)) by (nonlinear_arith);
}

proof fn lemma_rows(list: Items, rect: Rect, i: int)
    requires
        list.cursor_y >= 0,
    ensures
        0 <= i < list.rows(rect) <==> on_row(list, rect, i),
        on_row(list, rect, i) ==> list.row_item(rect, i) == shown_item(list, rect, i),
{
    if rect.h > 0 {
        lemma_page(list, rect);
    }
}

/// A list takes one row for each item on the page that holds the cursor, from
/// the top of its part of the screen on and in the order of the items. The
/// row of the selected item alone is set off, by whether the list has the
/// focus.
pub proof fn law_rows_show_page(list: Items, rect: Rect, focused: bool, i: int)
    requires
        list.cursor_y >= 0,
    ensures
        0 <= i < list.drawing(rect, focused).len() <==> on_row(list, rect, i),
        on_row(list, rect, i) ==> {
            let row = list.drawing(rect, focused)[i];
            &&& row.y == rect.y + i
            &&& row.x == rect.x
            &&& shown_index(list, rect.h as int, i) != list.cursor_y ==> row.style
                == Style::Regular
            &&& shown_index(list, rect.h as int, i) == list.cursor_y && focused ==> row.style
                == Style::Cursor
            &&& shown_index(list, rect.h as int, i) == list.cursor_y && !focused ==> row.style
                == Style::UnfocusedCursor
        },
{
    lemma_rows(list, rect, i);
}

/// A row shows its item from the byte that the list is scrolled to, as far as
/// the columns go, without the white space at its end.
pub proof fn law_row_shows_item(
    list: Items,
    rect: Rect,
    focused: bool,
    i: int,
    left: Seq<char>,
    part: Seq<char>,
    right: Seq<char>,
    space: Seq<char>,
)
    requires
        list.cursor_y >= 0,
        on_row(list, rect, i),
        shown_item(list, rect, i) == left + part + right + space,
        all_space(space),
        trim_end(left + part + right) == left + part + right,
        byte_len(left) == list.cursor_x,
        byte_len(part) == rect.w || (right.len() == 0 && byte_len(part) <= rect.w),
    ensures
        0 <= i < list.drawing(rect, focused).len(),
        list.drawing(rect, focused)[i].text == part,
{
    lemma_rows(list, rect, i);
    let s = left + part + right;
    lemma_trim_tail(s, space);
    law_offsets_name_part(left, part, right);
    crate::text::lemma_concat_boundary(left + part, right);
    crate::text::lemma_concat_boundary(left, part);
    assert(right.len() == 0 ==> byte_len(right) == 0);
    assert(visible(shown_item(list, rect, i), list.cursor_x, rect.w as int) == part);
}

proof fn lemma_trim_tail(s: Seq<char>, space: Seq<char>)
    requires
        all_space(space),
    ensures
        trim_end(s + space) == trim_end(s),
    decreases space.len(),
{
    let t = s + space;
    if space.len() == 0 {
        assert(t == s);
    } else {
        assert(t.last() == space[space.len() - 1]);
        assert(t.drop_last() == s + space.drop_last());
        lemma_trim_tail(s, space.drop_last());
    }
}

/// Where a list is scrolled beyond an item, the row of the item is empty.
pub proof fn law_row_is_scrolled_out(list: Items, rect: Rect, focused: bool, i: int)
    requires
        list.cursor_y >= 0,
        on_row(list, rect, i),
        byte_len(trim_end(shown_item(list, rect, i))) <= list.cursor_x,
    ensures
        list.drawing(rect, focused)[i].text.len() == 0,
{
    lemma_rows(list, rect, i);
    let s = trim_end(shown_item(list, rect, i));
    let t = visible(shown_item(list, rect, i), list.cursor_x, rect.w as int);
    if t.len() > 0 {
        let end = if list.cursor_x + rect.w < byte_len(s) {
            list.cursor_x + rect.w
        } else {
            byte_len(s) as int
        };
        lemma_byte_slice_len(s, list.cursor_x, end);
        vstd::utf8::encode_utf8_first_scalar(t);
    }
}

/// Counted in bytes, a row shows its item, without the white space at its
/// end, from the byte that the list is scrolled to, up to the width or to the
/// end of the item. Where one of these falls inside a character it is empty.
pub proof fn law_row_by_bytes(list: Items, rect: Rect, focused: bool, i: int)
    requires
        list.cursor_y >= 0,
        on_row(list, rect, i),
    ensures
        ({
            let item = trim_end(shown_item(list, rect, i));
            let text = list.drawing(rect, focused)[i].text;
            &&& list.cursor_x + rect.w <= byte_len(item) ==> text == byte_slice(
                item,
                list.cursor_x,
                list.cursor_x + rect.w,
            )
            &&& list.cursor_x + rect.w >= byte_len(item) ==> text == byte_slice(
                item,
                list.cursor_x,
                byte_len(item) as int,
            )
        }),
{
    lemma_rows(list, rect, i);
}

/// How a mark on the `i`th row looks: it is set off against the row of the
/// selected line, by whether the lines have the focus.
pub open spec fn mark_style(lines: Items, h: int, focused: bool, i: int) -> Style {
    if shown_index(lines, h, i) != lines.cursor_y {
        Style::Match
    } else if focused {
        Style::MatchCursor
    } else {
        Style::UnfocusedMatchCursor
    }
}

/// The first byte of what a group captured that is seen.
pub open spec fn seen_from(lines: Items, span: Span) -> int {
    if span.0 < lines.cursor_x {
        lines.cursor_x
    } else {
        span.0 as int
    }
}

/// The end of what a group captured that is seen through `w` columns.
pub open spec fn seen_to(lines: Items, w: int, span: Span) -> int {
    if span.1 > lines.cursor_x + w {
        lines.cursor_x + w
    } else {
        span.1 as int
    }
}

/// Where the mark of the group `g` on the row `i` comes among the marks.
spec fn mark_index(
    lines: Items,
    rect: Rect,
    focused: bool,
    pattern: Seq<char>,
    i: int,
    groups: Seq<Option<Span>>,
    g: int,
) -> int {
    marks(lines, rect, focused, pattern, i).len() as int + group_marks(
        lines.cursor_x,
        rect,
        match_style(lines.selected_row(i, rect.h as int), focused),
        i,
        lines.row_item(rect, i),
        groups,
        g,
    ).len()
}

proof fn lemma_group_marks_prefix(
    cursor_x: int,
    rect: Rect,
    style: Style,
    i: int,
    line: Seq<char>,
    groups: Seq<Option<Span>>,
    n: int,
    m: int,
)
    requires
        n <= m,
    ensures
        ({
            let a = group_marks(cursor_x, rect, style, i, line, groups, n);
            let b = group_marks(cursor_x, rect, style, i, line, groups, m);
            a.len() <= b.len() && b.take(a.len() as int) == a
        }),
    decreases m - n,
{
    let a = group_marks(cursor_x, rect, style, i, line, groups, n);
    let b = group_marks(cursor_x, rect, style, i, line, groups, m);
    if n < m {
        lemma_group_marks_prefix(cursor_x, rect, style, i, line, groups, n, m - 1);
        let c = group_marks(cursor_x, rect, style, i, line, groups, m - 1);
        if m > 1 {
            assert(b.take(a.len() as int) == c.take(a.len() as int));
        } else {
            assert(a == Seq::<Drawn>::empty());
            assert(b.take(0) == a);
        }
    } else {
        assert(b.take(a.len() as int) == a);
    }
}

proof fn lemma_marks_prefix(
    lines: Items,
    rect: Rect,
    focused: bool,
    pattern: Seq<char>,
    n: int,
    m: int,
)
    requires
        n <= m,
    ensures
        ({
            let a = marks(lines, rect, focused, pattern, n);
            let b = marks(lines, rect, focused, pattern, m);
            a.len() <= b.len() && b.take(a.len() as int) == a
        }),
    decreases m - n,
{
    let a = marks(lines, rect, focused, pattern, n);
    let b = marks(lines, rect, focused, pattern, m);
    if n < m {
        lemma_marks_prefix(lines, rect, focused, pattern, n, m - 1);
        let c = marks(lines, rect, focused, pattern, m - 1);
        if m > 0 {
            assert(b.take(a.len() as int) == c.take(a.len() as int));
        } else {
            assert(a == Seq::<Drawn>::empty());
            assert(b.take(0) == a);
        }
    } else {
        assert(b.take(a.len() as int) == a);
    }
}

proof fn lemma_mark_at(
    lines: Items,
    rect: Rect,
    focused: bool,
    pattern: Seq<char>,
    i: int,
    groups: Seq<Option<Span>>,
    g: int,
    span: Span,
    n: int,
)
    requires
        0 <= i < n,
        pcre2_first_match(pattern, lines.row_item(rect, i)) == Some(Some(groups)),
        1 <= g < groups.len(),
        groups[g] == Some(span),
        seen_from(lines, span) != seen_to(lines, rect.w as int, span),
    ensures
        ({
            let k = mark_index(lines, rect, focused, pattern, i, groups, g);
            let start = seen_from(lines, span);
            let end = seen_to(lines, rect.w as int, span);
            &&& 0 <= k < marks(lines, rect, focused, pattern, n).len()
            &&& marks(lines, rect, focused, pattern, n)[k] == (Drawn {
                y: rect.y + i,
                x: start - lines.cursor_x + rect.x,
                style: match_style(lines.selected_row(i, rect.h as int), focused),
                text: byte_slice(lines.row_item(rect, i), start, end),
            })
        }),
{
    let style = match_style(lines.selected_row(i, rect.h as int), focused);
    let item = lines.row_item(rect, i);
    let len = groups.len() as int;
    lemma_marks_prefix(lines, rect, focused, pattern, i + 1, n);
    lemma_group_marks_prefix(lines.cursor_x, rect, style, i, item, groups, g + 1, len);
    let before = group_marks(lines.cursor_x, rect, style, i, item, groups, g);
    let with = group_marks(lines.cursor_x, rect, style, i, item, groups, g + 1);
    let row = group_marks(lines.cursor_x, rect, style, i, item, groups, len);
    let mark = group_mark(lines.cursor_x, rect, style, i, item, groups[g]);
    assert(with == before + mark);
    assert(mark.len() == 1);
    assert(row[before.len() as int] == row.take(with.len() as int)[before.len() as int]);
    let above = marks(lines, rect, focused, pattern, i);
    let upto = marks(lines, rect, focused, pattern, i + 1);
    let all = marks(lines, rect, focused, pattern, n);
    assert(upto == above + row);
    let k = above.len() + before.len();
    assert(all[k as int] == all.take(upto.len() as int)[k as int]);
}

/// What each group of the first match on a line captured is marked, as far as
/// it is seen, on the row on which that line is shown. This holds on every
/// page. The marks are put over the lines.
pub proof fn law_captures_are_marked(
    lines: Items,
    rect: Rect,
    focused: bool,
    pattern: Seq<char>,
    i: int,
    groups: Seq<Option<Span>>,
    g: int,
    span: Span,
) -> (k: int)
    requires
        lines.cursor_y >= 0,
        on_row(lines, rect, i),
        pcre2_first_match(pattern, shown_item(lines, rect, i)) == Some(Some(groups)),
        1 <= g < groups.len(),
        groups[g] == Some(span),
        seen_from(lines, span) < seen_to(lines, rect.w as int, span),
    ensures
        lines.drawing(rect, focused).len() <= k < lines_drawing(
            lines,
            rect,
            focused,
            Some(pattern),
        ).len(),
        lines_drawing(lines, rect, focused, Some(pattern))[k] == (Drawn {
            y: rect.y + i,
            x: rect.x + (seen_from(lines, span) - lines.cursor_x),
            style: mark_style(lines, rect.h as int, focused, i),
            text: byte_slice(
                shown_item(lines, rect, i),
                seen_from(lines, span),
                seen_to(lines, rect.w as int, span),
            ),
        }),
{
    lemma_rows(lines, rect, i);
    lemma_page(lines, rect);
    let n = lines.rows(rect) as int;
    lemma_mark_at(lines, rect, focused, pattern, i, groups, g, span, n);
    mark_index(lines, rect, focused, pattern, i, groups, g) + lines.drawing(rect, focused).len()
}

/// Of two groups on a line that are seen, the later one is marked over the
/// earlier one.
pub proof fn law_later_groups_on_top(
    lines: Items,
    rect: Rect,
    focused: bool,
    pattern: Seq<char>,
    i: int,
    groups: Seq<Option<Span>>,
    g1: int,
    g2: int,
) -> (ks: (int, int))
    requires
        lines.cursor_y >= 0,
        on_row(lines, rect, i),
        pcre2_first_match(pattern, shown_item(lines, rect, i)) == Some(Some(groups)),
        1 <= g1 < g2 < groups.len(),
        groups[g1] is Some,
        groups[g2] is Some,
        seen_from(lines, groups[g1]->Some_0) < seen_to(
            lines,
            rect.w as int,
            groups[g1]->Some_0,
        ),
        seen_from(lines, groups[g2]->Some_0) < seen_to(
            lines,
            rect.w as int,
            groups[g2]->Some_0,
        ),
    ensures
        ({
            let all = lines_drawing(lines, rect, focused, Some(pattern));
            let item = shown_item(lines, rect, i);
            let s1 = groups[g1]->Some_0;
            let s2 = groups[g2]->Some_0;
            &&& 0 <= ks.0 < ks.1 < all.len()
            &&& all[ks.0].y == rect.y + i && all[ks.1].y == rect.y + i
            &&& all[ks.0].text == byte_slice(
                item,
                seen_from(lines, s1),
                seen_to(lines, rect.w as int, s1),
            )
            &&& all[ks.1].text == byte_slice(
                item,
                seen_from(lines, s2),
                seen_to(lines, rect.w as int, s2),
            )
            &&& all[ks.0].x == rect.x + (seen_from(lines, s1) - lines.cursor_x)
            &&& all[ks.1].x == rect.x + (seen_from(lines, s2) - lines.cursor_x)
        }),
{
    lemma_rows(lines, rect, i);
    let n = lines.rows(rect) as int;
    let style = match_style(lines.selected_row(i, rect.h as int), focused);
    let item = lines.row_item(rect, i);
    lemma_mark_at(lines, rect, focused, pattern, i, groups, g1, groups[g1]->Some_0, n);
    lemma_mark_at(lines, rect, focused, pattern, i, groups, g2, groups[g2]->Some_0, n);
    lemma_group_marks_prefix(lines.cursor_x, rect, style, i, item, groups, g1 + 1, g2);
    let k = lines.drawing(rect, focused).len() as int;
    (
        mark_index(lines, rect, focused, pattern, i, groups, g1) + k,
        mark_index(lines, rect, focused, pattern, i, groups, g2) + k,
    )
}

/// Whether `mark` marks a part of the item on the `i`th row that the group
/// `g` of the first match on that item captured.
pub open spec fn marks_capture(
    lines: Items,
    rect: Rect,
    focused: bool,
    pattern: Seq<char>,
    mark: Drawn,
    i: int,
    g: int,
) -> bool {
    let item = shown_item(lines, rect, i);
    let start = lines.cursor_x + (mark.x - rect.x);
    let end = start + byte_len(mark.text);
    &&& on_row(lines, rect, i)
    &&& mark.y == rect.y + i
    &&& mark.style == mark_style(lines, rect.h as int, focused, i)
    &&& lines.cursor_x <= start
    &&& end <= lines.cursor_x + rect.w
    &&& mark.text == byte_slice(item, start, end)
    &&& pcre2_first_match(pattern, item) matches Some(Some(groups)) && 1 <= g < groups.len() && (
    groups[g] matches Some(span) && span.0 <= start && end <= span.1)
}

proof fn lemma_group_mark_found(
    lines: Items,
    rect: Rect,
    focused: bool,
    pattern: Seq<char>,
    i: int,
    groups: Seq<Option<Span>>,
    n: int,
    k: int,
) -> (g: int)
    requires
        lines.cursor_y >= 0,
        on_row(lines, rect, i),
        pcre2_first_match(pattern, shown_item(lines, rect, i)) == Some(Some(groups)),
        n <= groups.len(),
        ({
            let row = group_marks(
                lines.cursor_x,
                rect,
                match_style(lines.selected_row(i, rect.h as int), focused),
                i,
                shown_item(lines, rect, i),
                groups,
                n,
            );
            0 <= k < row.len() && row[k].text.len() > 0
        }),
    ensures
        marks_capture(
            lines,
            rect,
            focused,
            pattern,
            group_marks(
                lines.cursor_x,
                rect,
                match_style(lines.selected_row(i, rect.h as int), focused),
                i,
                shown_item(lines, rect, i),
                groups,
                n,
            )[k],
            i,
            g,
        ),
    decreases n,
{
    lemma_page(lines, rect);
    let style = match_style(lines.selected_row(i, rect.h as int), focused);
    let item = shown_item(lines, rect, i);
    let init = group_marks(lines.cursor_x, rect, style, i, item, groups, n - 1);
    if k < init.len() {
        lemma_group_mark_found(lines, rect, focused, pattern, i, groups, n - 1, k)
    } else {
        let span = groups[n - 1]->Some_0;
        let start = seen_from(lines, span);
        let end = seen_to(lines, rect.w as int, span);
        lemma_byte_slice_len(item, start, end);
        n - 1
    }
}

/// Every mark with text on it marks a part of the line that is shown on the
/// same row: the part that stands in the columns of the mark, and that a
/// group of the first match on that line captured. This holds on every page.
pub proof fn law_marks_are_captures(
    lines: Items,
    rect: Rect,
    focused: bool,
    pattern: Seq<char>,
    k: int,
) -> (ig: (int, int))
    requires
        lines.cursor_y >= 0,
        lines.drawing(rect, focused).len() <= k < lines_drawing(
            lines,
            rect,
            focused,
            Some(pattern),
        ).len(),
        lines_drawing(lines, rect, focused, Some(pattern))[k].text.len() > 0,
    ensures
        marks_capture(
            lines,
            rect,
            focused,
            pattern,
            lines_drawing(lines, rect, focused, Some(pattern))[k],
            ig.0,
            ig.1,
        ),
{
    let n = lines.rows(rect) as int;
    let j = k - lines.drawing(rect, focused).len();
    assert(lines_drawing(lines, rect, focused, Some(pattern))[k] == marks(
        lines,
        rect,
        focused,
        pattern,
        n,
    )[j]);
    lemma_mark_found(lines, rect, focused, pattern, n, j)
}

proof fn lemma_mark_found(
    lines: Items,
    rect: Rect,
    focused: bool,
    pattern: Seq<char>,
    n: int,
    k: int,
) -> (ig: (int, int))
    requires
        lines.cursor_y >= 0,
        n <= lines.rows(rect),
        0 <= k < marks(lines, rect, focused, pattern, n).len(),
        marks(lines, rect, focused, pattern, n)[k].text.len() > 0,
    ensures
        marks_capture(
            lines,
            rect,
            focused,
            pattern,
            marks(lines, rect, focused, pattern, n)[k],
            ig.0,
            ig.1,
        ),
    decreases n,
{
    let i = n - 1;
    let init = marks(lines, rect, focused, pattern, i);
    if k < init.len() {
        lemma_mark_found(lines, rect, focused, pattern, i, k)
    } else {
        lemma_rows(lines, rect, i);
        let groups = pcre2_first_match(pattern, lines.row_item(rect, i))->Some_0->Some_0;
        let g = lemma_group_mark_found(
            lines,
            rect,
            focused,
            pattern,
            i,
            groups,
            groups.len() as int,
            k - init.len(),
        );
        (i, g)
    }
}

/// The lines are shown as a list, under the marks, and without a regex that
/// is accepted nothing is marked.
pub proof fn law_lines_under_marks(
    lines: Items,
    rect: Rect,
    focused: bool,
    pattern: Seq<char>,
    k: int,
)
    ensures
        0 <= k < lines.drawing(rect, focused).len() ==> k < lines_drawing(
            lines,
            rect,
            focused,
            Some(pattern),
        ).len() && lines_drawing(lines, rect, focused, Some(pattern))[k] == lines.drawing(
            rect,
            focused,
        )[k],
        lines_drawing(lines, rect, focused, None) == lines.drawing(rect, focused),
{
}

/// The field shows the page of its text that the cursor is on, and blanks
/// behind the end of the text, so that nothing of what was there is seen.
pub proof fn law_field_shows_page(
    field: Edit,
    row: Rect,
    left: Seq<char>,
    part: Seq<char>,
    right: Seq<char>,
)
    requires
        row.w > 0,
        field.before + field.after == left + part + right,
        byte_len(left) == byte_len(field.before) - byte_len(field.before) % (row.w as nat),
        byte_len(part) == row.w || (right.len() == 0 && byte_len(part) <= row.w),
    ensures
        field.drawing(row).y == row.y,
        field.drawing(row).x == row.x,
        field.drawing(row).style == Style::Regular,
        field.drawing(row).text.len() == part.len() + (row.w - byte_len(part)),
        field.drawing(row).text.take(part.len() as int) == part,
        forall|i: int|
            part.len() <= i < field.drawing(row).text.len() ==> #[trigger] field.drawing(row).text[i]
                == ' ',
{
    let w = row.w as int;
    let off = byte_len(field.before) as int;
    lemma_fundamental_div_mod(off, w);
    lemma_mod_bound(off, w);
    assert((off / w) * w == w * (off / w)) by (nonlinear_arith);
    law_offsets_name_part(left, part, right);
    crate::text::lemma_concat_boundary(left + part, right);
    crate::text::lemma_concat_boundary(left, part);
    assert(right.len() == 0 ==> byte_len(right) == 0);
    assert(field.text() == left + part + right);
    assert(field.visible(w) == part + blanks(w - byte_len(part)));
    assert((part + blanks(w - byte_len(part))).take(part.len() as int) == part);
}

/// A list that can be edited shows its items, and while one is edited the
/// field over the row of the selected item, with the text cursor in it. The
/// shared state is else untouched.
pub proof fn law_strings_show(strings: Strings, rect: Rect, focused: bool, global: Global)
    requires
        strings.list.cursor_y >= 0,
        rect.y + rect.h <= usize::MAX,
        rect.x + rect.w <= i32::MAX,
        rect.y + rect.h <= i32::MAX,
        strings.state is Editing ==> rect.h > 0 && rect.w > 0,
    ensures
        !(strings.state is Editing) ==> strings.drawing(rect, focused) == strings.list.drawing(
            rect,
            focused,
        ) && strings.global_after_drawing(rect, global) == global,
        strings.state is Editing ==> {
            let row = Rect {
                x: rect.x,
                y: (rect.y + strings.list.cursor_y % (rect.h as int)) as usize,
                w: rect.w,
                h: 1,
            };
            let after = strings.global_after_drawing(rect, global);
            &&& strings.drawing(rect, focused) == strings.list.drawing(rect, focused)
                + seq![strings.field.drawing(row)]
            &&& row.y == rect.y + strings.list.cursor_y % (rect.h as int)
            &&& after.cursor_y == row.y
            &&& after.cursor_x == rect.x + byte_len(strings.field.before) as int % (rect.w as int)
            &&& after == (Global {
                cursor_x: after.cursor_x,
                cursor_y: after.cursor_y,
                ..global
            })
        },
{
    if strings.state is Editing {
        lemma_mod_bound(strings.list.cursor_y, rect.h as int);
        lemma_mod_bound(strings.field.offset() as int, rect.w as int);
        let d = strings.field.drawing(strings.list.current_row(rect));
        assert(strings.list.drawing(rect, focused).push(d) == strings.list.drawing(rect, focused)
            + seq![d]);
    }
}

/// The status line tells the command line, what is wrong with the regex, or
/// that there is no match, and only what is wrong looks so.
pub proof fn law_status_tells(line: Seq<char>, y: int)
    ensures
        Shown::of(Some(Ok(line))).drawing(y) == (Drawn { y, x: 0, style: Style::Regular, text: line }),
        Shown::of(Some(Err(line))).drawing(y) == (Drawn {
            y,
            x: 0,
            style: Style::StatusError,
            text: line,
        }),
        Shown::of(None).drawing(y) == (Drawn { y, x: 0, style: Style::Regular, text: "No match"@ }),
        Shown::of(Some(Ok(line))).status == Status::Info,
        Shown::of(Some(Err(line))).status == Status::Error,
        Shown::of(None).status == Status::Info,
{
}

/// The whole screen: the status line on the last row; above it the lines, on
/// all rows, or with the profile pane on two thirds of them, and then the
/// regexs below on the left half and the commands on the right. The lines are
/// marked by the regex in use.
pub proof fn law_screen(state: State, w: usize, h: usize, source: Seq<char>)
    requires
        h >= 1,
        in_use(state.kept.regexs, source) || none_in_use(state.kept.regexs),
    ensures
        ({
            let pattern = if in_use(state.kept.regexs, source) && pcre2_compile_error(
                source,
            ) is None {
                Some(source)
            } else {
                None
            };
            let rows = (h - 1) as usize;
            let upper = (rows / 3 * 2) as usize;
            let lower = (rows - rows / 3 * 2) as usize;
            let half = (w / 2) as usize;
            let rest = (w - w / 2) as usize;
            let status = Drawn {
                y: h - 1,
                x: 0,
                style: if state.status.status == Status::Error {
                    Style::StatusError
                } else {
                    Style::Regular
                },
                text: state.status.text,
            };
            &&& !state.global.profile_pane ==> state.drawing(w, h) == seq![status] + lines_drawing(
                state.lines,
                Rect { x: 0, y: 0, w, h: rows },
                true,
                pattern,
            )
            &&& state.global.profile_pane ==> state.drawing(w, h) == seq![status] + lines_drawing(
                state.lines,
                Rect { x: 0, y: 0, w, h: upper },
                state.global.focus == Focus::Lines,
                pattern,
            ) + state.kept.regexs.drawing(
                Rect { x: 0, y: upper, w: half, h: lower },
                state.global.focus == Focus::Regexs,
            ) + state.kept.cmds.drawing(
                Rect { x: half, y: upper, w: rest, h: lower },
                state.global.focus == Focus::Cmds,
            )
        }),
{
}

/// A screen is large enough if it has a row, and two rows and two columns
/// while an item is edited, as long as no column has a number beyond counting.
pub proof fn law_ordinary_screens_fit(state: State, w: usize, h: usize)
    requires
        h >= 1,
        w <= i32::MAX,
        state.lines.cursor_x + w <= usize::MAX,
        state.kept.regexs.list.cursor_x + w <= usize::MAX,
        state.kept.cmds.list.cursor_x + w <= usize::MAX,
        state.kept.regexs.state is Editing || state.kept.cmds.state is Editing ==> w >= 2 && h >= 2,
    ensures
        state.fits(w, h),
{
}

/// Counted in bytes, the field shows the page of its text that the cursor is
/// on, up to the width or to the end of the text, and then blanks. Where one
/// of these falls inside a character there are blanks only.
pub proof fn law_field_by_bytes(field: Edit, row: Rect)
    requires
        row.w > 0,
    ensures
        ({
            let text = field.before + field.after;
            let w = row.w as int;
            let off = byte_len(field.before) as int;
            let begin = off - off % w;
            let end = if begin + w < byte_len(text) {
                begin + w
            } else {
                byte_len(text) as int
            };
            let part = byte_slice(text, begin, end);
            let shown = field.drawing(row).text;
            &&& byte_len(part) <= w
            &&& shown.len() == part.len() + (w - byte_len(part))
            &&& shown.take(part.len() as int) == part
            &&& forall|i: int| part.len() <= i < shown.len() ==> #[trigger] shown[i] == ' '
        }),
{
    let w = row.w as int;
    let off = byte_len(field.before) as int;
    lemma_fundamental_div_mod(off, w);
    lemma_mod_bound(off, w);
    assert((off / w) * w == w * (off / w)) by (nonlinear_arith);
    let text = field.before + field.after;
    let begin = off - off % w;
    let end = if begin + w < byte_len(text) {
        begin + w
    } else {
        byte_len(text) as int
    };
    let part = byte_slice(text, begin, end);
    if part.len() > 0 {
        lemma_byte_slice_len(text, begin, end);
    }
    assert(field.visible(w) == part + blanks(w - byte_len(part)));
    assert((part + blanks(w - byte_len(part))).take(part.len() as int) == part);
}

/// Where the text cursor is put: into the field of the list in which an item
/// is edited, on the row of that item, as many columns from the left as the
/// bytes before the cursor reach into the page that is shown. Nothing else of
/// the shared state changes, and nothing at all while no item is edited.
pub proof fn law_text_cursor_place(state: State, w: usize, h: usize)
    requires
        state.wf(),
        state.fits(w, h),
        w <= i32::MAX,
        h <= i32::MAX,
    ensures
        ({
            let rows = h - 1;
            let upper = rows / 3 * 2;
            let lower = rows - upper;
            let half = w as int / 2;
            let after = state.global_after_drawing(w, h);
            let regexs = state.kept.regexs;
            let cmds = state.kept.cmds;
            &&& regexs.state is Editing ==> after == (Global {
                cursor_y: (upper + regexs.list.cursor_y % lower) as i32,
                cursor_x: (byte_len(regexs.field.before) as int % half) as i32,
                ..state.global
            })
            &&& cmds.state is Editing ==> after == (Global {
                cursor_y: (upper + cmds.list.cursor_y % lower) as i32,
                cursor_x: (half + byte_len(cmds.field.before) as int % (w - half)) as i32,
                ..state.global
            })
            &&& !(regexs.state is Editing) && !(cmds.state is Editing) ==> after == state.global
        }),
{
    let regexs = state.kept.regexs;
    let cmds = state.kept.cmds;
    let lower = h - 1 - (h - 1) / 3 * 2;
    let half = w as int / 2;
    if regexs.state is Editing {
        lemma_mod_bound(regexs.list.cursor_y, lower);
        lemma_mod_bound(regexs.field.offset() as int, half);
    }
    if cmds.state is Editing {
        lemma_mod_bound(cmds.list.cursor_y, lower);
        lemma_mod_bound(cmds.field.offset() as int, w - half);
    }
}

/// The models of pieces of text hold what is put on the screen, and where.
pub proof fn law_models_are_what_is_put(list: Seq<Draw>, i: int)
    requires
        0 <= i < list.len(),
    ensures
        drawn(list).len() == list.len(),
        drawn(list)[i].y == list[i].y,
        drawn(list)[i].x == list[i].x,
        drawn(list)[i].style == list[i].style,
        drawn(list)[i].text == list[i].text@,
{
}

} // verus!
