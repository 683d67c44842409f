//! The program as a whole: what a key does, and what the screen shows.
use crate::global::{Focus, Global};
use crate::item_list::Items;
use crate::line_list::{
    accepted, action_for, cmdline_view, lines_after_key, lines_drawing, Acted, Cmdline, LineAction,
    LineList,
};
use crate::profile::{compiled, profile_cmdline, Kept, Profile};
use crate::screen::{append, drawn, Draw, Drawn, Rect};
use crate::status_line::{Shown, Status, StatusLine};
use vstd::arithmetic::div_mod::lemma_mod_bound;
use vstd::prelude::*;

verus! {

/// All that the program holds.
#[derive(Debug)]
pub struct Session {
    pub profile: Profile,
    pub line_list: LineList,
    pub status_line: StatusLine,
    pub global: Global,
}

/// The model of a [`Session`].
#[verifier::ext_equal]
pub struct State {
    pub kept: Kept,
    pub lines: Items,
    pub status: Shown,
    pub global: Global,
}

/// The pane that gets the keys: without the profile pane that of the lines,
/// and else the one that has the focus.
pub open spec fn active_pane(global: Global) -> Focus {
    if global.profile_pane {
        global.focus
    } else {
        Focus::Lines
    }
}

/// The height of the lines above the profile pane, on a screen of height `h`.
pub open spec fn lines_height(h: int) -> int {
    (h - 1) / 3 * 2
}

/// The part of the screen for the lines.
pub open spec fn lines_rect(profile_pane: bool, w: int, h: int) -> Rect {
    Rect {
        x: 0,
        y: 0,
        w: w as usize,
        h: if profile_pane {
            lines_height(h) as usize
        } else {
            (h - 1) as usize
        },
    }
}

/// The part of the screen for the regexs.
pub open spec fn regexs_rect(w: int, h: int) -> Rect {
    Rect {
        x: 0,
        y: lines_height(h) as usize,
        w: (w / 2) as usize,
        h: (h - 1 - lines_height(h)) as usize,
    }
}

/// The part of the screen for the commands.
pub open spec fn cmds_rect(w: int, h: int) -> Rect {
    Rect {
        x: (w / 2) as usize,
        y: lines_height(h) as usize,
        w: (w - w / 2) as usize,
        h: (h - 1 - lines_height(h)) as usize,
    }
}

/// The pattern of a regex that PCRE2 accepts.
pub open spec fn pattern_of(regex: Cmdline) -> Option<Seq<char>> {
    match regex {
        Some(Ok(pattern)) => Some(pattern),
        _ => None,
    }
}

impl State {
    /// The lists are in order. An item is edited only in the pane that gets
    /// the keys, and the text cursor is seen exactly while one is.
    pub open spec fn wf(self) -> bool {
        &&& self.kept.wf()
        &&& self.lines.wf()
        &&& self.kept.regexs.editing() ==> active_pane(self.global) == Focus::Regexs
        &&& self.kept.cmds.editing() ==> active_pane(self.global) == Focus::Cmds
        &&& self.global.cursor_visible == self.editing()
    }

    /// Whether an item is being edited.
    pub open spec fn editing(self) -> bool {
        self.kept.regexs.editing() || self.kept.cmds.editing()
    }

    /// The command line for the selected line.
    pub open spec fn cmdline(self) -> Cmdline {
        profile_cmdline(self.kept, self.lines.current())
    }

    /// The program after a key.
    pub open spec fn after_key(self, key: i32) -> State {
        match active_pane(self.global) {
            Focus::Lines => State {
                lines: lines_after_key(self.lines, key),
                global: self.global.after_key(key),
                ..self
            },
            Focus::Regexs => State {
                kept: Kept { regexs: self.kept.regexs.after_key(key), ..self.kept },
                global: self.kept.regexs.global_after_key(self.global, key),
                ..self
            },
            Focus::Cmds => State {
                kept: Kept { cmds: self.kept.cmds.after_key(key), ..self.kept },
                global: self.kept.cmds.global_after_key(self.global, key),
                ..self
            },
        }
    }

    /// What is left to do outside after a key.
    pub open spec fn action(self, key: i32, cmdline: Cmdline) -> Acted {
        match active_pane(self.global) {
            Focus::Lines => action_for(key, cmdline),
            _ => Acted::Stay,
        }
    }

    /// A screen that the program can be shown on: there is a row for the
    /// status line, there is room for an item that is being edited, and no
    /// offset grows too large to count.
    pub open spec fn fits(self, w: usize, h: usize) -> bool {
        &&& h >= 1
        &&& w <= isize::MAX
        &&& self.lines.cursor_x + w <= usize::MAX
        &&& self.global.profile_pane ==> {
            &&& self.kept.regexs.list.cursor_x + w / 2 <= usize::MAX
            &&& self.kept.cmds.list.cursor_x + (w - w / 2) <= usize::MAX
        }
        &&& self.kept.regexs.editing() ==> w >= 2 && h >= 2
        &&& self.kept.cmds.editing() ==> w >= 1 && h >= 2
    }

    /// The screen.
    pub open spec fn drawing(self, w: usize, h: usize) -> Seq<Drawn> {
        let global = self.global;
        let pattern = pattern_of(compiled(self.kept.regexs.chosen()));
        let status = seq![self.status.drawing(h - 1)];
        if global.profile_pane {
            status + lines_drawing(
                self.lines,
                lines_rect(true, w as int, h as int),
                global.focus == Focus::Lines,
                pattern,
            ) + self.kept.regexs.drawing(
                regexs_rect(w as int, h as int),
                global.focus == Focus::Regexs,
            ) + self.kept.cmds.drawing(
                cmds_rect(w as int, h as int),
                global.focus == Focus::Cmds,
            )
        } else {
            status + lines_drawing(
                self.lines,
                lines_rect(false, w as int, h as int),
                true,
                pattern,
            )
        }
    }

    /// The shared state once the screen is drawn: the text cursor stands in
    /// the field in which an item is edited.
    pub open spec fn global_after_drawing(self, w: usize, h: usize) -> Global {
        if self.global.profile_pane {
            self.kept.cmds.global_after_drawing(
                cmds_rect(w as int, h as int),
                self.kept.regexs.global_after_drawing(
                    regexs_rect(w as int, h as int),
                    self.global,
                ),
            )
        } else {
            self.global
        }
    }
}

impl View for Session {
    type V = State;

    open spec fn view(&self) -> State {
        State {
            kept: self.profile@,
            lines: self.line_list@,
            status: self.status_line@,
            global: self.global,
        }
    }
}

impl Session {
    /// The model and the fields that items are edited in are in order.
    pub open spec fn wf(self) -> bool {
        self@.wf() && self.profile.wf()
    }

    /// The program at its start, with a profile and no lines.
    pub fn new(profile: Profile) -> (session: Session)
        requires
            profile.wf(),
            !profile@.regexs.editing(),
            !profile@.cmds.editing(),
        ensures
            session.wf(),
            session@ == (State {
                kept: profile@,
                lines: Items { items: Seq::empty(), cursor_x: 0, cursor_y: 0 },
                status: Shown { status: Status::Info, text: Seq::empty() },
                global: Global::initial(),
            }),
    {
        Session {
            profile,
            line_list: LineList::new(),
            status_line: StatusLine::new(),
            global: Global::new(),
        }
    }

    /// Works out the command line for the selected line and tells of it in
    /// the status line.
    pub fn update_status(&mut self) -> (cmdline: Option<Result<String, String>>)
        requires
            old(self).wf(),
        ensures
            final(self).wf(),
            cmdline_view(cmdline) == old(self)@.cmdline(),
            final(self)@ == (State { status: Shown::of(old(self)@.cmdline()), ..old(self)@ }),
    {
        let cmdline = self.profile.cmdline(self.line_list.current_item());
        self.status_line.update(&cmdline);
        cmdline
    }

    /// Takes a key, with the command line for the selected line, and says
    /// what is left to do outside.
    pub fn handle_key(&mut self, key: i32, cmdline: &Option<Result<String, String>>) -> (action:
        LineAction)
        requires
            old(self).wf(),
        ensures
            final(self).wf(),
            final(self)@ == old(self)@.after_key(key),
            action@ == old(self)@.action(key, cmdline_view(*cmdline)),
    {
        if !self.global.profile_pane {
            return self.line_list.handle_key(key, cmdline, &mut self.global);
        }
        match self.global.focus {
            Focus::Lines => self.line_list.handle_key(key, cmdline, &mut self.global),
            Focus::Regexs => {
                self.profile.regex_list.handle_key(key, &mut self.global);
                LineAction::Stay
            },
            Focus::Cmds => {
                self.profile.cmd_list.handle_key(key, &mut self.global);
                LineAction::Stay
            },
        }
    }

    /// Whether the program can be shown on a screen of this size.
    pub fn fits(&self, w: usize, h: usize) -> (fits: bool)
        ensures
            fits == self@.fits(w, h),
    {
        let limit: usize = usize::MAX - w;
        let regex = self.profile.regex_list.is_editing();
        let cmd = self.profile.cmd_list.is_editing();
        h >= 1 && w <= isize::MAX as usize && self.line_list.list.cursor_x <= limit
            && (!self.global.profile_pane || (self.profile.regex_list.list.cursor_x <= usize::MAX - w
            / 2 && self.profile.cmd_list.list.cursor_x <= usize::MAX - (w - w / 2))) && (!regex || (w >= 2 && h >= 2)) && (
        !cmd || (w >= 1 && h >= 2))
    }

    /// The pieces of text that show the program on a screen of this size, in
    /// the order in which they are put there. Where an item is edited, the
    /// text cursor is put into its field.
    pub fn render(&mut self, w: usize, h: usize) -> (draws: Vec<Draw>)
        requires
            old(self).wf(),
            old(self)@.fits(w, h),
        ensures
            drawn(draws@) == old(self)@.drawing(w, h),
            final(self)@ == (State {
                global: old(self)@.global_after_drawing(w, h),
                ..old(self)@
            }),
            final(self).wf(),
    {
        let ghost start = self@;
        let mut draws: Vec<Draw> = Vec::new();
        let status = self.status_line.render(h - 1);
        draws.push(status);
        assert(drawn(draws@) == seq![self@.status.drawing(h - 1)]);
        let regex = self.profile.current_regex();
        assert(accepted(regex) == pattern_of(compiled(self@.kept.regexs.chosen())));
        if self.global.profile_pane {
            let working_h: usize = h - 1;
            let list_h: usize = working_h / 3 * 2;
            let focus = self.global.focus;
            let more = self.line_list.render(
                Rect { x: 0, y: 0, w, h: list_h },
                focus == Focus::Lines,
                &regex,
            );
            append(&mut draws, more);
            let more = self.profile.regex_list.render(
                Rect { x: 0, y: list_h, w: w / 2, h: working_h - list_h },
                focus == Focus::Regexs,
                &mut self.global,
            );
            append(&mut draws, more);
            let more = self.profile.cmd_list.render(
                Rect { x: w / 2, y: list_h, w: w - w / 2, h: working_h - list_h },
                focus == Focus::Cmds,
                &mut self.global,
            );
            append(&mut draws, more);
        } else {
            let more = self.line_list.render(Rect { x: 0, y: 0, w, h: h - 1 }, true, &regex);
            append(&mut draws, more);
        }
        draws
    }
}

/// Every key leaves the program in order. So an item is only ever edited in
/// the pane that gets the keys, and the text cursor is seen exactly while one
/// is.
pub proof fn law_keys_keep_session_order(state: State, key: i32)
    requires
        state.wf(),
    ensures
        state.after_key(key).wf(),
{
}

/// While an item is edited, no key ends the program, opens or closes the
/// profile pane, moves the focus or changes the lines.
pub proof fn law_editing_takes_all_keys(state: State, key: i32)
    requires
        state.wf(),
        state.editing(),
    ensures
        ({
            let next = state.after_key(key);
            &&& next.global.quit == state.global.quit
            &&& next.global.profile_pane == state.global.profile_pane
            &&& next.global.focus == state.global.focus
            &&& next.lines == state.lines
        }),
{
}

/// The panes cover the screen above the status line and do not overlap: the
/// lines above, the regexs below them on the left, the commands on the right.
pub proof fn law_panes_tile_screen(w: usize, h: usize)
    requires
        h >= 1,
    ensures
        ({
            let lines = lines_rect(true, w as int, h as int);
            let regexs = regexs_rect(w as int, h as int);
            let cmds = cmds_rect(w as int, h as int);
            &&& lines.x == 0 && lines.y == 0 && lines.w == w
            &&& regexs.x == 0 && regexs.y == lines.h && regexs.y + regexs.h == h - 1
            &&& cmds.x == regexs.w && cmds.x + cmds.w == w
            &&& cmds.y == regexs.y && cmds.h == regexs.h
        }),
        lines_rect(false, w as int, h as int) == (Rect { x: 0, y: 0, w, h: (h - 1) as usize }),
{
}

/// While an item is edited, the text cursor is put into the pane in which it
/// is edited, and onto the row of that item.
pub proof fn law_text_cursor_in_pane(state: State, w: usize, h: usize)
    requires
        state.wf(),
        state.editing(),
        state.fits(w, h),
        w <= i32::MAX,
        h <= i32::MAX,
    ensures
        ({
            let (strings, rect) = if state.kept.regexs.editing() {
                (state.kept.regexs, regexs_rect(w as int, h as int))
            } else {
                (state.kept.cmds, cmds_rect(w as int, h as int))
            };
            let global = state.global_after_drawing(w, h);
            &&& rect.x <= global.cursor_x < rect.x + rect.w
            &&& rect.y <= global.cursor_y < rect.y + rect.h
            &&& global.cursor_y == strings.list.current_row(rect).y
        }),
{
    let regexs = regexs_rect(w as int, h as int);
    let cmds = cmds_rect(w as int, h as int);
    if state.kept.regexs.editing() {
        lemma_mod_bound(state.kept.regexs.list.cursor_y, regexs.h as int);
        lemma_mod_bound(state.kept.regexs.field.offset() as int, regexs.w as int);
    } else {
        lemma_mod_bound(state.kept.cmds.list.cursor_y, cmds.h as int);
        lemma_mod_bound(state.kept.cmds.field.offset() as int, cmds.w as int);
    }
}

} // verus!
