//! What is put on the screen: rectangles, styles and pieces of text.
use vstd::prelude::*;

verus! {

/// A part of the screen: its upper left corner, its width and its height.
#[derive(Clone, Copy, Debug, PartialEq, Eq, Structural)]
pub struct Rect {
    pub x: usize,
    pub y: usize,
    pub w: usize,
    pub h: usize,
}

/// How a piece of text looks.
#[derive(Clone, Copy, Debug, PartialEq, Eq, Structural)]
pub enum Style {
    Regular,
    Cursor,
    UnfocusedCursor,
    Match,
    MatchCursor,
    UnfocusedMatchCursor,
    StatusError,
}

/// A piece of text at a place on the screen.
#[derive(Debug)]
pub struct Draw {
    pub y: usize,
    pub x: usize,
    pub style: Style,
    pub text: String,
}

/// The model of a [`Draw`].
#[verifier::ext_equal]
pub struct Drawn {
    pub y: int,
    pub x: int,
    pub style: Style,
    pub text: Seq<char>,
}

impl View for Draw {
    type V = Drawn;

    open spec fn view(&self) -> Drawn {
        Drawn { y: self.y as int, x: self.x as int, style: self.style, text: self.text@ }
    }
}

/// The models of a list of pieces of text.
pub open spec fn drawn(list: Seq<Draw>) -> Seq<Drawn> {
    Seq::new(list.len(), |i: int| list[i]@)
}

/// Appending a piece of text appends its model.
pub proof fn lemma_drawn_push(list: Seq<Draw>, draw: Draw)
    ensures
        drawn(list.push(draw)) == drawn(list).push(draw@),
{
}

/// Moves the pieces of text of `more` behind those of `list`.
pub fn append(list: &mut Vec<Draw>, more: Vec<Draw>)
    ensures
        drawn(final(list)@) == drawn(old(list)@) + drawn(more@),
{
    let ghost before = list@;
    let ghost tail = more@;
    let mut more = more;
    list.append(&mut more);
    assert(drawn(list@) == drawn(before) + drawn(tail));
}

} // verus!
