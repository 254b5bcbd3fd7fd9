//! Backward page layout: display lines are filled from an end offset back.

use vstd::prelude::*;
use vstd::string::*;
use crate::units::{Unit, UnitModel, units_view};

verus! {

/// What a backward layout yields: the text of the page, its display lines
/// parted by line feeds, and the offset of the first unit on it.
pub struct BackLayout {
    pub text: Seq<char>,
    pub start: int,
}

/// A page laid out backward.
pub struct BackPage {
    /// The text of the page, its display lines parted by line feeds.
    pub text: String,
    /// Offset, within the window, of the first unit on the page.
    pub start: usize,
}

/// What stands at the top of a page that is laid out backward.
#[derive(Clone, Copy, Debug, PartialEq, Eq, Structural)]
pub enum Edge {
    /// Nothing is placed yet.
    Blank,
    /// A line that a line feed has closed: it carries its `$` marker, and
    /// no line above it is begun.
    Marked,
    /// A line that holds units and has no marker yet.
    Open,
}

/// The layout that results when the units before index `n` are still to be
/// placed, in front of `text`, whose top line takes `width` columns and is
/// line number `height` from the bottom; `start` is the offset of the unit
/// placed last.
///
/// Every line of the page begins with its marker, as a page laid out
/// forward does. A line feed ends a line of the file: the line that
/// follows it is marked `$`, and a line above is begun only when a unit is
/// placed there. A unit that the top line has no room for is put on a new
/// line above, and the line below is marked with a space, as is the top
/// line when the units run out. The page is full when a line would begin
/// above line `dheight`.
pub open spec fn backward_from(
    units: Seq<UnitModel>,
    dlwidth: int,
    dheight: int,
    n: int,
    text: Seq<char>,
    width: int,
    height: int,
    edge: Edge,
    start: int,
) -> BackLayout
    decreases n,
{
    if n <= 0 || n > units.len() {
        BackLayout {
            text: if edge == Edge::Open {
                " "@ + text
            } else {
                text
            },
            start,
        }
    } else {
        let u = units[n - 1];
        let above = edge == Edge::Marked;
        let below = if above {
            "\n"@ + text
        } else {
            text
        };
        let w = if above {
            1
        } else {
            width
        };
        let h = if above {
            height + 1
        } else {
            height
        };
        if u.newline {
            if h == dheight {
                BackLayout { text: "$"@ + below, start: u.offset }
            } else {
                backward_from(units, dlwidth, dheight, n - 1, "$"@ + below, 1, h, Edge::Marked, u.offset)
            }
        } else if w + u.cols > dlwidth {
            if h == dheight {
                BackLayout { text: " "@ + below, start }
            } else {
                backward_from(
                    units,
                    dlwidth,
                    dheight,
                    n - 1,
                    u.text + ("\n"@ + (" "@ + below)),
                    1 + u.cols,
                    h + 1,
                    Edge::Open,
                    u.offset,
                )
            }
        } else {
            backward_from(units, dlwidth, dheight, n - 1, u.text + below, w + u.cols, h, Edge::Open, u.offset)
        }
    }
}

/// The page that ends behind the last of `units`.
pub open spec fn backward_page(units: Seq<UnitModel>, dlwidth: int, dheight: int) -> BackLayout {
    backward_from(units, dlwidth, dheight, units.len() as int, Seq::empty(), 1, 1, Edge::Blank, 0)
}

/// Puts `piece` in front of `s`.
fn prepend(s: &mut String, piece: &str)
    ensures
        final(s)@ == piece@ + old(s)@,
{
    let mut front = String::from_str(piece);
    front.append(s.as_str());
    *s = front;
}

/// Lays out the page that ends behind the last of `units`, from the last
/// unit backward.
pub fn render_backward(units: &Vec<Unit>, dlwidth: usize, dheight: usize) -> (page: BackPage)
    requires
        forall|i: int| 0 <= i < units@.len() ==> 1 <= (#[trigger] units@[i]).cols <= 2,
    ensures
        page.text@ == backward_page(units_view(units@), dlwidth as int, dheight as int).text,
        page.start == backward_page(units_view(units@), dlwidth as int, dheight as int).start,
        page.start == 0 || exists|i: int| 0 <= i < units@.len() && page.start == (#[trigger] units@[i]).offset,
{
    let ghost us = units_view(units@);
    let ghost goal = backward_page(us, dlwidth as int, dheight as int);
    let mut text = String::new();
    let mut start: usize = 0;
    let mut width: usize = 1;
    let bounded = dheight >= 1;
    let mut room: usize = if bounded {
        dheight - 1
    } else {
        0
    };
    let ghost mut height: int = 1;
    let mut edge = Edge::Blank;
    let mut n: usize = units.len();
    let mut done = false;
    while !done && n > 0
        invariant
            us == units_view(units@),
            forall|i: int| 0 <= i < units@.len() ==> 1 <= (#[trigger] units@[i]).cols <= 2,
            n <= units@.len(),
            1 <= width,
            width <= dlwidth || width <= 3,
            1 <= height,
            bounded == (dheight >= 1),
            bounded ==> room == dheight - height,
            !done && edge == Edge::Marked ==> height != dheight,
            !done ==> goal == backward_from(
                us,
                dlwidth as int,
                dheight as int,
                n as int,
                text@,
                width as int,
                height,
                edge,
                start as int,
            ),
            done ==> goal == (BackLayout { text: text@, start: start as int }),
            start == 0 || exists|i: int| 0 <= i < units@.len() && start == (#[trigger] units@[i]).offset,
        decreases (if done { 0int } else { 1int }) + n,
    {
        let u = &units[n - 1];
        assert(us[n - 1] == u@);
        if edge == Edge::Marked {
            prepend(&mut text, "\n");
            if bounded {
                room = room - 1;
            }
            proof {
                height = height + 1;
            }
            width = 1;
        }
        if u.newline {
            prepend(&mut text, "$");
            start = u.offset;
            if bounded && room == 0 {
                done = true;
            } else {
                edge = Edge::Marked;
                width = 1;
            }
        } else {
            if u.cols > dlwidth || width > dlwidth - u.cols {
                prepend(&mut text, " ");
                if bounded && room == 0 {
                    done = true;
                } else {
                    prepend(&mut text, "\n");
                    if bounded {
                        room = room - 1;
                    }
                    proof {
                        height = height + 1;
                    }
                    width = 1;
                }
            }
            if !done {
                width = width + u.cols;
                prepend(&mut text, u.text.as_str());
                start = u.offset;
                edge = Edge::Open;
            }
        }
        n = n - 1;
    }
    if !done && edge == Edge::Open {
        prepend(&mut text, " ");
    }
    BackPage { text, start }
}

} // verus!
