//! The rendering model: lines of text, each with a display style, in two
//! columns of equal length.

use vstd::prelude::*;

verus! {

/// How a line is shown.
#[derive(Clone, Copy, Debug, PartialEq, Eq, Structural)]
pub enum LineStyle {
    /// The line stands for a value that is the same on both sides, or for the
    /// left side of a pair that differs.
    Unchanged,
    /// The line stands for the right side of a pair that differs.
    Changed,
}

/// One line of output: its text and its style.
#[derive(Debug)]
pub struct StyledLine {
    pub text: String,
    pub style: LineStyle,
}

impl View for StyledLine {
    type V = (Seq<char>, LineStyle);

    open spec fn view(&self) -> (Seq<char>, LineStyle) {
        (self.text@, self.style)
    }
}

/// The lines of a column, each by its view.
pub open spec fn line_views(lines: Seq<StyledLine>) -> Seq<(Seq<char>, LineStyle)> {
    Seq::new(lines.len(), |i: int| lines[i]@)
}

/// The outcome of a comparison: a left and a right column. Line `i` of one
/// column corresponds to line `i` of the other.
#[derive(Debug)]
pub struct DiffResult {
    pub left: Vec<StyledLine>,
    pub right: Vec<StyledLine>,
}

impl View for DiffResult {
    type V = (Seq<(Seq<char>, LineStyle)>, Seq<(Seq<char>, LineStyle)>);

    open spec fn view(&self) -> (Seq<(Seq<char>, LineStyle)>, Seq<(Seq<char>, LineStyle)>) {
        (line_views(self.left@), line_views(self.right@))
    }
}

impl DiffResult {
    /// Both columns have the same number of lines.
    pub open spec fn aligned(&self) -> bool {
        self.left@.len() == self.right@.len()
    }

    /// A result without lines.
    pub fn empty() -> (r: DiffResult)
        ensures
            r.left@.len() == 0,
            r.right@.len() == 0,
            r@ == (Seq::<(Seq<char>, LineStyle)>::empty(), Seq::<(Seq<char>, LineStyle)>::empty()),
            r.aligned(),
    {
        let r = DiffResult { left: Vec::new(), right: Vec::new() };
        assert(line_views(r.left@) =~= Seq::empty());
        assert(line_views(r.right@) =~= Seq::empty());
        r
    }

    /// The number of line pairs.
    pub fn len(&self) -> (n: usize)
        ensures
            n == self.left@.len(),
    {
        self.left.len()
    }
}

} // verus!
