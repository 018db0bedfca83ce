//! The state of a comparison session and the decisions of its event loop:
//! which action a key asks for, and how each outcome changes what is shown.
//! The loop itself, the terminal and the editor are the caller's.

use crate::lines::{line_views, DiffResult, LineStyle, StyledLine};
use crate::json::parsed;
use crate::loader::{display_text, read_json, LoadError};
use vstd::prelude::*;

verus! {

/// One of the two documents.
#[derive(Clone, Copy, Debug, PartialEq, Eq, Structural)]
pub enum FileSide {
    Left,
    Right,
}

/// What a key press asks for.
#[derive(Clone, Copy, Debug, PartialEq, Eq, Structural)]
pub enum Action {
    /// Open the editor on one side's document.
    Edit(FileSide),
    /// Empty both documents.
    Clear,
    /// Compare the two documents.
    Diff,
    /// Leave.
    Quit,
    /// The key has no meaning.
    Ignore,
}

/// The action bound to a key.
pub open spec fn key_action(key: char) -> Action {
    if key == 'a' {
        Action::Edit(FileSide::Left)
    } else if key == 'b' {
        Action::Edit(FileSide::Right)
    } else if key == 'c' {
        Action::Clear
    } else if key == 'd' {
        Action::Diff
    } else if key == 'q' {
        Action::Quit
    } else {
        Action::Ignore
    }
}

/// Decides what a key press asks for.
pub fn action_for_key(key: char) -> (r: Action)
    ensures
        r == key_action(key),
{
    if key == 'a' {
        Action::Edit(FileSide::Left)
    } else if key == 'b' {
        Action::Edit(FileSide::Right)
    } else if key == 'c' {
        Action::Clear
    } else if key == 'd' {
        Action::Diff
    } else if key == 'q' {
        Action::Quit
    } else {
        Action::Ignore
    }
}

/// What one side of the screen shows.
pub enum Shown<'a> {
    /// The document as loaded, pretty printed, without styles.
    Original(&'a String),
    /// The side's column of the last comparison.
    Lines(&'a Vec<StyledLine>),
}

/// The session: for each side the display form of its document, the last
/// comparison, and whether the comparison is what the screen shows.
pub struct DiffApp {
    pub left_diff_result: Vec<StyledLine>,
    pub right_diff_result: Vec<StyledLine>,
    pub original_left_content: String,
    pub original_right_content: String,
    pub display_diff: bool,
}

impl DiffApp {
    /// The display form of one side's document.
    pub open spec fn original(&self, side: FileSide) -> Seq<char> {
        match side {
            FileSide::Left => self.original_left_content@,
            FileSide::Right => self.original_right_content@,
        }
    }

    /// The lines of one side's column of the last comparison.
    pub open spec fn column(&self, side: FileSide) -> Seq<(Seq<char>, LineStyle)> {
        match side {
            FileSide::Left => line_views(self.left_diff_result@),
            FileSide::Right => line_views(self.right_diff_result@),
        }
    }

    /// The two columns of the last comparison have the same number of lines.
    pub open spec fn aligned(&self) -> bool {
        self.left_diff_result@.len() == self.right_diff_result@.len()
    }

    /// A session with two empty documents and no comparison.
    pub fn new() -> (r: DiffApp)
        ensures
            r.aligned(),
            r.original(FileSide::Left) == Seq::<char>::empty(),
            r.original(FileSide::Right) == Seq::<char>::empty(),
            r.column(FileSide::Left) == Seq::<(Seq<char>, LineStyle)>::empty(),
            r.column(FileSide::Right) == Seq::<(Seq<char>, LineStyle)>::empty(),
            !r.display_diff,
    {
        let r = DiffApp {
            left_diff_result: Vec::new(),
            right_diff_result: Vec::new(),
            original_left_content: String::new(),
            original_right_content: String::new(),
            display_diff: false,
        };
        assert(line_views(r.left_diff_result@) =~= Seq::empty());
        assert(line_views(r.right_diff_result@) =~= Seq::empty());
        r
    }

    /// Takes in the text of one side's document after it was edited or
    /// loaded. A well-formed text replaces the side's display form; any other
    /// leaves the session as it was and is reported.
    pub fn document_changed(&mut self, side: FileSide, text: &str) -> (r: Result<(), LoadError>)
        ensures
            final(self).aligned() == old(self).aligned(),
            final(self).column(FileSide::Left) == old(self).column(FileSide::Left),
            final(self).column(FileSide::Right) == old(self).column(FileSide::Right),
            final(self).display_diff == old(self).display_diff,
            forall|other: FileSide|
                other != side ==> final(self).original(other) == old(self).original(other),
            match display_text(text@) {
                Some(shown) => r is Ok && final(self).original(side) == shown,
                None => r is Err && final(self).original(side) == old(self).original(side),
            },
            r matches Err(e) ==> (e is Parse <==> parsed(text@) is None),
    {
        match read_json(text) {
            Ok(shown) => {
                match side {
                    FileSide::Left => {
                        self.original_left_content = shown;
                    },
                    FileSide::Right => {
                        self.original_right_content = shown;
                    },
                }
                Ok(())
            },
            Err(e) => Err(e),
        }
    }

    /// Empties both documents' display forms. The last comparison stays, and
    /// stays on screen if it was there.
    pub fn clear(&mut self)
        ensures
            final(self).aligned() == old(self).aligned(),
            final(self).original(FileSide::Left) == Seq::<char>::empty(),
            final(self).original(FileSide::Right) == Seq::<char>::empty(),
            final(self).column(FileSide::Left) == old(self).column(FileSide::Left),
            final(self).column(FileSide::Right) == old(self).column(FileSide::Right),
            final(self).display_diff == old(self).display_diff,
    {
        self.original_left_content = String::new();
        self.original_right_content = String::new();
    }

    /// Takes in the outcome of a comparison. A result replaces the last one
    /// and is shown from now on; a failure leaves the session as it was.
    pub fn diff_finished(&mut self, outcome: Result<DiffResult, LoadError>)
        ensures
            final(self).aligned() == match outcome {
                Ok(d) => d.aligned(),
                Err(_) => old(self).aligned(),
            },
            final(self).original(FileSide::Left) == old(self).original(FileSide::Left),
            final(self).original(FileSide::Right) == old(self).original(FileSide::Right),
            match outcome {
                Ok(d) => {
                    &&& final(self).column(FileSide::Left) == d@.0
                    &&& final(self).column(FileSide::Right) == d@.1
                    &&& final(self).display_diff
                },
                Err(_) => {
                    &&& final(self).column(FileSide::Left) == old(self).column(FileSide::Left)
                    &&& final(self).column(FileSide::Right) == old(self).column(FileSide::Right)
                    &&& final(self).display_diff == old(self).display_diff
                },
            },
    {
        match outcome {
            Ok(d) => {
                self.left_diff_result = d.left;
                self.right_diff_result = d.right;
                self.display_diff = true;
            },
            Err(_) => {},
        }
    }

    /// What one side of the screen shows: the side's column of the last
    /// comparison once one was made, the document's display form before.
    pub fn shown(&self, side: FileSide) -> (r: Shown<'_>)
        ensures
            match r {
                Shown::Lines(lines) => self.display_diff && line_views(lines@) == self.column(side),
                Shown::Original(text) => !self.display_diff && text@ == self.original(side),
            },
    {
        if self.display_diff {
            match side {
                FileSide::Left => Shown::Lines(&self.left_diff_result),
                FileSide::Right => Shown::Lines(&self.right_diff_result),
            }
        } else {
            match side {
                FileSide::Left => Shown::Original(&self.original_left_content),
                FileSide::Right => Shown::Original(&self.original_right_content),
            }
        }
    }
}

} // verus!
