use vstd::prelude::*;
use crate::parse_error::{decimal, decimal_string, ErrorTree, ParseError};

verus! {

/// Mathematical model of a [`ParseContext`].
pub struct ContextView {
    pub label: Seq<char>,
    pub location: usize,
    pub error: Option<ErrorTree>,
}

/// The further of two positions.
pub open spec fn further(a: usize, b: usize) -> usize {
    if a >= b {
        a
    } else {
        b
    }
}

impl ContextView {
    /// An unlabeled context at `location` on which nothing has failed yet.
    pub open spec fn fresh(location: usize) -> ContextView {
        ContextView { label: Seq::empty(), location, error: None }
    }

    /// A labeled context at `location` on which nothing has failed yet.
    pub open spec fn labeled(label: Seq<char>, location: usize) -> ContextView {
        ContextView { label, location, error: None }
    }

    /// The context after a failure at its own position; an earlier error is
    /// replaced.
    pub open spec fn new_error(self, label: Seq<char>, message: Seq<char>) -> ContextView {
        ContextView {
            label: self.label,
            location: self.location,
            error: Some(ErrorTree::leaf(self.location, label, message)),
        }
    }

    /// The context after the failure `theirs` of a sibling branch was folded
    /// into its recorded error `mine`. An unlabeled context, or one labeled
    /// as `theirs`, takes `theirs` as a child and moves as far as it lies;
    /// under another label only the recorded error moves.
    pub open spec fn fold(self, mine: ErrorTree, theirs: ErrorTree) -> ContextView {
        if self.label.len() == 0 || self.label == theirs.label {
            ContextView {
                label: self.label,
                location: further(self.location, theirs.location),
                error: Some(mine.add_error(theirs)),
            }
        } else {
            ContextView {
                label: self.label,
                location: self.location,
                error: Some(mine.location_by_error(theirs)),
            }
        }
    }

    /// Merge with the context of a sibling branch: where both recorded an
    /// error the sibling's is folded in, otherwise nothing changes.
    pub open spec fn add_error(self, other: ContextView) -> ContextView {
        match (self.error, other.error) {
            (Some(mine), Some(theirs)) => self.fold(mine, theirs),
            _ => self,
        }
    }

    /// Fold `theirs` into the recorded error.
    pub open spec fn add_error2(self, theirs: ErrorTree) -> ContextView
        recommends
            self.error is Some,
    {
        self.fold(self.error->Some_0, theirs)
    }

    /// Record `theirs`: as the error if there is none yet, as a child of the
    /// recorded one otherwise. The position stays.
    pub open spec fn add_errors(self, theirs: ErrorTree) -> ContextView {
        ContextView {
            label: self.label,
            location: self.location,
            error: match self.error {
                Some(mine) => Some(mine.add_error(theirs)),
                None => Some(theirs),
            },
        }
    }

    /// The same context with nothing recorded.
    pub open spec fn init_errors(self) -> ContextView {
        ContextView { label: self.label, location: self.location, error: None }
    }

    /// The same context `move_size` bytes further on.
    pub open spec fn move_location(self, move_size: usize) -> ContextView
        recommends
            self.location + move_size <= usize::MAX,
    {
        ContextView {
            label: self.label,
            location: (self.location + move_size) as usize,
            error: self.error,
        }
    }

    /// The same context at `location`.
    pub open spec fn new_location(self, location: usize) -> ContextView {
        ContextView { label: self.label, location, error: self.error }
    }

    /// The text of the context: position and label, and the recorded error
    /// where there is one.
    pub open spec fn rendered(self) -> Seq<char> {
        match self.error {
            Some(error) => "(location: "@ + decimal(self.location as nat) + ", label: "@
                + self.label + ", parseError: ["@ + error.rendered() + "])"@,
            None => "(location: "@ + decimal(self.location as nat) + ", label: "@ + self.label
                + ")"@,
        }
    }
}

/// The state threaded through a parse: the cursor, an optional label, and the
/// error recorded on this path, if any. Every transition yields a new
/// context; none is changed in place but by `init_errors` and `add_errors`.
#[derive(Debug)]
pub struct ParseContext {
    pub label: String,
    pub location: usize,
    pub parse_error_opt: Option<ParseError>,
}

impl View for ParseContext {
    type V = ContextView;

    open spec fn view(&self) -> ContextView {
        ContextView {
            label: self.label@,
            location: self.location,
            error: match self.parse_error_opt {
                Some(error) => Some(error@),
                None => None,
            },
        }
    }
}

impl Clone for ParseContext {
    fn clone(&self) -> (copy: Self)
        ensures
            copy@ == self@,
    {
        ParseContext {
            label: self.label.clone(),
            location: self.location,
            parse_error_opt: self.error_copy(),
        }
    }
}

impl ParseContext {
    fn error_copy(&self) -> (copy: Option<ParseError>)
        ensures
            copy is Some == self.parse_error_opt is Some,
            copy matches Some(error) ==> error@ == self.parse_error_opt->Some_0@,
    {
        match &self.parse_error_opt {
            Some(error) => Some(error.clone()),
            None => None,
        }
    }

    /// An unlabeled context at `location` on which nothing has failed yet.
    pub fn new_context(location: usize) -> (context: Self)
        ensures
            context@ == ContextView::fresh(location),
    {
        ParseContext { label: String::new(), location, parse_error_opt: None }
    }

    /// A labeled context at `location` on which nothing has failed yet.
    pub fn new_labeled_context(label: &str, location: usize) -> (context: Self)
        ensures
            context@ == ContextView::labeled(label@, location),
    {
        ParseContext { label: label.to_owned(), location, parse_error_opt: None }
    }

    /// The context after a failure at the current position. An error recorded
    /// earlier is replaced.
    pub fn new_error(&self, label: &str, message: &str) -> (context: Self)
        ensures
            context@ == self@.new_error(label@, message@),
    {
        ParseContext {
            label: self.label.clone(),
            location: self.location,
            parse_error_opt: Some(ParseError::new_error(self.location, label, message)),
        }
    }

    fn fold(&self, mine: &ParseError, theirs: ParseError) -> (context: Self)
        ensures
            context@ == self@.fold(mine@, theirs@),
    {
        if self.label.as_str().is_empty() || self.label == theirs.label {
            let reach = if self.location >= theirs.location {
                self.location
            } else {
                theirs.location
            };
            ParseContext {
                label: self.label.clone(),
                location: reach,
                parse_error_opt: Some(mine.add_error(theirs)),
            }
        } else {
            ParseContext {
                label: self.label.clone(),
                location: self.location,
                parse_error_opt: Some(mine.location_by_error(theirs)),
            }
        }
    }

    /// Merges the failure of a sibling branch into this one. Where both
    /// contexts recorded an error and this context is unlabeled or labeled as
    /// the sibling's error, that error becomes the last child of this one and
    /// context and error move to the furthest location; under another label
    /// only the recorded error moves, as far as the sibling's lies. Otherwise
    /// the result is a copy of `self`.
    pub fn add_error(&self, context: ParseContext) -> (merged: Self)
        ensures
            merged@ == self@.add_error(context@),
    {
        match &self.parse_error_opt {
            Some(mine) => match context.parse_error_opt {
                Some(theirs) => self.fold(mine, theirs),
                None => self.clone(),
            },
            None => self.clone(),
        }
    }

    /// Folds `parse_error` into the error recorded here, as `add_error` does
    /// with the error of a sibling context.
    pub fn add_error2(&self, parse_error: ParseError) -> (merged: Self)
        requires
            self.parse_error_opt is Some,
        ensures
            merged@ == self@.add_error2(parse_error@),
    {
        match &self.parse_error_opt {
            Some(mine) => self.fold(mine, parse_error),
            None => self.clone(),
        }
    }

    /// Forgets the recorded error.
    pub fn init_errors(&mut self)
        ensures
            final(self)@ == old(self)@.init_errors(),
    {
        self.parse_error_opt = None;
    }

    /// Records `parse_error` in place: as the error of this context if it has
    /// none, as the last child of the recorded error otherwise.
    pub fn add_errors(&mut self, parse_error: ParseError)
        ensures
            final(self)@ == old(self)@.add_errors(parse_error@),
    {
        let merged = match &self.parse_error_opt {
            Some(mine) => mine.add_error(parse_error),
            None => parse_error,
        };
        self.parse_error_opt = Some(merged);
    }

    /// The context as text: position and label, and the recorded error
    /// where there is one.
    pub fn to_string(&self) -> (text: String)
        ensures
            text@ == self@.rendered(),
    {
        let mut text = String::from_str("(location: ");
        text.append(decimal_string(self.location).as_str());
        text.append(", label: ");
        text.append(self.label.as_str());
        match &self.parse_error_opt {
            Some(error) => {
                text.append(", parseError: [");
                text.append(error.to_string().as_str());
                text.append("])");
            },
            None => {
                text.append(")");
            },
        }
        text
    }

    /// The same context `move_size` bytes further on.
    pub fn move_location(&self, move_size: usize) -> (context: Self)
        requires
            self.location + move_size <= usize::MAX,
        ensures
            context@ == self@.move_location(move_size),
    {
        ParseContext {
            label: self.label.clone(),
            location: self.location + move_size,
            parse_error_opt: self.error_copy(),
        }
    }

    /// The same context at `location`.
    pub fn new_location(&self, location: usize) -> (context: Self)
        ensures
            context@ == self@.new_location(location),
    {
        ParseContext {
            label: self.label.clone(),
            location,
            parse_error_opt: self.error_copy(),
        }
    }
}

} // verus!
