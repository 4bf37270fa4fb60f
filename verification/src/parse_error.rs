use vstd::prelude::*;

verus! {

/// Mathematical model of a [`ParseError`]: one failure and, below it, the
/// failures of the branches that were merged into it.
pub struct ErrorTree {
    pub location: usize,
    pub label: Seq<char>,
    pub message: Seq<char>,
    pub child: Seq<ErrorTree>,
}

impl ErrorTree {
    /// A failure with nothing merged into it.
    pub open spec fn leaf(location: usize, label: Seq<char>, message: Seq<char>) -> ErrorTree {
        ErrorTree { location, label, message, child: Seq::empty() }
    }

    /// `self` with `other` attached as its last child; the location becomes
    /// the further of the two.
    pub open spec fn add_error(self, other: ErrorTree) -> ErrorTree {
        ErrorTree {
            location: if self.location >= other.location {
                self.location
            } else {
                other.location
            },
            label: self.label,
            message: self.message,
            child: self.child.push(other),
        }
    }

    /// `self` moved to the further of its own location and that of `other`,
    /// without attaching `other`.
    pub open spec fn location_by_error(self, other: ErrorTree) -> ErrorTree {
        ErrorTree {
            location: if self.location >= other.location {
                self.location
            } else {
                other.location
            },
            label: self.label,
            message: self.message,
            child: self.child,
        }
    }

    /// `self` reported at `location` instead.
    pub open spec fn location_change(self, location: usize) -> ErrorTree {
        ErrorTree { location, label: self.label, message: self.message, child: self.child }
    }

    /// The text of the first `count` children, with a comma between two.
    pub open spec fn rendered_children(self, count: nat) -> Seq<char>
        decreases self, count,
    {
        if count == 0 || count > self.child.len() {
            Seq::empty()
        } else if count == 1 {
            self.child[0].rendered()
        } else {
            self.rendered_children((count - 1) as nat) + ","@ + self.child[count - 1].rendered()
        }
    }

    /// The text of the error: its own fields first, then its children in
    /// the order in which they were merged in.
    pub open spec fn rendered(self) -> Seq<char>
        decreases self, self.child.len() + 1,
    {
        "(location: "@ + decimal(self.location as nat) + ", label: "@ + self.label
            + ", message: "@ + self.message + ", child: ["@ + self.rendered_children(
            self.child.len(),
        ) + "])"@
    }
}

/// The decimal digit `digit` as text.
pub open spec fn digit_text(digit: nat) -> Seq<char> {
    if digit == 0 {
        "0"@
    } else if digit == 1 {
        "1"@
    } else if digit == 2 {
        "2"@
    } else if digit == 3 {
        "3"@
    } else if digit == 4 {
        "4"@
    } else if digit == 5 {
        "5"@
    } else if digit == 6 {
        "6"@
    } else if digit == 7 {
        "7"@
    } else if digit == 8 {
        "8"@
    } else {
        "9"@
    }
}

/// The decimal notation of `number`.
pub open spec fn decimal(number: nat) -> Seq<char>
    decreases number,
{
    if number < 10 {
        digit_text(number)
    } else {
        decimal(number / 10) + digit_text(number % 10)
    }
}

/// The decimal notation of `number`.
pub fn decimal_string(number: usize) -> (text: String)
    ensures
        text@ == decimal(number as nat),
    decreases number,
{
    let digit: usize = number % 10;
    let last = if digit == 0 {
        "0"
    } else if digit == 1 {
        "1"
    } else if digit == 2 {
        "2"
    } else if digit == 3 {
        "3"
    } else if digit == 4 {
        "4"
    } else if digit == 5 {
        "5"
    } else if digit == 6 {
        "6"
    } else if digit == 7 {
        "7"
    } else if digit == 8 {
        "8"
    } else {
        "9"
    };
    if number < 10 {
        String::from_str(last)
    } else {
        let mut text = decimal_string(number / 10);
        text.append(last);
        text
    }
}

/// One failure: where it happened, which parser reported it and why, and the
/// failures of sibling branches that were folded into it.
#[derive(Debug)]
pub struct ParseError {
    pub location: usize,
    pub label: String,
    pub message: String,
    pub child: Vec<ParseError>,
}

impl View for ParseError {
    type V = ErrorTree;

    open spec fn view(&self) -> ErrorTree {
        self.tree()
    }
}

/// The models of a run of errors, in order.
pub open spec fn trees(errors: Seq<ParseError>) -> Seq<ErrorTree> {
    Seq::new(errors.len(), |i: int| errors[i].tree())
}

impl ParseError {
    /// The model of the error: its fields and the models of its children.
    pub open spec fn tree(&self) -> ErrorTree
        decreases self,
    {
        ErrorTree {
            location: self.location,
            label: self.label@,
            message: self.message@,
            child: Seq::new(
                self.child@.len(),
                |i: int|
                    if 0 <= i < self.child@.len() {
                        self.child@[i].tree()
                    } else {
                        arbitrary()
                    },
            ),
        }
    }

    /// The model's children are the models of the children.
    pub proof fn lemma_tree_child(&self)
        ensures
            self@.child == trees(self.child@),
            self@.location == self.location,
            self@.label == self.label@,
            self@.message == self.message@,
    {
        assert(self@.child =~= trees(self.child@));
    }

    /// A fresh failure at `location`, with no children.
    pub fn new(location: usize, label: String, message: String) -> (error: Self)
        ensures
            error@ == ErrorTree::leaf(location, label@, message@),
    {
        let error = ParseError { location, label, message, child: Vec::new() };
        assert(error@.child =~= Seq::empty());
        error
    }

    /// A fresh failure at `location`, with no children.
    pub fn new_error(location: usize, label: &str, message: &str) -> (error: Self)
        ensures
            error@ == ErrorTree::leaf(location, label@, message@),
    {
        ParseError::new(location, label.to_owned(), message.to_owned())
    }

    fn clone_children(&self) -> (copy: Vec<ParseError>)
        ensures
            trees(copy@) == self@.child,
        decreases self, 0int,
    {
        let mut copy: Vec<ParseError> = Vec::new();
        let mut i: usize = 0;
        while i < self.child.len()
            invariant
                i <= self.child@.len(),
                copy@.len() == i,
                forall|k: int| 0 <= k < i ==> copy@[k]@ == self.child@[k]@,
            decreases self.child@.len() - i,
        {
            copy.push(self.child[i].clone());
            i += 1;
        }
        proof {
            self.lemma_tree_child();
            assert(trees(copy@) =~= trees(self.child@));
        }
        copy
    }

    /// A copy of `self` with `parse_error` attached as its last child, located
    /// at the further of the two locations.
    pub fn add_error(&self, parse_error: ParseError) -> (merged: Self)
        ensures
            merged@ == self@.add_error(parse_error@),
    {
        let mut child = self.clone_children();
        let location = if self.location >= parse_error.location {
            self.location
        } else {
            parse_error.location
        };
        child.push(parse_error);
        let merged = ParseError {
            location,
            label: self.label.clone(),
            message: self.message.clone(),
            child,
        };
        proof {
            merged.lemma_tree_child();
            assert(trees(merged.child@) =~= self@.child.push(parse_error@));
        }
        merged
    }

    /// A copy of `self` located at the further of its own location and that of
    /// `parse_error`, which is not attached.
    pub fn location_by_error(&self, parse_error: ParseError) -> (moved: Self)
        ensures
            moved@ == self@.location_by_error(parse_error@),
    {
        let child = self.clone_children();
        let location = if self.location >= parse_error.location {
            self.location
        } else {
            parse_error.location
        };
        let moved = ParseError {
            location,
            label: self.label.clone(),
            message: self.message.clone(),
            child,
        };
        proof {
            moved.lemma_tree_child();
        }
        moved
    }

    /// The error as text: location, label, message and, between brackets,
    /// the children one after another. A merged error lies as far as the
    /// furthest failure in it, so the text starts with the furthest location
    /// and goes on with the branches that led there.
    pub fn to_string(&self) -> (text: String)
        ensures
            text@ == self@.rendered(),
        decreases self, 2int,
    {
        let mut children = String::new();
        let mut i: usize = 0;
        proof {
            self.lemma_tree_child();
        }
        while i < self.child.len()
            invariant
                i <= self.child@.len(),
                self@.child == trees(self.child@),
                children@ == self@.rendered_children(i as nat),
            decreases self.child@.len() - i,
        {
            if i > 0 {
                children.append(",");
            }
            let child = self.child[i].to_string();
            children.append(child.as_str());
            i += 1;
            proof {
                assert(self@.child[i - 1] == self.child@[i - 1]@);
                if i == 1 {
                    assert(Seq::<char>::empty() + self@.child[0].rendered()
                        =~= self@.child[0].rendered());
                }
            }
        }
        let mut text = String::from_str("(location: ");
        text.append(decimal_string(self.location).as_str());
        text.append(", label: ");
        text.append(self.label.as_str());
        text.append(", message: ");
        text.append(self.message.as_str());
        text.append(", child: [");
        text.append(children.as_str());
        text.append("])");
        text
    }

    /// A copy of `self` reported at `location`.
    pub fn location_change(&self, location: usize) -> (moved: Self)
        ensures
            moved@ == self@.location_change(location),
    {
        let moved = ParseError {
            location,
            label: self.label.clone(),
            message: self.message.clone(),
            child: self.clone_children(),
        };
        proof {
            moved.lemma_tree_child();
        }
        moved
    }
}

impl Clone for ParseError {
    fn clone(&self) -> (copy: Self)
        ensures
            copy@ == self@,
        decreases self, 1int,
    {
        let copy = ParseError {
            location: self.location,
            label: self.label.clone(),
            message: self.message.clone(),
            child: self.clone_children(),
        };
        proof {
            copy.lemma_tree_child();
        }
        copy
    }
}

} // verus!
