use vstd::prelude::*;

verus! {

/// Why an input source could not serve a read.
#[derive(Debug, Clone)]
pub enum MyError {
    /// The underlying stream failed.
    IO(String),
    /// The request itself cannot be served (past the end, or larger than the
    /// buffer window).
    Common(String),
}

impl MyError {
    /// The text carried by the error, whatever its category.
    pub open spec fn detail(&self) -> Seq<char> {
        match self {
            MyError::IO(message) => message@,
            MyError::Common(message) => message@,
        }
    }

    /// What [`MyError::to_string`] renders.
    pub open spec fn rendered(&self) -> Seq<char> {
        match self {
            MyError::IO(message) => "io error message["@ + message@ + "]"@,
            MyError::Common(message) => "error message["@ + message@ + "]"@,
        }
    }

    /// Renders the error with its category in front of the message.
    pub fn to_string(&self) -> (text: String)
        ensures
            text@ == self.rendered(),
    {
        match self {
            MyError::IO(message) => {
                let mut text = String::from_str("io error message[");
                text.append(message.as_str());
                text.append("]");
                text
            },
            MyError::Common(message) => {
                let mut text = String::from_str("error message[");
                text.append(message.as_str());
                text.append("]");
                text
            },
        }
    }
}

} // verus!
