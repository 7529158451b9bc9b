use vstd::prelude::*;

use crate::text::push_char;

verus! {

/// The errors of schema lookups and of query parameter parsing.
#[derive(Debug, Clone, PartialEq, Eq)]
pub enum Error {
    /// A level or property of the given name is not in the cube.
    NotFound(String),
    /// A time value that is neither `latest`, `oldest` nor an unsigned number.
    WrongTimeValue,
    /// A time precision that is not one of `year`, `quarter`, `month`, `week`, `day`.
    WrongTimePrecision,
    /// A time argument that is not of the form `precision.value`.
    WrongTimeFormat,
}

impl Error {
    /// The text of the message that this error reports.
    pub open spec fn spec_message(&self) -> Seq<char> {
        match self {
            Error::NotFound(name) => seq!['\''] + name@ + "' not found"@,
            Error::WrongTimeValue => "Wrong type for time argument."@,
            Error::WrongTimePrecision => "Wrong type for time precision argument."@,
            Error::WrongTimeFormat => "Wrong format for time argument."@,
        }
    }

    /// The human-readable message of this error.
    pub fn message(&self) -> (r: String)
        ensures
            r@ == self.spec_message(),
    {
        match self {
            Error::NotFound(name) => {
                let mut r = String::new();
                push_char(&mut r, '\'');
                r.append(name.as_str());
                r.append("' not found");
                r
            },
            Error::WrongTimeValue => "Wrong type for time argument.".to_owned(),
            Error::WrongTimePrecision => "Wrong type for time precision argument.".to_owned(),
            Error::WrongTimeFormat => "Wrong format for time argument.".to_owned(),
        }
    }
}

/// The message of a missing name quotes the name: `'name' not found`.
pub proof fn lemma_not_found_message(name: String)
    ensures
        Error::NotFound(name).spec_message() == seq!['\''] + name@ + "' not found"@,
        Error::WrongTimeValue.spec_message() == "Wrong type for time argument."@,
        Error::WrongTimePrecision.spec_message() == "Wrong type for time precision argument."@,
        Error::WrongTimeFormat.spec_message() == "Wrong format for time argument."@,
{
}

} // verus!
