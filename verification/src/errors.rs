use vstd::prelude::*;

verus! {

/// The errors of this library.
#[derive(Debug)]
pub enum Error {
    /// A signal was given a frequency below zero.
    NegativeFrequency,
    /// A circuit or signal could not be built: the named value is missing.
    CircuitConstructError(String),
    /// A required input, named by its label, is missing or empty.
    MissingInput(String),
    /// The input named by its label is not a number.
    InvalidNumber(String),
    /// A text could not be read; the payload is the full message.
    Syntax(String),
}

/// The message that each error shows to a user.
pub open spec fn error_message(e: Error) -> Seq<char> {
    match e {
        Error::NegativeFrequency => "Frequency cannot be negative"@,
        Error::CircuitConstructError(var) => "Missing required variable: "@ + var@,
        Error::MissingInput(label) => "Fehlender Wert für "@ + label@,
        Error::InvalidNumber(label) => "Ungültiger Zahlenwert für "@ + label@,
        Error::Syntax(msg) => msg@,
    }
}

impl Error {
    /// The message of this error, as it is shown to a user.
    pub fn message(&self) -> (r: String)
        ensures
            r@ == error_message(*self),
    {
        match self {
            Error::NegativeFrequency => String::from_str("Frequency cannot be negative"),
            Error::CircuitConstructError(var) => {
                let mut s = String::from_str("Missing required variable: ");
                s.append(var.as_str());
                s
            },
            Error::MissingInput(label) => {
                let mut s = String::from_str("Fehlender Wert für ");
                s.append(label.as_str());
                s
            },
            Error::InvalidNumber(label) => {
                let mut s = String::from_str("Ungültiger Zahlenwert für ");
                s.append(label.as_str());
                s
            },
            Error::Syntax(msg) => msg.clone(),
        }
    }
}

} // verus!
