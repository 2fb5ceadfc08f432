use vstd::prelude::*;
use crate::errors::Error;
use crate::text::str_eq;

verus! {

/// The wave forms of a periodic test signal.
#[derive(Clone, Copy, Debug, PartialEq, Eq, Structural)]
pub enum SignalType {
    Rectangular,
    Triangle,
    Cosinus,
    Sinus,
}

impl SignalType {
    /// The wave form that a name stands for (compared exactly).
    pub open spec fn spec_from_name(kind_name: Seq<char>) -> Option<SignalType> {
        if kind_name == "rectangular"@ {
            Some(SignalType::Rectangular)
        } else if kind_name == "triangle"@ {
            Some(SignalType::Triangle)
        } else if kind_name == "cosinus"@ {
            Some(SignalType::Cosinus)
        } else if kind_name == "sinus"@ {
            Some(SignalType::Sinus)
        } else {
            None
        }
    }

    /// Reads a wave form from its name; any other name is a syntax error whose
    /// message names the text that was given.
    pub fn from_str(kind_name: &str) -> (r: Result<SignalType, Error>)
        ensures
            Self::spec_from_name(kind_name@) matches Some(t) ==> r == Ok::<SignalType, Error>(t),
            Self::spec_from_name(kind_name@) is None ==> (r matches Err(Error::Syntax(msg))
                && msg@ == "Invalid signal type: "@ + kind_name@),
    {
        if str_eq(kind_name, "rectangular") {
            Ok(SignalType::Rectangular)
        } else if str_eq(kind_name, "triangle") {
            Ok(SignalType::Triangle)
        } else if str_eq(kind_name, "cosinus") {
            Ok(SignalType::Cosinus)
        } else if str_eq(kind_name, "sinus") {
            Ok(SignalType::Sinus)
        } else {
            let mut msg = String::from_str("Invalid signal type: ");
            msg.append(kind_name);
            Err(Error::Syntax(msg))
        }
    }
}

} // verus!
