use vstd::prelude::*;
use crate::errors::Error;
use crate::text::{ascii_lower, eq_ignore_ascii_case, lemma_ascii_lower_fixed};

verus! {

/// The input signals that a circuit can be fed with.
#[derive(Clone, Copy, Debug, PartialEq, Eq, Structural)]
pub enum SignalType {
    Constant,
    Sinus,
    Cosinus,
    Rectangular,
    Triangular,
}

impl SignalType {
    /// Every signal type, in the order in which they are offered.
    pub open spec fn spec_all() -> Seq<SignalType> {
        seq![
            SignalType::Constant,
            SignalType::Sinus,
            SignalType::Cosinus,
            SignalType::Rectangular,
            SignalType::Triangular,
        ]
    }

    /// The identifier of a signal type, as it appears in a form or a URL.
    pub open spec fn spec_id(self) -> Seq<char> {
        match self {
            SignalType::Constant => "constant"@,
            SignalType::Sinus => "sinus"@,
            SignalType::Cosinus => "cosinus"@,
            SignalType::Rectangular => "rectangular"@,
            SignalType::Triangular => "triangular"@,
        }
    }

    /// The name of a signal type, as it is shown to a user.
    pub open spec fn spec_name(self) -> Seq<char> {
        match self {
            SignalType::Constant => "Konstant"@,
            SignalType::Sinus => "Sinus"@,
            SignalType::Cosinus => "Cosinus"@,
            SignalType::Rectangular => "Rechteck"@,
            SignalType::Triangular => "Dreieck"@,
        }
    }

    /// The values that a signal of this type is built from, in order.
    pub open spec fn spec_variables(self) -> Seq<Seq<char>> {
        match self {
            SignalType::Constant => seq!["Value"@],
            _ => seq!["Amplitude"@, "Frequency"@, "Phase"@],
        }
    }

    /// The signal type that an identifier names, ignoring the case of ASCII letters.
    pub open spec fn spec_from_id(name: Seq<char>) -> Option<SignalType> {
        let n = ascii_lower(name);
        if n == "constant"@ {
            Some(SignalType::Constant)
        } else if n == "sinus"@ {
            Some(SignalType::Sinus)
        } else if n == "cosinus"@ {
            Some(SignalType::Cosinus)
        } else if n == "rectangular"@ {
            Some(SignalType::Rectangular)
        } else if n == "triangular"@ {
            Some(SignalType::Triangular)
        } else {
            None
        }
    }

    /// Every signal type, in the order in which they are offered.
    pub fn all() -> (r: &'static [SignalType])
        ensures
            r@ == Self::spec_all(),
    {
        &[
            SignalType::Constant,
            SignalType::Sinus,
            SignalType::Cosinus,
            SignalType::Rectangular,
            SignalType::Triangular,
        ]
    }

    /// The signal type that an identifier names, ignoring the case of ASCII letters.
    pub fn from_id(name: &str) -> (r: Option<SignalType>)
        ensures
            r == Self::spec_from_id(name@),
    {
        proof {
            reveal_strlit("constant");
            reveal_strlit("sinus");
            reveal_strlit("cosinus");
            reveal_strlit("rectangular");
            reveal_strlit("triangular");
            lemma_ascii_lower_fixed("constant"@);
            lemma_ascii_lower_fixed("sinus"@);
            lemma_ascii_lower_fixed("cosinus"@);
            lemma_ascii_lower_fixed("rectangular"@);
            lemma_ascii_lower_fixed("triangular"@);
        }
        if eq_ignore_ascii_case(name, "constant") {
            Some(SignalType::Constant)
        } else if eq_ignore_ascii_case(name, "sinus") {
            Some(SignalType::Sinus)
        } else if eq_ignore_ascii_case(name, "cosinus") {
            Some(SignalType::Cosinus)
        } else if eq_ignore_ascii_case(name, "rectangular") {
            Some(SignalType::Rectangular)
        } else if eq_ignore_ascii_case(name, "triangular") {
            Some(SignalType::Triangular)
        } else {
            None
        }
    }

    /// The identifier of this signal type.
    pub fn id(&self) -> (r: &'static str)
        ensures
            r@ == self.spec_id(),
    {
        match self {
            SignalType::Constant => "constant",
            SignalType::Sinus => "sinus",
            SignalType::Cosinus => "cosinus",
            SignalType::Rectangular => "rectangular",
            SignalType::Triangular => "triangular",
        }
    }

    /// The name of this signal type, as it is shown to a user.
    pub fn name(&self) -> (r: &'static str)
        ensures
            r@ == self.spec_name(),
    {
        match self {
            SignalType::Constant => "Konstant",
            SignalType::Sinus => "Sinus",
            SignalType::Cosinus => "Cosinus",
            SignalType::Rectangular => "Rechteck",
            SignalType::Triangular => "Dreieck",
        }
    }

    /// The names of the values that a signal of this type is built from, in order.
    pub fn variables(&self) -> (r: &'static [&'static str])
        ensures
            r@.len() == self.spec_variables().len(),
            forall|i: int| 0 <= i < r@.len() ==> (#[trigger] r@[i])@ == self.spec_variables()[i],
    {
        match self {
            SignalType::Constant => &["Value"],
            SignalType::Sinus
            | SignalType::Cosinus
            | SignalType::Rectangular
            | SignalType::Triangular => &["Amplitude", "Frequency", "Phase"],
        }
    }

    /// Decides whether a signal of this type can be built from `count` values,
    /// taken in the order of `variables()`. `frequency_is_negative` tells whether
    /// the frequency value (the second one) lies below zero; it is only looked at
    /// when every value is present. A missing value is reported by the name of the
    /// first one that is missing.
    pub fn check_values(&self, count: usize, frequency_is_negative: bool) -> (r: Result<(), Error>)
        ensures
            count < self.spec_variables().len() ==> (r matches Err(Error::CircuitConstructError(k))
                && k@ == self.spec_variables()[count as int]),
            count >= self.spec_variables().len() && *self != SignalType::Constant
                && frequency_is_negative ==> r matches Err(Error::NegativeFrequency),
            count >= self.spec_variables().len() && (*self == SignalType::Constant
                || !frequency_is_negative) ==> r is Ok,
    {
        let vars = self.variables();
        if count < vars.len() {
            return Err(Error::CircuitConstructError(String::from_str(vars[count])));
        }
        match self {
            SignalType::Constant => Ok(()),
            _ => {
                if frequency_is_negative {
                    Err(Error::NegativeFrequency)
                } else {
                    Ok(())
                }
            },
        }
    }
}

/// Each signal type is found again from its own identifier.
pub proof fn lemma_signal_id_round_trip(t: SignalType)
    ensures
        SignalType::spec_from_id(t.spec_id()) == Some(t),
{
    reveal_strlit("constant");
    reveal_strlit("sinus");
    reveal_strlit("cosinus");
    reveal_strlit("rectangular");
    reveal_strlit("triangular");
    lemma_ascii_lower_fixed(t.spec_id());
}

/// An identifier is accepted only if it is, up to the case of ASCII letters, the
/// identifier of the signal type that it names.
pub proof fn lemma_signal_from_id_exact(name: Seq<char>, t: SignalType)
    requires
        SignalType::spec_from_id(name) == Some(t),
    ensures
        ascii_lower(name) == t.spec_id(),
{
}

/// Two identifiers that differ only in the case of ASCII letters name the same signal type.
pub proof fn lemma_signal_from_id_ignores_case(a: Seq<char>, b: Seq<char>)
    requires
        ascii_lower(a) == ascii_lower(b),
    ensures
        SignalType::spec_from_id(a) == SignalType::spec_from_id(b),
{
}

/// The list of all signal types holds every signal type exactly once.
pub proof fn lemma_all_signals_once(t: SignalType)
    ensures
        SignalType::spec_all().contains(t),
        forall|i: int, j: int| 0 <= i < j < SignalType::spec_all().len()
            ==> SignalType::spec_all()[i] != SignalType::spec_all()[j],
{
    let all = SignalType::spec_all();
    match t {
        SignalType::Constant => assert(all[0] == t),
        SignalType::Sinus => assert(all[1] == t),
        SignalType::Cosinus => assert(all[2] == t),
        SignalType::Rectangular => assert(all[3] == t),
        SignalType::Triangular => assert(all[4] == t),
    }
}

/// Different signal types have different identifiers.
pub proof fn lemma_signal_ids_distinct(a: SignalType, b: SignalType)
    requires
        a != b,
    ensures
        a.spec_id() != b.spec_id(),
{
    lemma_signal_id_round_trip(a);
    lemma_signal_id_round_trip(b);
}

/// Every periodic signal is built from its amplitude, its frequency and its phase, in
/// that order, so that the frequency is the second value; a constant signal is built
/// from its one value.
pub proof fn lemma_signal_value_order(t: SignalType)
    ensures
        t != SignalType::Constant ==> t.spec_variables().len() == 3 && t.spec_variables()[0] == "Amplitude"@
            && t.spec_variables()[1] == "Frequency"@ && t.spec_variables()[2] == "Phase"@,
        t == SignalType::Constant ==> t.spec_variables().len() == 1 && t.spec_variables()[0] == "Value"@,
{
}

} // verus!
