use vstd::prelude::*;
use crate::circuits::CircuitType;
use crate::signals::SignalType;
use crate::text::{
    all_digits, comma_to_point, is_decimal, is_mantissa, is_number, is_number_text, replace_char, str_eq,
    is_white_space, lemma_blank_trims_to_empty, lemma_digits_are_number, lemma_number_has_no_comma,
    lemma_trim_surrounding, trim, trimmed, without_sign,
};

verus! {

/// The value that a variable takes when its input field is left empty.
pub open spec fn spec_default_value(variable: Seq<char>) -> Option<Seq<char>> {
    if variable == "R"@ || variable == "R1"@ || variable == "RK"@ {
        Some("1000"@)
    } else if variable == "C"@ || variable == "C1"@ || variable == "CK"@ {
        Some("0,000001"@)
    } else if variable == "Value"@ || variable == "Amplitude"@ {
        Some("1"@)
    } else if variable == "Frequency"@ {
        Some("100"@)
    } else if variable == "Phase"@ {
        Some("0"@)
    } else {
        None
    }
}

/// The value that a variable takes when its input field is left empty, if it has one.
pub fn default_value_for_variable(variable: &str) -> (r: Option<&'static str>)
    ensures
        r matches Some(d) ==> spec_default_value(variable@) == Some(d@),
        r is None ==> spec_default_value(variable@) is None,
{
    if str_eq(variable, "R") || str_eq(variable, "R1") || str_eq(variable, "RK") {
        Some("1000")
    } else if str_eq(variable, "C") || str_eq(variable, "C1") || str_eq(variable, "CK") {
        Some("0,000001")
    } else if str_eq(variable, "Value") {
        Some("1")
    } else if str_eq(variable, "Amplitude") {
        Some("1")
    } else if str_eq(variable, "Frequency") {
        Some("100")
    } else if str_eq(variable, "Phase") {
        Some("0")
    } else {
        None
    }
}

/// What the input of one variable gives: `found` is the trimmed text of its input
/// field, if the field holds one. An empty or absent text gives way to the default
/// of the variable; a decimal comma reads as a decimal point. The result is the
/// number text, or the message shown to the user.
pub open spec fn value_outcome(found: Option<Seq<char>>, variable: Seq<char>) -> Result<Seq<char>, Seq<char>> {
    let raw = match found {
        Some(t) => if t.len() > 0 { Some(t) } else { spec_default_value(variable) },
        None => spec_default_value(variable),
    };
    match raw {
        None => Err("Fehlender Wert für "@ + variable),
        Some(t) => {
            let x = replace_char(t, ',', '.');
            if is_number_text(x) {
                Ok(x)
            } else {
                Err("Ungültiger Zahlenwert für "@ + variable)
            }
        },
    }
}

/// The text entered for `name`: the value of the first pair whose name is `name`.
pub open spec fn lookup(values: Seq<(String, String)>, name: Seq<char>) -> Option<Seq<char>>
    decreases values.len(),
{
    if values.len() == 0 {
        None
    } else if values[0].0@ == name {
        Some(values[0].1@)
    } else {
        lookup(values.drop_first(), name)
    }
}

/// The text entered for `name`, trimmed.
pub open spec fn found_trimmed(values: Seq<(String, String)>, name: Seq<char>) -> Option<Seq<char>> {
    match lookup(values, name) {
        Some(v) => Some(trimmed(v)),
        None => None,
    }
}

/// The number text of one variable, from the trimmed text of its input field.
pub fn value_for_variable(found: Option<&str>, variable: &str) -> (r: Result<String, String>)
    ensures
        value_outcome(
            match found {
                Some(t) => Some(t@),
                None => None,
            },
            variable@,
        ) == match r {
            Ok(v) => Ok::<Seq<char>, Seq<char>>(v@),
            Err(e) => Err::<Seq<char>, Seq<char>>(e@),
        },
{
    let raw: Option<&str> = match found {
        Some(t) => if t.unicode_len() > 0 {
            Some(t)
        } else {
            default_value_for_variable(variable)
        },
        None => default_value_for_variable(variable),
    };
    match raw {
        None => {
            let mut msg = String::from_str("Fehlender Wert für ");
            msg.append(variable);
            Err(msg)
        },
        Some(t) => {
            let x = comma_to_point(t);
            if is_number(x.as_str()) {
                Ok(x)
            } else {
                let mut msg = String::from_str("Ungültiger Zahlenwert für ");
                msg.append(variable);
                Err(msg)
            }
        },
    }
}

fn lookup_value<'a>(values: &'a [(String, String)], name: &str) -> (r: Option<&'a str>)
    ensures
        match r {
            Some(v) => lookup(values@, name@) == Some(v@),
            None => lookup(values@, name@) is None,
        },
{
    let mut i: usize = 0;
    assert(values@.subrange(0, values@.len() as int) =~= values@);
    while i < values.len()
        invariant
            i <= values@.len(),
            lookup(values@, name@) == lookup(values@.subrange(i as int, values@.len() as int), name@),
        decreases values@.len() - i,
    {
        assert(values@.subrange(i as int, values@.len() as int).drop_first() =~= values@.subrange(
            i + 1,
            values@.len() as int,
        ));
        if str_eq(values[i].0.as_str(), name) {
            return Some(values[i].1.as_str());
        }
        i = i + 1;
    }
    None
}

/// The number texts of the variables `variables`, in order, from the texts entered
/// in their input fields (`values` pairs a variable's name with its text). The first
/// variable that has no value or no number gives the error message.
pub fn parse_values_for_variables(values: &[(String, String)], variables: &[&str]) -> (r: Result<Vec<String>, String>)
    ensures
        r is Ok <==> forall|i: int| 0 <= i < variables@.len()
            ==> (value_outcome(found_trimmed(values@, variables@[i]@), #[trigger] variables@[i]@) is Ok),
        r matches Ok(v) ==> v@.len() == variables@.len() && forall|i: int| 0 <= i < variables@.len()
            ==> value_outcome(found_trimmed(values@, variables@[i]@), #[trigger] variables@[i]@)
                == Ok::<Seq<char>, Seq<char>>(v@[i]@),
        r matches Err(e) ==> exists|i: int| 0 <= i < variables@.len()
            && value_outcome(found_trimmed(values@, variables@[i]@), #[trigger] variables@[i]@)
                == Err::<Seq<char>, Seq<char>>(e@)
            && forall|j: int| 0 <= j < i ==> (value_outcome(found_trimmed(values@, variables@[j]@), #[trigger] variables@[j]@) is Ok),
{
    let mut out: Vec<String> = Vec::new();
    let mut i: usize = 0;
    while i < variables.len()
        invariant
            i <= variables@.len(),
            out@.len() == i,
            forall|j: int| 0 <= j < i ==> value_outcome(found_trimmed(values@, variables@[j]@), #[trigger] variables@[j]@)
                == Ok::<Seq<char>, Seq<char>>(out@[j]@),
        decreases variables@.len() - i,
    {
        let variable = variables[i];
        let found = match lookup_value(values, variable) {
            Some(v) => Some(trim(v)),
            None => None,
        };
        assert(match found {
            Some(t) => Some(t@),
            None => None,
        } == found_trimmed(values@, variables@[i as int]@));
        match value_for_variable(found, variable) {
            Ok(x) => out.push(x),
            Err(e) => {
                assert(forall|j: int| 0 <= j < i ==> (value_outcome(found_trimmed(values@, variables@[j]@), #[trigger] variables@[j]@) is Ok));
                return Err(e);
            },
        }
        i = i + 1;
    }
    Ok(out)
}

/// Every default value reads as a number once its decimal comma is a point.
proof fn lemma_default_is_number(variable: Seq<char>)
    requires
        spec_default_value(variable) is Some,
    ensures
        value_outcome(None, variable) == Ok::<Seq<char>, Seq<char>>(
            replace_char(spec_default_value(variable).unwrap(), ',', '.'),
        ),
{
    reveal_strlit("1000");
    reveal_strlit("0,000001");
    reveal_strlit("1");
    reveal_strlit("100");
    reveal_strlit("0");
    let d = spec_default_value(variable).unwrap();
    let x = replace_char(d, ',', '.');
    if d == "0,000001"@ {
        assert(x =~= seq!['0', '.', '0', '0', '0', '0', '0', '1']);
        assert(x[1] == '.');
        assert(all_digits(x.subrange(0, 1)));
        assert(all_digits(x.subrange(2, 8)));
        assert(is_mantissa(x));
        assert(without_sign(x) == x);
        assert(is_decimal(x));
    } else {
        assert(x =~= d);
        lemma_digits_are_number(x);
    }
}

/// Every value of every circuit has a default that is a number: a circuit form left
/// empty reads without error.
pub proof fn lemma_circuit_form_defaults(t: CircuitType, i: int)
    requires
        0 <= i < t.spec_variables().len(),
    ensures
        value_outcome(found_trimmed(Seq::empty(), t.spec_variables()[i]), t.spec_variables()[i]) is Ok,
{
    let v = t.spec_variables()[i];
    reveal_strlit("R");
    reveal_strlit("C");
    reveal_strlit("R1");
    reveal_strlit("CK");
    reveal_strlit("RK");
    reveal_strlit("C1");
    assert(spec_default_value(v) is Some);
    lemma_default_is_number(v);
}

/// Every value of every signal has a default that is a number: a signal form left
/// empty reads without error.
pub proof fn lemma_signal_form_defaults(t: SignalType, i: int)
    requires
        0 <= i < t.spec_variables().len(),
    ensures
        value_outcome(found_trimmed(Seq::empty(), t.spec_variables()[i]), t.spec_variables()[i]) is Ok,
{
    let v = t.spec_variables()[i];
    assert(spec_default_value(v) is Some);
    lemma_default_is_number(v);
}

/// What reading a form gives is always a number text, and it holds no comma.
pub proof fn lemma_form_values_are_numbers(found: Option<Seq<char>>, variable: Seq<char>)
    ensures
        value_outcome(found, variable) matches Ok(x) ==> is_number_text(x) && !x.contains(','),
{
    if let Ok(x) = value_outcome(found, variable) {
        if x.contains(',') {
            let i = choose|i: int| 0 <= i < x.len() && x[i] == ',';
            let raw = match found {
                Some(t) => if t.len() > 0 { Some(t) } else { spec_default_value(variable) },
                None => spec_default_value(variable),
            };
            let t = raw.unwrap();
            assert(x == replace_char(t, ',', '.'));
            assert(x[i] == if t[i] == ',' { '.' } else { t[i] });
        }
    }
}

/// A field that holds only white space counts as empty: the variable takes its default.
pub proof fn lemma_blank_field_takes_default(text: Seq<char>, variable: Seq<char>)
    requires
        forall|j: int| 0 <= j < text.len() ==> is_white_space(#[trigger] text[j]),
    ensures
        value_outcome(Some(trimmed(text)), variable) == value_outcome(None, variable),
{
    lemma_blank_trims_to_empty(text);
}

/// White space around an entered value is ignored.
pub proof fn lemma_surrounding_space_ignored(
    before: Seq<char>,
    core: Seq<char>,
    after: Seq<char>,
    variable: Seq<char>,
)
    requires
        forall|j: int| 0 <= j < before.len() ==> is_white_space(#[trigger] before[j]),
        forall|j: int| 0 <= j < after.len() ==> is_white_space(#[trigger] after[j]),
        core.len() > 0,
        !is_white_space(core[0]),
        !is_white_space(core.last()),
    ensures
        value_outcome(Some(trimmed(before + core + after)), variable) == value_outcome(Some(core), variable),
{
    lemma_trim_surrounding(before, core, after);
}

/// An entered text (already trimmed, non-empty) whose decimal commas read as points
/// give a number is taken as given: the result has the same length as the text,
/// every comma is a point, and every other character, a sign among them, is kept.
pub proof fn lemma_entered_value_kept(t: Seq<char>, variable: Seq<char>)
    requires
        t.len() > 0,
        is_number_text(replace_char(t, ',', '.')),
    ensures
        value_outcome(Some(t), variable) matches Ok(x) && x.len() == t.len() && forall|i: int|
            0 <= i < t.len() ==> (t[i] == ',' ==> x[i] == '.') && (t[i] != ',' ==> #[trigger] x[i] == t[i]),
{
}

/// An entered number without commas is taken exactly as it was entered.
pub proof fn lemma_entered_number_unchanged(t: Seq<char>, variable: Seq<char>)
    requires
        t.len() > 0,
        is_number_text(t),
    ensures
        value_outcome(Some(t), variable) == Ok::<Seq<char>, Seq<char>>(t),
{
    lemma_number_has_no_comma(t);
    assert(replace_char(t, ',', '.') =~= t);
}

} // verus!
