use vstd::prelude::*;
use crate::errors::Error;
use crate::text::{is_number, is_number_text, is_white_space, lemma_blank_trims_to_empty, str_eq, trim, trimmed};

verus! {

/// The circuits that have a data sheet of input variables.
#[derive(Clone, Copy, Debug, PartialEq, Eq, Structural)]
pub enum CircuitKind {
    Integrator,
    Differentiator,
}

/// What an input variable of a circuit stands for.
#[derive(Clone, Copy, Debug, PartialEq, Eq, Structural)]
pub enum VariableKey {
    Resistance,
    Capacitance,
    InputVoltage,
    TimeStep,
}

/// One input variable of a circuit: what it stands for, its label and the hint
/// shown in its empty input field.
#[derive(Clone, Copy, Debug)]
pub struct VariableInfo {
    pub key: VariableKey,
    pub label: &'static str,
    pub placeholder: &'static str,
}

/// The data sheet of a circuit.
#[derive(Clone, Copy, Debug)]
pub struct CircuitInfo {
    /// Unique identifier of the circuit.
    pub id: &'static str,
    /// Name of the circuit, such as "Integrator".
    pub name: &'static str,
    /// Path of the picture of the circuit.
    pub image: &'static str,
    /// The computation that belongs to the circuit.
    pub kind: CircuitKind,
    /// The input variables, in the order in which their values are given.
    pub variables: &'static [VariableInfo],
}

/// The input values of a circuit, each as the number text that it was given as.
#[derive(Debug)]
pub struct CircuitInput {
    pub r: String,
    pub c: String,
    pub ue: String,
    pub dt: String,
}

/// An input variable as plain values: key, label and placeholder.
pub open spec fn variable_view(v: VariableInfo) -> (VariableKey, Seq<char>, Seq<char>) {
    (v.key, v.label@, v.placeholder@)
}

/// The input variables that every circuit with a data sheet shares.
pub open spec fn spec_common_variables() -> Seq<(VariableKey, Seq<char>, Seq<char>)> {
    seq![
        (VariableKey::Resistance, "R"@, "Widerstand eingeben"@),
        (VariableKey::Capacitance, "C"@, "Kapazitaet eingeben"@),
        (VariableKey::InputVoltage, "U_e"@, "Eingangsspannung eingeben"@),
        (VariableKey::TimeStep, "dt"@, "Zeitschritt eingeben"@),
    ]
}

/// The identifier of the data sheet of a circuit kind.
pub open spec fn spec_kind_id(kind: CircuitKind) -> Seq<char> {
    match kind {
        CircuitKind::Integrator => "integrator"@,
        CircuitKind::Differentiator => "differentiator"@,
    }
}

/// Whether `info` is the data sheet of the circuit kind `kind`.
pub open spec fn is_info_of(info: CircuitInfo, kind: CircuitKind) -> bool {
    &&& info.kind == kind
    &&& info.id@ == spec_kind_id(kind)
    &&& info.name@ == match kind {
        CircuitKind::Integrator => "Integrator"@,
        CircuitKind::Differentiator => "Differentiator"@,
    }
    &&& info.image@ == match kind {
        CircuitKind::Integrator => "/public/images/integrator.png"@,
        CircuitKind::Differentiator => "/public/images/differentiator.png"@,
    }
    &&& info.variables@.map_values(|v: VariableInfo| variable_view(v)) == spec_common_variables()
}

/// The kind of the data sheet with the identifier `id`, if there is one.
pub open spec fn spec_find_kind(id: Seq<char>) -> Option<CircuitKind> {
    if id == "integrator"@ {
        Some(CircuitKind::Integrator)
    } else if id == "differentiator"@ {
        Some(CircuitKind::Differentiator)
    } else {
        None
    }
}

/// The data sheets of all circuits that have one.
pub fn circuit_infos() -> (r: &'static [CircuitInfo])
    ensures
        r@.len() == 2,
        is_info_of(r@[0], CircuitKind::Integrator),
        is_info_of(r@[1], CircuitKind::Differentiator),
{
    let r: &'static [CircuitInfo] = &[
        CircuitInfo {
            id: "integrator",
            name: "Integrator",
            image: "/public/images/integrator.png",
            kind: CircuitKind::Integrator,
            variables: &[
                VariableInfo { key: VariableKey::Resistance, label: "R", placeholder: "Widerstand eingeben" },
                VariableInfo { key: VariableKey::Capacitance, label: "C", placeholder: "Kapazitaet eingeben" },
                VariableInfo {
                    key: VariableKey::InputVoltage,
                    label: "U_e",
                    placeholder: "Eingangsspannung eingeben",
                },
                VariableInfo { key: VariableKey::TimeStep, label: "dt", placeholder: "Zeitschritt eingeben" },
            ],
        },
        CircuitInfo {
            id: "differentiator",
            name: "Differentiator",
            image: "/public/images/differentiator.png",
            kind: CircuitKind::Differentiator,
            variables: &[
                VariableInfo { key: VariableKey::Resistance, label: "R", placeholder: "Widerstand eingeben" },
                VariableInfo { key: VariableKey::Capacitance, label: "C", placeholder: "Kapazitaet eingeben" },
                VariableInfo {
                    key: VariableKey::InputVoltage,
                    label: "U_e",
                    placeholder: "Eingangsspannung eingeben",
                },
                VariableInfo { key: VariableKey::TimeStep, label: "dt", placeholder: "Zeitschritt eingeben" },
            ],
        },
    ];
    assert(r@[0].variables@.map_values(|v: VariableInfo| variable_view(v)) =~= spec_common_variables());
    assert(r@[1].variables@.map_values(|v: VariableInfo| variable_view(v)) =~= spec_common_variables());
    r
}

/// Finds the data sheet with the identifier `id` (compared exactly).
pub fn find_circuit_info(id: &str) -> (r: Option<CircuitInfo>)
    ensures
        r is Some <==> spec_find_kind(id@) is Some,
        r matches Some(info) ==> is_info_of(info, spec_find_kind(id@).unwrap()),
{
    let infos = circuit_infos();
    proof {
        reveal_strlit("integrator");
        reveal_strlit("differentiator");
    }
    let mut i: usize = 0;
    while i < infos.len()
        invariant
            infos@.len() == 2,
            is_info_of(infos@[0], CircuitKind::Integrator),
            is_info_of(infos@[1], CircuitKind::Differentiator),
            i <= 2,
            forall|j: int| 0 <= j < i ==> (#[trigger] infos@[j]).id@ != id@,
        decreases 2 - i,
    {
        let info = infos[i];
        if str_eq(info.id, id) {
            return Some(info);
        }
        i = i + 1;
    }
    None
}

/// Whether a value, as it was entered, counts as given: not empty and a number.
pub open spec fn is_given_number(v: Seq<char>) -> bool {
    v.len() > 0 && is_number_text(v)
}

/// The position of the last variable in `vars` that stands for `key`, if any.
pub open spec fn last_index_of_key(vars: Seq<VariableInfo>, key: VariableKey) -> Option<int>
    decreases vars.len(),
{
    if vars.len() == 0 {
        None
    } else if vars.last().key == key {
        Some(vars.len() - 1)
    } else {
        last_index_of_key(vars.drop_last(), key)
    }
}

/// The label under which a missing key is reported.
pub open spec fn key_label(key: VariableKey) -> Seq<char> {
    match key {
        VariableKey::Resistance => "R"@,
        VariableKey::Capacitance => "C"@,
        VariableKey::InputVoltage => "U_e"@,
        VariableKey::TimeStep => "dt"@,
    }
}

/// Whether `r` is what reading the values `values` (already trimmed) for the
/// variables `vars` gives:
/// - when the counts differ, the input as a whole is reported missing;
/// - otherwise the values are read in order, and the first one that is empty is
///   reported missing, or the first one that is no number is reported invalid,
///   under the label of its variable;
/// - when all are numbers, each key takes the value of its last variable, and a key
///   that no variable stands for is reported missing, checked in the order
///   resistance, capacitance, input voltage, time step.
pub open spec fn is_input_outcome(
    vars: Seq<VariableInfo>,
    values: Seq<Seq<char>>,
    r: Result<CircuitInput, Error>,
) -> bool {
    if values.len() != vars.len() {
        r matches Err(Error::MissingInput(l)) && l@ == "den benoetigten Eingaben"@
    } else if exists|i: int| 0 <= i < values.len() && !is_given_number(#[trigger] values[i]) {
        let i = choose|i: int|
            0 <= i < values.len() && !is_given_number(#[trigger] values[i]) && forall|j: int|
                0 <= j < i ==> is_given_number(#[trigger] values[j]);
        if values[i].len() == 0 {
            r matches Err(Error::MissingInput(l)) && l@ == vars[i].label@
        } else {
            r matches Err(Error::InvalidNumber(l)) && l@ == vars[i].label@
        }
    } else if last_index_of_key(vars, VariableKey::Resistance) is None {
        r matches Err(Error::MissingInput(l)) && l@ == key_label(VariableKey::Resistance)
    } else if last_index_of_key(vars, VariableKey::Capacitance) is None {
        r matches Err(Error::MissingInput(l)) && l@ == key_label(VariableKey::Capacitance)
    } else if last_index_of_key(vars, VariableKey::InputVoltage) is None {
        r matches Err(Error::MissingInput(l)) && l@ == key_label(VariableKey::InputVoltage)
    } else if last_index_of_key(vars, VariableKey::TimeStep) is None {
        r matches Err(Error::MissingInput(l)) && l@ == key_label(VariableKey::TimeStep)
    } else {
        &&& r matches Ok(input)
        &&& input.r@ == values[last_index_of_key(vars, VariableKey::Resistance).unwrap()]
        &&& input.c@ == values[last_index_of_key(vars, VariableKey::Capacitance).unwrap()]
        &&& input.ue@ == values[last_index_of_key(vars, VariableKey::InputVoltage).unwrap()]
        &&& input.dt@ == values[last_index_of_key(vars, VariableKey::TimeStep).unwrap()]
    }
}

/// The position kept in `slot`, as a mathematical integer.
pub open spec fn slot_view(slot: Option<usize>) -> Option<int> {
    match slot {
        Some(i) => Some(i as int),
        None => None,
    }
}

proof fn lemma_last_index_step(vars: Seq<VariableInfo>, i: int, key: VariableKey)
    requires
        0 <= i < vars.len(),
    ensures
        last_index_of_key(vars.subrange(0, i + 1), key) == if vars[i].key == key {
            Some(i)
        } else {
            last_index_of_key(vars.subrange(0, i), key)
        },
{
    assert(vars.subrange(0, i + 1).drop_last() =~= vars.subrange(0, i));
}

proof fn lemma_last_index_bounds(vars: Seq<VariableInfo>, key: VariableKey)
    ensures
        last_index_of_key(vars, key) matches Some(k) ==> 0 <= k < vars.len() && vars[k].key == key,
    decreases vars.len(),
{
    if vars.len() > 0 && vars.last().key != key {
        lemma_last_index_bounds(vars.drop_last(), key);
    }
}

fn take_slot(values: &[&str], slot: Option<usize>) -> (r: String)
    requires
        slot matches Some(k) ==> k < values@.len(),
        slot is Some,
    ensures
        r@ == values@[slot.unwrap() as int]@,
{
    match slot {
        Some(k) => String::from_str(values[k]),
        None => String::new(),
    }
}

impl CircuitInfo {
    /// Reads the input values of this circuit from values that are already trimmed.
    pub fn input_from_trimmed(&self, values: &[&str]) -> (r: Result<CircuitInput, Error>)
        ensures
            is_input_outcome(self.variables@, values@.map_values(|v: &str| v@), r),
    {
        let ghost vals = values@.map_values(|v: &str| v@);
        let ghost vars = self.variables@;
        let n = values.len();
        if n != self.variables.len() {
            return Err(Error::MissingInput(String::from_str("den benoetigten Eingaben")));
        }
        let mut r: Option<usize> = None;
        let mut c: Option<usize> = None;
        let mut ue: Option<usize> = None;
        let mut dt: Option<usize> = None;
        let mut i: usize = 0;
        while i < n
            invariant
                n == values@.len(),
                n == vars.len(),
                vars == self.variables@,
                vals == values@.map_values(|v: &str| v@),
                i <= n,
                forall|j: int| 0 <= j < i ==> is_given_number(#[trigger] vals[j]),
                slot_view(r) == last_index_of_key(vars.subrange(0, i as int), VariableKey::Resistance),
                slot_view(c) == last_index_of_key(vars.subrange(0, i as int), VariableKey::Capacitance),
                slot_view(ue) == last_index_of_key(vars.subrange(0, i as int), VariableKey::InputVoltage),
                slot_view(dt) == last_index_of_key(vars.subrange(0, i as int), VariableKey::TimeStep),
            decreases n - i,
        {
            let variable = self.variables[i];
            let v = values[i];
            assert(vals[i as int] == v@);
            if v.unicode_len() == 0 || !is_number(v) {
                assert(forall|j: int| 0 <= j < i ==> is_given_number(#[trigger] vals[j]));
                let ghost k = choose|k: int|
                    0 <= k < vals.len() && !is_given_number(#[trigger] vals[k]) && forall|j: int|
                        0 <= j < k ==> is_given_number(#[trigger] vals[j]);
                assert(k == i) by {
                    if k < i {
                        assert(is_given_number(vals[k]));
                    } else if k > i {
                        assert(is_given_number(vals[i as int]));
                    }
                }
                if v.unicode_len() == 0 {
                    return Err(Error::MissingInput(String::from_str(variable.label)));
                } else {
                    return Err(Error::InvalidNumber(String::from_str(variable.label)));
                }
            }
            proof {
                lemma_last_index_step(vars, i as int, VariableKey::Resistance);
                lemma_last_index_step(vars, i as int, VariableKey::Capacitance);
                lemma_last_index_step(vars, i as int, VariableKey::InputVoltage);
                lemma_last_index_step(vars, i as int, VariableKey::TimeStep);
            }
            match variable.key {
                VariableKey::Resistance => r = Some(i),
                VariableKey::Capacitance => c = Some(i),
                VariableKey::InputVoltage => ue = Some(i),
                VariableKey::TimeStep => dt = Some(i),
            }
            i = i + 1;
        }
        assert(vars.subrange(0, n as int) =~= vars);
        assert(!exists|k: int| 0 <= k < vals.len() && !is_given_number(#[trigger] vals[k]));
        proof {
            lemma_last_index_bounds(vars, VariableKey::Resistance);
            lemma_last_index_bounds(vars, VariableKey::Capacitance);
            lemma_last_index_bounds(vars, VariableKey::InputVoltage);
            lemma_last_index_bounds(vars, VariableKey::TimeStep);
        }
        if r.is_none() {
            return Err(Error::MissingInput(String::from_str("R")));
        }
        if c.is_none() {
            return Err(Error::MissingInput(String::from_str("C")));
        }
        if ue.is_none() {
            return Err(Error::MissingInput(String::from_str("U_e")));
        }
        if dt.is_none() {
            return Err(Error::MissingInput(String::from_str("dt")));
        }
        Ok(CircuitInput {
            r: take_slot(values, r),
            c: take_slot(values, c),
            ue: take_slot(values, ue),
            dt: take_slot(values, dt),
        })
    }

    /// Reads the input values of this circuit from the raw texts of its input
    /// fields, one per variable; each text is trimmed first.
    pub fn parse_input_values(&self, raw_values: &[String]) -> (r: Result<CircuitInput, Error>)
        ensures
            is_input_outcome(self.variables@, raw_values@.map_values(|v: String| trimmed(v@)), r),
    {
        let mut parts: Vec<&str> = Vec::new();
        let mut i: usize = 0;
        while i < raw_values.len()
            invariant
                i <= raw_values@.len(),
                parts@.len() == i,
                forall|j: int| 0 <= j < i ==> (#[trigger] parts@[j])@ == trimmed(raw_values@[j]@),
            decreases raw_values@.len() - i,
        {
            parts.push(trim(raw_values[i].as_str()));
            i = i + 1;
        }
        assert(parts@.map_values(|v: &str| v@) =~= raw_values@.map_values(|v: String| trimmed(v@)));
        self.input_from_trimmed(parts.as_slice())
    }
}

/// The data sheet found for an identifier carries that identifier.
pub proof fn lemma_found_info_has_id(id: Seq<char>, kind: CircuitKind)
    requires
        spec_find_kind(id) == Some(kind),
    ensures
        spec_kind_id(kind) == id,
{
}

/// With a built-in data sheet, four non-empty values that are all numbers by the
/// number grammar (negative ones included) always read, and
/// each value goes to its own key in the order resistance, capacitance, input
/// voltage, time step.
pub proof fn lemma_builtin_sheet_reads(
    info: CircuitInfo,
    kind: CircuitKind,
    values: Seq<Seq<char>>,
    r: Result<CircuitInput, Error>,
)
    requires
        is_info_of(info, kind),
        values.len() == 4,
        forall|i: int| 0 <= i < 4 ==> (#[trigger] values[i]).len() > 0 && is_number_text(values[i]),
        is_input_outcome(info.variables@, values, r),
    ensures
        r matches Ok(input) && input.r@ == values[0] && input.c@ == values[1] && input.ue@ == values[2]
            && input.dt@ == values[3],
{
    let vars = info.variables@;
    let views = vars.map_values(|v: VariableInfo| variable_view(v));
    assert(views.len() == 4);
    assert(views[0].0 == VariableKey::Resistance);
    assert(views[1].0 == VariableKey::Capacitance);
    assert(views[2].0 == VariableKey::InputVoltage);
    assert(views[3].0 == VariableKey::TimeStep);
    assert(vars[0].key == VariableKey::Resistance);
    assert(vars[1].key == VariableKey::Capacitance);
    assert(vars[2].key == VariableKey::InputVoltage);
    assert(vars[3].key == VariableKey::TimeStep);
    let v3 = vars.drop_last();
    let v2 = v3.drop_last();
    let v1 = v2.drop_last();
    assert(v1.last().key == VariableKey::Resistance);
    assert(v2.last().key == VariableKey::Capacitance);
    assert(v3.last().key == VariableKey::InputVoltage);
    assert(last_index_of_key(vars, VariableKey::TimeStep) == Some(3int));
    assert(last_index_of_key(v3, VariableKey::InputVoltage) == Some(2int));
    assert(last_index_of_key(vars, VariableKey::InputVoltage) == Some(2int));
    assert(last_index_of_key(v2, VariableKey::Capacitance) == Some(1int));
    assert(last_index_of_key(v3, VariableKey::Capacitance) == Some(1int));
    assert(last_index_of_key(vars, VariableKey::Capacitance) == Some(1int));
    assert(last_index_of_key(v1, VariableKey::Resistance) == Some(0int));
    assert(last_index_of_key(v2, VariableKey::Resistance) == Some(0int));
    assert(last_index_of_key(v3, VariableKey::Resistance) == Some(0int));
    assert(last_index_of_key(vars, VariableKey::Resistance) == Some(0int));
    assert(forall|i: int| 0 <= i < 4 ==> is_given_number(#[trigger] values[i]));
    assert(!exists|i: int| 0 <= i < values.len() && !is_given_number(#[trigger] values[i]));
}

/// Every value of a circuit input that was read is a non-empty number text.
pub proof fn lemma_read_inputs_are_numbers(
    vars: Seq<VariableInfo>,
    values: Seq<Seq<char>>,
    r: Result<CircuitInput, Error>,
)
    requires
        is_input_outcome(vars, values, r),
    ensures
        r matches Ok(input) ==> is_given_number(input.r@) && is_given_number(input.c@)
            && is_given_number(input.ue@) && is_given_number(input.dt@),
{
    if r is Ok {
        lemma_last_index_bounds(vars, VariableKey::Resistance);
        lemma_last_index_bounds(vars, VariableKey::Capacitance);
        lemma_last_index_bounds(vars, VariableKey::InputVoltage);
        lemma_last_index_bounds(vars, VariableKey::TimeStep);
        let kr = last_index_of_key(vars, VariableKey::Resistance).unwrap();
        let kc = last_index_of_key(vars, VariableKey::Capacitance).unwrap();
        let ku = last_index_of_key(vars, VariableKey::InputVoltage).unwrap();
        let kd = last_index_of_key(vars, VariableKey::TimeStep).unwrap();
        assert(is_given_number(values[kr]));
        assert(is_given_number(values[kc]));
        assert(is_given_number(values[ku]));
        assert(is_given_number(values[kd]));
    }
}

/// An input field that holds only white space is reported missing under the label
/// of its variable, when every field before it holds a number.
pub proof fn lemma_blank_input_is_missing(
    vars: Seq<VariableInfo>,
    raw: Seq<Seq<char>>,
    i: int,
    r: Result<CircuitInput, Error>,
)
    requires
        raw.len() == vars.len(),
        0 <= i < raw.len(),
        forall|j: int| 0 <= j < i ==> is_given_number(#[trigger] trimmed(raw[j])),
        forall|j: int| 0 <= j < raw[i].len() ==> is_white_space(#[trigger] raw[i][j]),
        is_input_outcome(vars, raw.map_values(|v: Seq<char>| trimmed(v)), r),
    ensures
        r matches Err(Error::MissingInput(l)) && l@ == vars[i].label@,
{
    let vals = raw.map_values(|v: Seq<char>| trimmed(v));
    lemma_blank_trims_to_empty(raw[i]);
    assert(vals[i] == trimmed(raw[i]));
    assert(!is_given_number(vals[i]));
    let k = choose|k: int|
        0 <= k < vals.len() && !is_given_number(#[trigger] vals[k]) && forall|j: int|
            0 <= j < k ==> is_given_number(#[trigger] vals[j]);
    if k < i {
        assert(vals[k] == trimmed(raw[k]));
        assert(is_given_number(trimmed(raw[k])));
    } else if k > i {
        assert(is_given_number(vals[i]));
    }
}

/// The picture of each data sheet is its own: it is named after the identifier.
pub proof fn lemma_info_image_is_own(info: CircuitInfo, kind: CircuitKind)
    requires
        is_info_of(info, kind),
    ensures
        info.image@ == "/public/images/"@ + info.id@ + ".png"@,
{
    reveal_strlit("/public/images/");
    reveal_strlit(".png");
    reveal_strlit("integrator");
    reveal_strlit("differentiator");
    reveal_strlit("/public/images/integrator.png");
    reveal_strlit("/public/images/differentiator.png");
    assert(info.image@ =~= "/public/images/"@ + info.id@ + ".png"@);
}

} // verus!
