use vstd::prelude::*;
use crate::errors::Error;
use crate::text::{ascii_lower, eq_ignore_ascii_case, lemma_ascii_lower_fixed};

verus! {

/// The operational-amplifier circuits that can be simulated.
#[derive(Clone, Copy, Debug, PartialEq, Eq, Structural)]
pub enum CircuitType {
    Integrator,
    Differentiator,
    Tiefpass,
    Hochpass,
    PDGlied,
}

impl CircuitType {
    /// Every circuit type, in the order in which they are offered.
    pub open spec fn spec_all() -> Seq<CircuitType> {
        seq![
            CircuitType::Integrator,
            CircuitType::Differentiator,
            CircuitType::Tiefpass,
            CircuitType::Hochpass,
            CircuitType::PDGlied,
        ]
    }

    /// The identifier of a circuit type, as it appears in a URL.
    pub open spec fn spec_id(self) -> Seq<char> {
        match self {
            CircuitType::Integrator => "integrator"@,
            CircuitType::Differentiator => "differentiator"@,
            CircuitType::Tiefpass => "tiefpass"@,
            CircuitType::Hochpass => "hochpass"@,
            CircuitType::PDGlied => "pdglied"@,
        }
    }

    /// The name of a circuit type, as it is shown to a user.
    pub open spec fn spec_name(self) -> Seq<char> {
        match self {
            CircuitType::Integrator => "Integrator"@,
            CircuitType::Differentiator => "Differentiator"@,
            CircuitType::Tiefpass => "Tiefpass"@,
            CircuitType::Hochpass => "Hochpass"@,
            CircuitType::PDGlied => "PDGlied"@,
        }
    }

    /// The path of the picture of a circuit type.
    pub open spec fn spec_image(self) -> Seq<char> {
        match self {
            CircuitType::Integrator => "/images/integrator.png"@,
            CircuitType::Differentiator => "/images/differentiator.png"@,
            CircuitType::Tiefpass => "/images/tiefpass.png"@,
            CircuitType::Hochpass => "/images/hochpass.png"@,
            CircuitType::PDGlied => "/images/pdglied.png"@,
        }
    }

    /// The component values that a circuit of this type is built from, in order.
    pub open spec fn spec_variables(self) -> Seq<Seq<char>> {
        match self {
            CircuitType::Integrator => seq!["R"@, "C"@],
            CircuitType::Differentiator => seq!["R"@, "C"@],
            CircuitType::Tiefpass => seq!["R1"@, "CK"@, "RK"@],
            CircuitType::Hochpass => seq!["R1"@, "C1"@, "RK"@],
            CircuitType::PDGlied => seq!["R1"@, "RK"@, "C1"@],
        }
    }

    /// The circuit type that an identifier names, ignoring the case of ASCII letters.
    pub open spec fn spec_from_id(name: Seq<char>) -> Option<CircuitType> {
        let n = ascii_lower(name);
        if n == "integrator"@ {
            Some(CircuitType::Integrator)
        } else if n == "differentiator"@ {
            Some(CircuitType::Differentiator)
        } else if n == "tiefpass"@ {
            Some(CircuitType::Tiefpass)
        } else if n == "hochpass"@ {
            Some(CircuitType::Hochpass)
        } else if n == "pdglied"@ {
            Some(CircuitType::PDGlied)
        } else {
            None
        }
    }

    /// Every circuit type, in the order in which they are offered.
    pub fn all() -> (r: &'static [CircuitType])
        ensures
            r@ == Self::spec_all(),
    {
        &[
            CircuitType::Integrator,
            CircuitType::Differentiator,
            CircuitType::Tiefpass,
            CircuitType::Hochpass,
            CircuitType::PDGlied,
        ]
    }

    /// The circuit type that an identifier names, ignoring the case of ASCII letters.
    pub fn from_id(name: &str) -> (r: Option<CircuitType>)
        ensures
            r == Self::spec_from_id(name@),
    {
        proof {
            reveal_strlit("integrator");
            reveal_strlit("differentiator");
            reveal_strlit("tiefpass");
            reveal_strlit("hochpass");
            reveal_strlit("pdglied");
            lemma_ascii_lower_fixed("integrator"@);
            lemma_ascii_lower_fixed("differentiator"@);
            lemma_ascii_lower_fixed("tiefpass"@);
            lemma_ascii_lower_fixed("hochpass"@);
            lemma_ascii_lower_fixed("pdglied"@);
        }
        if eq_ignore_ascii_case(name, "integrator") {
            Some(CircuitType::Integrator)
        } else if eq_ignore_ascii_case(name, "differentiator") {
            Some(CircuitType::Differentiator)
        } else if eq_ignore_ascii_case(name, "tiefpass") {
            Some(CircuitType::Tiefpass)
        } else if eq_ignore_ascii_case(name, "hochpass") {
            Some(CircuitType::Hochpass)
        } else if eq_ignore_ascii_case(name, "pdglied") {
            Some(CircuitType::PDGlied)
        } else {
            None
        }
    }

    /// The identifier of this circuit type.
    pub fn id(&self) -> (r: &'static str)
        ensures
            r@ == self.spec_id(),
    {
        match self {
            CircuitType::Integrator => "integrator",
            CircuitType::Differentiator => "differentiator",
            CircuitType::Tiefpass => "tiefpass",
            CircuitType::Hochpass => "hochpass",
            CircuitType::PDGlied => "pdglied",
        }
    }

    /// The name of this circuit type, as it is shown to a user.
    pub fn name(&self) -> (r: &'static str)
        ensures
            r@ == self.spec_name(),
    {
        match self {
            CircuitType::Integrator => "Integrator",
            CircuitType::Differentiator => "Differentiator",
            CircuitType::Tiefpass => "Tiefpass",
            CircuitType::Hochpass => "Hochpass",
            CircuitType::PDGlied => "PDGlied",
        }
    }

    /// The path of the picture of this circuit type.
    pub fn image(&self) -> (r: &'static str)
        ensures
            r@ == self.spec_image(),
    {
        match self {
            CircuitType::Integrator => "/images/integrator.png",
            CircuitType::Differentiator => "/images/differentiator.png",
            CircuitType::Tiefpass => "/images/tiefpass.png",
            CircuitType::Hochpass => "/images/hochpass.png",
            CircuitType::PDGlied => "/images/pdglied.png",
        }
    }

    /// The names of the values that a circuit of this type is built from, in order.
    pub fn variables(&self) -> (r: &'static [&'static str])
        ensures
            r@.len() == self.spec_variables().len(),
            forall|i: int| 0 <= i < r@.len() ==> (#[trigger] r@[i])@ == self.spec_variables()[i],
    {
        match self {
            CircuitType::Integrator => &["R", "C"],
            CircuitType::Differentiator => &["R", "C"],
            CircuitType::Tiefpass => &["R1", "CK", "RK"],
            CircuitType::Hochpass => &["R1", "C1", "RK"],
            CircuitType::PDGlied => &["R1", "RK", "C1"],
        }
    }

    /// Decides whether a circuit of this type can be built from `count` component
    /// values, taken in the order of `variables()`. A missing value is reported by
    /// the name of the first one that is missing.
    pub fn check_values(&self, count: usize) -> (r: Result<(), Error>)
        ensures
            count < self.spec_variables().len() ==> (r matches Err(Error::CircuitConstructError(k))
                && k@ == self.spec_variables()[count as int]),
            count >= self.spec_variables().len() ==> r is Ok,
    {
        let vars = self.variables();
        if count < vars.len() {
            Err(Error::CircuitConstructError(String::from_str(vars[count])))
        } else {
            Ok(())
        }
    }
}

/// Each circuit type is found again from its own identifier.
pub proof fn lemma_circuit_id_round_trip(t: CircuitType)
    ensures
        CircuitType::spec_from_id(t.spec_id()) == Some(t),
{
    reveal_strlit("integrator");
    reveal_strlit("differentiator");
    reveal_strlit("tiefpass");
    reveal_strlit("hochpass");
    reveal_strlit("pdglied");
    lemma_ascii_lower_fixed(t.spec_id());
    if t == CircuitType::Hochpass {
        assert("hochpass"@[0] != "tiefpass"@[0]);
    }
}

/// An identifier is accepted only if it is, up to the case of ASCII letters, the
/// identifier of the circuit type that it names.
pub proof fn lemma_circuit_from_id_exact(name: Seq<char>, t: CircuitType)
    requires
        CircuitType::spec_from_id(name) == Some(t),
    ensures
        ascii_lower(name) == t.spec_id(),
{
}

/// Two identifiers that differ only in the case of ASCII letters name the same circuit type.
pub proof fn lemma_circuit_from_id_ignores_case(a: Seq<char>, b: Seq<char>)
    requires
        ascii_lower(a) == ascii_lower(b),
    ensures
        CircuitType::spec_from_id(a) == CircuitType::spec_from_id(b),
{
}

/// The list of all circuit types holds every circuit type exactly once.
pub proof fn lemma_all_circuits_once(t: CircuitType)
    ensures
        CircuitType::spec_all().contains(t),
        forall|i: int, j: int| 0 <= i < j < CircuitType::spec_all().len()
            ==> CircuitType::spec_all()[i] != CircuitType::spec_all()[j],
{
    let all = CircuitType::spec_all();
    match t {
        CircuitType::Integrator => assert(all[0] == t),
        CircuitType::Differentiator => assert(all[1] == t),
        CircuitType::Tiefpass => assert(all[2] == t),
        CircuitType::Hochpass => assert(all[3] == t),
        CircuitType::PDGlied => assert(all[4] == t),
    }
}

/// Different circuit types have different identifiers.
pub proof fn lemma_circuit_ids_distinct(a: CircuitType, b: CircuitType)
    requires
        a != b,
    ensures
        a.spec_id() != b.spec_id(),
{
    lemma_circuit_id_round_trip(a);
    lemma_circuit_id_round_trip(b);
}

/// The name of every circuit type leads back to it through `from_id`.
pub proof fn lemma_circuit_name_leads_back(t: CircuitType)
    ensures
        CircuitType::spec_from_id(t.spec_name()) == Some(t),
{
    reveal_strlit("integrator");
    reveal_strlit("differentiator");
    reveal_strlit("tiefpass");
    reveal_strlit("hochpass");
    reveal_strlit("pdglied");
    reveal_strlit("Integrator");
    reveal_strlit("Differentiator");
    reveal_strlit("Tiefpass");
    reveal_strlit("Hochpass");
    reveal_strlit("PDGlied");
    let n = t.spec_name();
    assert(ascii_lower(n) =~= t.spec_id());
    lemma_circuit_id_round_trip(t);
}

/// The picture of each circuit type is its own: it is named after the identifier.
pub proof fn lemma_circuit_image_is_own(t: CircuitType)
    ensures
        t.spec_image() == "/images/"@ + t.spec_id() + ".png"@,
{
    reveal_strlit("/images/");
    reveal_strlit(".png");
    reveal_strlit("integrator");
    reveal_strlit("differentiator");
    reveal_strlit("tiefpass");
    reveal_strlit("hochpass");
    reveal_strlit("pdglied");
    reveal_strlit("/images/integrator.png");
    reveal_strlit("/images/differentiator.png");
    reveal_strlit("/images/tiefpass.png");
    reveal_strlit("/images/hochpass.png");
    reveal_strlit("/images/pdglied.png");
    assert(t.spec_image() =~= "/images/"@ + t.spec_id() + ".png"@);
}

/// Different circuit types have different pictures.
pub proof fn lemma_circuit_images_distinct(a: CircuitType, b: CircuitType)
    requires
        a != b,
    ensures
        a.spec_image() != b.spec_image(),
{
    reveal_strlit("/images/");
    reveal_strlit(".png");
    lemma_circuit_image_is_own(a);
    lemma_circuit_image_is_own(b);
    lemma_circuit_ids_distinct(a, b);
    if a.spec_image() == b.spec_image() {
        let p = "/images/"@;
        let q = ".png"@;
        let ia = a.spec_id();
        let ib = b.spec_id();
        assert((p + ia + q).len() == (p + ib + q).len());
        assert(ia.len() == ib.len());
        assert forall|j: int| 0 <= j < ia.len() implies ia[j] == ib[j] by {
            assert((p + ia + q)[p.len() + j] == ia[j]);
            assert((p + ib + q)[p.len() + j] == ib[j]);
        }
        assert(ia =~= ib);
    }
}

} // verus!
