use opv_schaltungen::backend;
use opv_schaltungen::circuit_data::{find_circuit_info, CircuitKind, VariableKey};
use opv_schaltungen::circuits::CircuitType;
use opv_schaltungen::errors::Error;
use opv_schaltungen::form::{default_value_for_variable, parse_values_for_variables, value_for_variable};
use opv_schaltungen::plot::{fixed_label, significant_decimals, thousand_as_kilo, trim_zeros, zero_text, SiPrefix};
use opv_schaltungen::signals::SignalType;
use opv_schaltungen::text::{comma_to_point, eq_ignore_ascii_case, is_number, str_eq, trim, white_space};

fn strings(v: &[&str]) -> Vec<String> {
    v.iter().map(|s| s.to_string()).collect()
}

fn pairs(v: &[(&str, &str)]) -> Vec<(String, String)> {
    v.iter().map(|(a, b)| (a.to_string(), b.to_string())).collect()
}

// ---- signal types ----

#[test]
fn signal_types_are_listed_once_in_order() {
    assert_eq!(
        SignalType::all(),
        &[
            SignalType::Constant,
            SignalType::Sinus,
            SignalType::Cosinus,
            SignalType::Rectangular,
            SignalType::Triangular
        ]
    );
}

#[test]
fn signal_id_round_trip() {
    for t in SignalType::all() {
        assert_eq!(SignalType::from_id(t.id()), Some(*t));
    }
}

#[test]
fn signal_from_id_ignores_case() {
    assert_eq!(SignalType::from_id("SINUS"), Some(SignalType::Sinus));
    assert_eq!(SignalType::from_id("Rectangular"), Some(SignalType::Rectangular));
    assert_eq!(SignalType::from_id("tRiAnGuLaR"), Some(SignalType::Triangular));
    assert_eq!(SignalType::from_id("sinus "), None);
    assert_eq!(SignalType::from_id(""), None);
    assert_eq!(SignalType::from_id("sine"), None);
}

#[test]
fn signal_ids_and_names() {
    assert_eq!(SignalType::Constant.id(), "constant");
    assert_eq!(SignalType::Rectangular.id(), "rectangular");
    assert_eq!(SignalType::Constant.name(), "Konstant");
    assert_eq!(SignalType::Rectangular.name(), "Rechteck");
    assert_eq!(SignalType::Triangular.name(), "Dreieck");
    assert_eq!(SignalType::Cosinus.name(), "Cosinus");
}

#[test]
fn signal_variables() {
    assert_eq!(SignalType::Constant.variables(), &["Value"]);
    assert_eq!(SignalType::Sinus.variables(), &["Amplitude", "Frequency", "Phase"]);
    assert_eq!(SignalType::Triangular.variables(), &["Amplitude", "Frequency", "Phase"]);
}

#[test]
fn signal_check_values() {
    match SignalType::Sinus.check_values(1, false) {
        Err(Error::CircuitConstructError(k)) => assert_eq!(k, "Frequency"),
        other => panic!("unexpected {:?}", other),
    }
    match SignalType::Constant.check_values(0, false) {
        Err(Error::CircuitConstructError(k)) => assert_eq!(k, "Value"),
        other => panic!("unexpected {:?}", other),
    }
    assert!(matches!(SignalType::Cosinus.check_values(3, true), Err(Error::NegativeFrequency)));
    assert!(SignalType::Cosinus.check_values(3, false).is_ok());
    assert!(SignalType::Constant.check_values(1, true).is_ok());
    assert!(SignalType::Triangular.check_values(4, false).is_ok());
}

// ---- circuit types ----

#[test]
fn circuit_types_are_listed_once_in_order() {
    assert_eq!(
        CircuitType::all(),
        &[
            CircuitType::Integrator,
            CircuitType::Differentiator,
            CircuitType::Tiefpass,
            CircuitType::Hochpass,
            CircuitType::PDGlied
        ]
    );
}

#[test]
fn circuit_id_round_trip() {
    for t in CircuitType::all() {
        assert_eq!(CircuitType::from_id(t.id()), Some(*t));
    }
    assert_eq!(CircuitType::from_id("HochPass"), Some(CircuitType::Hochpass));
    assert_eq!(CircuitType::from_id("bandpass"), None);
}

#[test]
fn circuit_names_images_variables() {
    assert_eq!(CircuitType::Tiefpass.name(), "Tiefpass");
    assert_eq!(CircuitType::Integrator.image(), "/images/integrator.png");
    assert_eq!(CircuitType::Hochpass.image(), "/images/hochpass.png");
    assert_eq!(CircuitType::Integrator.variables(), &["R", "C"]);
    assert_eq!(CircuitType::Tiefpass.variables(), &["R1", "CK", "RK"]);
    assert_eq!(CircuitType::Hochpass.variables(), &["R1", "C1", "RK"]);
}

#[test]
fn circuit_check_values() {
    match CircuitType::Tiefpass.check_values(2) {
        Err(Error::CircuitConstructError(k)) => assert_eq!(k, "RK"),
        other => panic!("unexpected {:?}", other),
    }
    match CircuitType::Integrator.check_values(0) {
        Err(Error::CircuitConstructError(k)) => assert_eq!(k, "R"),
        other => panic!("unexpected {:?}", other),
    }
    assert!(CircuitType::Integrator.check_values(2).is_ok());
    assert!(CircuitType::Hochpass.check_values(5).is_ok());
}

// ---- errors ----

#[test]
fn error_messages() {
    assert_eq!(Error::NegativeFrequency.message(), "Frequency cannot be negative");
    assert_eq!(
        Error::CircuitConstructError("R".to_string()).message(),
        "Missing required variable: R"
    );
    assert_eq!(Error::MissingInput("C".to_string()).message(), "Fehlender Wert für C");
    assert_eq!(Error::InvalidNumber("dt".to_string()).message(), "Ungültiger Zahlenwert für dt");
    assert_eq!(Error::Syntax("oops".to_string()).message(), "oops");
}

// ---- backend wave forms ----

#[test]
fn backend_from_str() {
    assert_eq!(backend::SignalType::from_str("rectangular").unwrap(), backend::SignalType::Rectangular);
    assert_eq!(backend::SignalType::from_str("triangle").unwrap(), backend::SignalType::Triangle);
    assert_eq!(backend::SignalType::from_str("cosinus").unwrap(), backend::SignalType::Cosinus);
    assert_eq!(backend::SignalType::from_str("sinus").unwrap(), backend::SignalType::Sinus);
    match backend::SignalType::from_str("Sinus") {
        Err(Error::Syntax(msg)) => assert_eq!(msg, "Invalid signal type: Sinus"),
        other => panic!("unexpected {:?}", other),
    }
}

// ---- data sheets ----

#[test]
fn find_circuit_info_by_id() {
    let info = find_circuit_info("integrator").unwrap();
    assert_eq!(info.id, "integrator");
    assert_eq!(info.name, "Integrator");
    assert_eq!(info.kind, CircuitKind::Integrator);
    assert_eq!(info.image, "/public/images/integrator.png");
    assert_eq!(info.variables.len(), 4);
    assert_eq!(info.variables[2].key, VariableKey::InputVoltage);
    assert_eq!(info.variables[2].label, "U_e");
    assert_eq!(info.variables[3].placeholder, "Zeitschritt eingeben");
    let info = find_circuit_info("differentiator").unwrap();
    assert_eq!(info.kind, CircuitKind::Differentiator);
    assert!(find_circuit_info("Integrator").is_none());
    assert!(find_circuit_info("tiefpass").is_none());
}

#[test]
fn parse_input_values_reads_all_four() {
    let info = find_circuit_info("integrator").unwrap();
    let input = info.parse_input_values(&strings(&[" 1000", "1e-6 ", "\t5", "0.001"])).unwrap();
    assert_eq!(input.r, "1000");
    assert_eq!(input.c, "1e-6");
    assert_eq!(input.ue, "5");
    assert_eq!(input.dt, "0.001");
    let r: f64 = input.c.parse().unwrap();
    assert_eq!(r, 1e-6);
}

#[test]
fn parse_input_values_errors() {
    let info = find_circuit_info("differentiator").unwrap();
    match info.parse_input_values(&strings(&["1", "2"])) {
        Err(Error::MissingInput(l)) => assert_eq!(l, "den benoetigten Eingaben"),
        other => panic!("unexpected {:?}", other),
    }
    match info.parse_input_values(&strings(&["1", "   ", "x", "4"])) {
        Err(Error::MissingInput(l)) => assert_eq!(l, "C"),
        other => panic!("unexpected {:?}", other),
    }
    match info.parse_input_values(&strings(&["1", "2", "x", ""])) {
        Err(Error::InvalidNumber(l)) => assert_eq!(l, "U_e"),
        other => panic!("unexpected {:?}", other),
    }
    match info.parse_input_values(&strings(&["1,5", "2", "3", "4"])) {
        Err(Error::InvalidNumber(l)) => assert_eq!(l, "R"),
        other => panic!("unexpected {:?}", other),
    }
}

#[test]
fn input_from_trimmed_does_not_trim() {
    let info = find_circuit_info("integrator").unwrap();
    match info.input_from_trimmed(&[" 1", "2", "3", "4"]) {
        Err(Error::InvalidNumber(l)) => assert_eq!(l, "R"),
        other => panic!("unexpected {:?}", other),
    }
    let input = info.input_from_trimmed(&["-inf", "+NaN", ".5", "5."]).unwrap();
    assert_eq!(input.r, "-inf");
    assert_eq!(input.dt, "5.");
}

// ---- form values ----

#[test]
fn default_values() {
    assert_eq!(default_value_for_variable("R"), Some("1000"));
    assert_eq!(default_value_for_variable("RK"), Some("1000"));
    assert_eq!(default_value_for_variable("CK"), Some("0,000001"));
    assert_eq!(default_value_for_variable("Value"), Some("1"));
    assert_eq!(default_value_for_variable("Amplitude"), Some("1"));
    assert_eq!(default_value_for_variable("Frequency"), Some("100"));
    assert_eq!(default_value_for_variable("Phase"), Some("0"));
    assert_eq!(default_value_for_variable("U_e"), None);
}

#[test]
fn empty_forms_read_their_defaults() {
    for t in CircuitType::all() {
        let v = parse_values_for_variables(&[], t.variables()).unwrap();
        assert_eq!(v.len(), t.variables().len());
    }
    for t in SignalType::all() {
        assert!(parse_values_for_variables(&[], t.variables()).is_ok());
    }
    let v = parse_values_for_variables(&[], &["R", "C"]).unwrap();
    assert_eq!(v, vec!["1000".to_string(), "0.000001".to_string()]);
    let x: f64 = v[1].parse().unwrap();
    assert_eq!(x, 0.000001);
}

#[test]
fn form_values_entered() {
    let values = pairs(&[("R", " 2,2 "), ("C", ""), ("Phase", "pi")]);
    let v = parse_values_for_variables(&values, &["R", "C"]).unwrap();
    assert_eq!(v, vec!["2.2".to_string(), "0.000001".to_string()]);
    assert_eq!(
        parse_values_for_variables(&values, &["Amplitude", "Phase"]),
        Err("Ungültiger Zahlenwert für Phase".to_string())
    );
    assert_eq!(
        parse_values_for_variables(&values, &["X", "Phase"]),
        Err("Fehlender Wert für X".to_string())
    );
    assert_eq!(value_for_variable(Some(""), "Y"), Err("Fehlender Wert für Y".to_string()));
    assert_eq!(value_for_variable(None, "Frequency"), Ok("100".to_string()));
    assert_eq!(value_for_variable(Some("1,2,3"), "R"), Err("Ungültiger Zahlenwert für R".to_string()));
}

// ---- texts ----

#[test]
fn number_texts() {
    for s in ["0", "10", "-1.5", "+.5", "5.", "1e3", "1E-3", "2.5e+10", "inf", "-Infinity", "NaN", "+nan", "1.e5", "-.5e-3", "INF", "007"] {
        assert!(is_number(s), "{}", s);
        assert!(s.parse::<f64>().is_ok(), "{}", s);
    }
    for s in ["", ".", "-", "+-1", "1e", "e5", "1.2.3", "1,5", " 1", "1 ", "infin", "1_000", "0x10", "--1", ".e5", "E5", "1e5.0", "in", "nan1", "\u{663}"] {
        assert!(!is_number(s), "{}", s);
        assert!(s.parse::<f64>().is_err(), "{}", s);
    }
}

#[test]
fn text_helpers() {
    assert!(eq_ignore_ascii_case("AbC", "aBc"));
    assert!(!eq_ignore_ascii_case("abc", "abd"));
    assert!(str_eq("abc", "abc"));
    assert!(!str_eq("abc", "ABC"));
    assert_eq!(comma_to_point("1,5,x"), "1.5.x");
}

// ---- axis labels ----

#[test]
fn si_prefixes() {
    assert_eq!(SiPrefix::Nano.next_larger(), SiPrefix::Micro);
    assert_eq!(SiPrefix::Unit.next_larger(), SiPrefix::Kilo);
    assert_eq!(SiPrefix::Giga.next_larger(), SiPrefix::Giga);
    assert_eq!(SiPrefix::Micro.symbol(), "µ");
    assert_eq!(SiPrefix::Unit.symbol(), "");
    assert_eq!(SiPrefix::Kilo.exponent(), 3);
    assert_eq!(SiPrefix::Nano.exponent(), -9);
}

#[test]
fn trimming_zeros() {
    assert_eq!(trim_zeros("1.500"), "1.5");
    assert_eq!(trim_zeros("2.000"), "2");
    assert_eq!(trim_zeros("100"), "100");
    assert_eq!(trim_zeros("-0.00"), "0");
    assert_eq!(trim_zeros("-0"), "0");
    assert_eq!(trim_zeros("0.0"), "0");
}

#[test]
fn decimals_and_kilo() {
    assert_eq!(significant_decimals(3, 0), 2);
    assert_eq!(significant_decimals(3, 2), 0);
    assert_eq!(significant_decimals(3, 5), 0);
    assert_eq!(significant_decimals(3, -9), 6);
    assert_eq!(significant_decimals(3, -2), 4);
    assert_eq!(thousand_as_kilo("1000"), "1k");
    assert_eq!(thousand_as_kilo("-1000"), "-1k");
    assert_eq!(thousand_as_kilo("999"), "999");
}

#[test]
fn fixed_labels() {
    assert_eq!(zero_text(0), "0");
    assert_eq!(zero_text(3), "0.000");
    assert_eq!(fixed_label("-0.00", 2, "m"), "0.00m");
    assert_eq!(fixed_label("-0", 0, "k"), "0k");
    assert_eq!(fixed_label("-0.01", 2, ""), "-0.01");
    assert_eq!(fixed_label("12.5", 1, "µ"), "12.5µ");
}

#[test]
fn trim_removes_unicode_white_space() {
    let samples = [
        "", " ", "  a b \n", "\t\r\n\u{b}\u{c}x", "x\u{85}", "\u{a0}\u{1680}y\u{2000}\u{200a}",
        "\u{2028}\u{2029}\u{202f}\u{205f}\u{3000}z z\u{3000}", "\u{200b}w\u{200b}", "\u{feff}v", "no",
    ];
    for s in samples {
        assert_eq!(trim(s), s.trim(), "{:?}", s);
    }
    for c in ['\u{0}', '\u{8}', '\u{e}', '\u{1f}', '\u{200b}', '\u{2060}', '\u{feff}', 'a'] {
        assert_eq!(white_space(c), c.is_whitespace(), "{:?}", c);
    }
    for c in [' ', '\t', '\n', '\u{85}', '\u{a0}', '\u{1680}', '\u{2005}', '\u{2028}', '\u{3000}'] {
        assert!(white_space(c) && c.is_whitespace(), "{:?}", c);
    }
}

#[test]
fn circuit_names_lead_back() {
    for t in CircuitType::all() {
        assert_eq!(CircuitType::from_id(t.name()), Some(*t));
    }
    assert_eq!(CircuitType::PDGlied.name(), "PDGlied");
}

#[test]
fn blank_fields_and_surrounding_space() {
    let values = pairs(&[("R", " \t "), ("C", "\u{a0}2,5\u{3000}")]);
    let v = parse_values_for_variables(&values, &["R", "C"]).unwrap();
    assert_eq!(v, vec!["1000".to_string(), "2.5".to_string()]);
    let info = find_circuit_info("integrator").unwrap();
    match info.parse_input_values(&strings(&["1", "\u{2003}", "3", "4"])) {
        Err(Error::MissingInput(l)) => assert_eq!(l, "C"),
        other => panic!("unexpected {:?}", other),
    }
}
