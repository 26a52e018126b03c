use fhir_generate::naming::camel_to_spaced_pascal;
use fhir_generate::text::{
    count_char_occurrences, get_slice_after_last_occurrence, push_decimal, reduce_datatypes,
    strip_choice_marker,
};

#[test]
fn counts_dots_in_an_id() {
    assert_eq!(count_char_occurrences(&"Address.line.extension".to_string(), '.'), 2);
    assert_eq!(count_char_occurrences(&"Address".to_string(), '.'), 0);
    assert_eq!(count_char_occurrences(&String::new(), '.'), 0);
}

#[test]
fn slice_after_last_dot() {
    assert_eq!(
        get_slice_after_last_occurrence(&"Address.line.extension".to_string(), '.'),
        Some("extension".to_string())
    );
    assert_eq!(get_slice_after_last_occurrence(&"Address".to_string(), '.'), None);
    assert_eq!(get_slice_after_last_occurrence(&"Address.".to_string(), '.'), Some(String::new()));
    assert_eq!(
        get_slice_after_last_occurrence(&"http://hl7.org/fhir/StructureDefinition/Patient".to_string(), '/'),
        Some("Patient".to_string())
    );
}

#[test]
fn joins_datatypes_with_commas() {
    assert_eq!(reduce_datatypes(&[]), "");
    assert_eq!(reduce_datatypes(&["string".to_string()]), "string");
    assert_eq!(
        reduce_datatypes(&["CodeableConcept".to_string(), "Quantity".to_string(), "string".to_string()]),
        "CodeableConcept, Quantity, string"
    );
}

#[test]
fn strips_choice_markers() {
    assert_eq!(strip_choice_marker("value[x]"), "value");
    assert_eq!(strip_choice_marker("a[x]b[x]"), "ab");
    assert_eq!(strip_choice_marker("[x"), "[x");
    assert_eq!(strip_choice_marker("[[x]]"), "[]");
}

#[test]
fn writes_decimal_numbers() {
    let mut s = String::from("A.");
    push_decimal(&mut s, 0);
    assert_eq!(s, "A.0");
    let mut t = String::new();
    push_decimal(&mut t, 1207);
    assert_eq!(t, "1207");
}

#[test]
fn camel_case_becomes_spaced_title_case() {
    assert_eq!(camel_to_spaced_pascal("postalCode"), "Postal Code");
    assert_eq!(camel_to_spaced_pascal("line"), "Line");
    assert_eq!(camel_to_spaced_pascal("valueCodeableConcept"), "Value Codeable Concept");
    assert_eq!(camel_to_spaced_pascal(""), "");
}

#[test]
fn camel_case_splits_only_after_a_lower_case_letter() {
    assert_eq!(camel_to_spaced_pascal("HTTPServer"), "HTTPServer");
    assert_eq!(camel_to_spaced_pascal("useABC"), "Use ABC");
    assert_eq!(camel_to_spaced_pascal("Address"), "Address");
}

#[test]
fn camel_case_collapses_white_space() {
    assert_eq!(camel_to_spaced_pascal("  two  words "), "Two Words");
    assert_eq!(camel_to_spaced_pascal("tab\tseparated"), "Tab Separated");
}

#[test]
fn camel_case_upper_cases_beyond_ascii() {
    assert_eq!(camel_to_spaced_pascal("élanVital"), "Élan Vital");
    assert_eq!(camel_to_spaced_pascal("ßeta"), "SSeta");
}
