use fhir_generate::model::{Document, Element};
use fhir_generate::numbering::element_codes;
use fhir_generate::render::{render_diagram, render_outline, render_table};
use fhir_generate::hierarchy::{is_document_id, is_relation, relation_target};

fn el(id: &str, datatype: &[&str], min: &str, max: &str) -> Element {
    Element {
        id: id.to_string(),
        short: format!("short {}", id),
        definition: format!("definition {}", id),
        datatype: datatype.iter().map(|d| d.to_string()).collect(),
        min: min.to_string(),
        max: max.to_string(),
        binding: None,
        binding_strength: None,
    }
}

fn doc(id: &str, elements: Vec<Element>) -> Document {
    Document { id: id.to_string(), elements }
}

fn address() -> Document {
    let mut country = el("EHDSAddress.country", &["CodeableConcept"], "0", "1");
    country.binding = Some("ISO 3166".to_string());
    country.binding_strength = Some("preferred".to_string());
    doc(
        "EHDSAddress",
        vec![
            el("EHDSAddress", &[], "0", "*"),
            el("EHDSAddress.line", &["string"], "0", "*"),
            el("EHDSAddress.postalCode", &["string"], "0", "1"),
            country,
            el("EHDSAddress.period", &["Period"], "0", "1"),
            el("EHDSAddress.period.start", &["dateTime"], "0", "1"),
            el("EHDSAddress.value[x]", &["string", "Quantity"], "1", "1"),
        ],
    )
}

const HEADER: &str =
    "@startuml\nskinparam linetype polyline\nhide circle\nhide stereotype\nhide methods\n\n";

#[test]
fn test_plantuml_generation() {
    let out = render_diagram(&vec![address()], false, false);
    assert!(out.contains("@startuml"));
    assert!(out.contains("@enduml"));
}

#[test]
fn test_mindmap_generation() {
    let out = render_outline(&address(), 255);
    assert!(out.contains("@startmindmap"));
    assert!(out.contains("@endmindmap"));
}

#[test]
fn test_table_generation() {
    let out = render_table(&address(), "A").unwrap();
    assert!(out.contains("| Code | Element | Short | Definition | Datatype | Cardinality | Preferred Code System | Binding Strength |"));
}

#[test]
fn codes_follow_sibling_positions() {
    let codes = element_codes(&vec![0, 1, 1, 2, 1], "A").unwrap();
    assert_eq!(codes, vec!["A", "A.1", "A.2", "A.2.1", "A.3"]);
}

#[test]
fn codes_restart_under_a_new_parent_and_climb_several_levels() {
    let codes = element_codes(&vec![0, 1, 2, 3, 1, 2, 2], "X").unwrap();
    assert_eq!(codes, vec!["X", "X.1", "X.1.1", "X.1.1.1", "X.2", "X.2.1", "X.2.2"]);
    assert_eq!(element_codes(&vec![], "A").unwrap(), Vec::<String>::new());
    assert_eq!(element_codes(&vec![1, 1], "B").unwrap(), vec!["B.1", "B.2"]);
}

#[test]
fn codes_refuse_a_jump_of_two_levels() {
    assert_eq!(element_codes(&vec![0, 2], "A"), None);
    assert_eq!(element_codes(&vec![2], "A"), None);
    let skipping = doc("D", vec![el("D", &[], "0", "1"), el("D.a.b", &[], "0", "1")]);
    assert_eq!(render_table(&skipping, "A"), None);
}

#[test]
fn relation_elements_leave_the_class_block_for_a_connector() {
    let a = doc("A", vec![el("A", &[], "0", "*"), el("A.b", &["B"], "0", "1")]);
    let b = doc("B", vec![el("B", &[], "0", "*")]);
    let out = render_diagram(&vec![a, b], false, false);
    assert_eq!(
        out,
        format!(
            "{}class \"A\" {{\n}}\n\"A\" -- \"0..1\" \"B\" : b >\n\nclass \"B\" {{\n}}\n\n@enduml\n",
            HEADER
        )
    );
    assert!(!out.contains("|_ b"));
}

#[test]
fn attribute_lines_are_indented_by_depth() {
    let out = render_diagram(&vec![address()], false, false);
    let expected = [
        HEADER,
        "class \"EHDSAddress\" {\n",
        "  |_ line : string [0..*]\n",
        "  |_ postalCode : string [0..1]\n",
        "  |_ country : CodeableConcept [0..1]\n",
        "  |_ period : Period [0..1]\n",
        "    |_ start : dateTime [0..1]\n",
        "  |_ value[x] : string, Quantity [1..1]\n",
        "}\n\n@enduml\n",
    ]
    .concat();
    assert_eq!(out, expected);
}

#[test]
fn diagram_options_hide_cardinality_and_attributes() {
    let a = doc("A", vec![el("A", &[], "0", "*"), el("A.name", &["string"], "1", "1")]);
    let no_card = render_diagram(&vec![a.clone()], false, true);
    assert!(no_card.contains("  |_ name : string\n"));
    let hidden = render_diagram(&vec![a], true, false);
    assert_eq!(hidden, format!("{}class \"A\" {{\n}}\n\n@enduml\n", HEADER));
    assert_eq!(render_diagram(&vec![], false, false), format!("{}@enduml\n", HEADER));
}

#[test]
fn only_the_first_matching_type_makes_a_relation() {
    let a = doc("A", vec![el("A", &[], "0", "*"), el("A.subject[x]", &["string", "C", "B"], "1", "1")]);
    let b = doc("B", vec![]);
    let c = doc("C", vec![]);
    let docs = vec![a.clone(), b, c];
    assert!(is_relation(&a.elements[1], &a.id, &docs));
    assert!(!is_relation(&a.elements[0], &a.id, &docs));
    assert_eq!(relation_target(&a.elements[1], &a.id, &docs), Some("C".to_string()));
    assert!(is_document_id(&"B".to_string(), &docs));
    assert!(!is_document_id(&"b".to_string(), &docs));
    let out = render_diagram(&docs, false, false);
    assert!(out.contains("\"A\" -- \"1..1\" \"C\" : subject >\n"));
    assert!(!out.contains("\"B\" : subject"));
}

#[test]
fn outline_has_a_node_per_nested_element() {
    let mut d = address();
    d.elements.push(el("EHDSAddress.owner", &["EHDSAddress"], "0", "1"));
    let out = render_outline(&d, 2);
    assert_eq!(
        out,
        "@startmindmap\n* EHDSAddress\n\
** Line\n\
** Postal Code\n\
** Country\n\
** Period\n\
***_ Start\n\
** Value\n\
** Owner\n\
@endmindmap\n"
    );
    let all_boxed = render_outline(&d, 1);
    assert!(all_boxed.contains("\n**_ Line\n"));
    let unboxed = render_outline(&d, 255);
    assert!(unboxed.contains("*** Start\n"));
}

#[test]
fn table_rows_have_codes_and_empty_optional_cells() {
    let out = render_table(&address(), "A").unwrap();
    let expected = "# EHDSAddress\n\
| Code | Element | Short | Definition | Datatype | Cardinality | Preferred Code System | Binding Strength |\n\
| --- | --- | --- | --- | --- | --- | --- | --- |\n\
| A | EHDSAddress | short EHDSAddress | definition EHDSAddress |  | 0..* | | |\n\
| A.1 | Line | short EHDSAddress.line | definition EHDSAddress.line | string | 0..* | | |\n\
| A.2 | Postal Code | short EHDSAddress.postalCode | definition EHDSAddress.postalCode | string | 0..1 | | |\n\
| A.3 | Country | short EHDSAddress.country | definition EHDSAddress.country | CodeableConcept | 0..1 | ISO 3166 | preferred |\n\
| A.4 | Period | short EHDSAddress.period | definition EHDSAddress.period | Period | 0..1 | | |\n\
| A.4.1 | Start | short EHDSAddress.period.start | definition EHDSAddress.period.start | dateTime | 0..1 | | |\n\
| A.5 | Value | short EHDSAddress.value[x] | definition EHDSAddress.value[x] | string, Quantity | 1..1 | | |\n";
    assert_eq!(out, expected);
}

#[test]
fn cardinality_zero_to_many_renders_as_range() {
    let d = doc("D", vec![el("D", &[], "0", "*")]);
    let out = render_table(&d, "A").unwrap();
    assert!(out.ends_with("| A | D | short D | definition D |  | 0..* | | |\n"));
    let row = out.lines().last().unwrap();
    let header = out.lines().nth(1).unwrap();
    assert_eq!(row.matches('|').count(), header.matches('|').count());
}

#[test]
fn depth_and_local_name_come_from_the_dots() {
    let nested = el("EHDSAddress.period.start", &[], "0", "1");
    assert_eq!(nested.depth(), 2);
    assert_eq!(nested.local_name(), "start");
    let root = el("EHDSAddress", &[], "0", "1");
    assert_eq!(root.depth(), 0);
    assert_eq!(root.local_name(), "EHDSAddress");
}

#[test]
fn a_type_naming_the_own_document_is_an_attribute() {
    let a = doc("A", vec![el("A", &[], "0", "*"), el("A.parent", &["A"], "0", "1")]);
    let docs = vec![a.clone()];
    assert!(!is_relation(&a.elements[1], &a.id, &docs));
    assert_eq!(relation_target(&a.elements[1], &a.id, &docs), None);
    let out = render_diagram(&docs, false, false);
    assert_eq!(
        out,
        format!("{}class \"A\" {{\n  |_ parent : A [0..1]\n}}\n\n@enduml\n", HEADER)
    );
}

#[test]
fn the_connector_skips_the_own_document_for_the_next_type() {
    let a = doc("A", vec![el("A", &[], "0", "*"), el("A.link", &["A", "B"], "1", "*")]);
    let b = doc("B", vec![]);
    let docs = vec![a.clone(), b];
    assert!(is_relation(&a.elements[1], &a.id, &docs));
    assert_eq!(relation_target(&a.elements[1], &a.id, &docs), Some("B".to_string()));
    let out = render_diagram(&docs, false, false);
    assert!(out.contains("class \"A\" {\n}\n\"A\" -- \"1..*\" \"B\" : link >\n"));
    assert!(!out.contains("\"A\" : link"));
}
