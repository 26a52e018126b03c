use fhir_generate::json::Json;
use fhir_generate::model::{
    load_element, load_single_structure_definition_file, load_structure_definition_files, LoadError,
};

fn s(t: &str) -> Json {
    Json::Str(t.to_string())
}

fn obj(members: Vec<(&str, Json)>) -> Json {
    Json::Object(members.into_iter().map(|(k, v)| (k.to_string(), v)).collect())
}

fn element(id: &str, types: Vec<Json>, min: Json) -> Json {
    obj(vec![
        ("id", s(id)),
        ("short", s("short text")),
        ("definition", s("a definition")),
        ("type", Json::Array(types)),
        ("min", min),
        ("max", s("*")),
    ])
}

fn document(id: &str, elements: Vec<Json>) -> Json {
    obj(vec![
        ("id", s(id)),
        ("snapshot", obj(vec![("element", Json::Array(elements))])),
    ])
}

#[test]
fn reads_a_document_in_element_order() {
    let doc = document(
        "EHDSAddress",
        vec![
            element("EHDSAddress", vec![], Json::Number("0".to_string())),
            element("EHDSAddress.line", vec![obj(vec![("code", s("string"))])], s("0")),
        ],
    );
    let d = load_single_structure_definition_file(&doc).unwrap();
    assert_eq!(d.id, "EHDSAddress");
    assert_eq!(d.elements.len(), 2);
    assert_eq!(d.elements[0].id, "EHDSAddress");
    assert_eq!(d.elements[1].id, "EHDSAddress.line");
    assert_eq!(d.elements[1].datatype, vec!["string".to_string()]);
    assert_eq!(d.elements[1].short, "short text");
    assert_eq!(d.elements[1].definition, "a definition");
    assert_eq!(d.elements[1].max, "*");
    assert_eq!(d.elements[1].binding, None);
    assert_eq!(d.elements[1].binding_strength, None);
}

#[test]
fn reduces_url_codes_and_reference_profiles() {
    let types = vec![
        obj(vec![("code", s("http://hl7.org/fhirpath/System.String"))]),
        obj(vec![
            ("code", s("Reference")),
            (
                "targetProfile",
                Json::Array(vec![
                    s("http://hl7.org/fhir/StructureDefinition/Patient"),
                    Json::Number("3".to_string()),
                    s("http://example.org/StructureDefinition/EHDSOrganisation"),
                ]),
            ),
        ]),
        obj(vec![("code", s("CodeableConcept"))]),
        obj(vec![("profile", s("no code here"))]),
        obj(vec![("code", s("httpNoSlash"))]),
    ];
    let e = load_element(&element("A.x", types, s("1"))).unwrap();
    assert_eq!(
        e.datatype,
        vec![
            "System.String".to_string(),
            "Patient".to_string(),
            "EHDSOrganisation".to_string(),
            "CodeableConcept".to_string(),
        ]
    );
}

#[test]
fn reference_without_profiles_gives_no_type() {
    let e = load_element(&element("A.x", vec![obj(vec![("code", s("Reference"))])], s("0"))).unwrap();
    assert!(e.datatype.is_empty());
}

#[test]
fn normalises_min_cardinality() {
    let from_string = load_element(&element("A.x", vec![], s("1"))).unwrap();
    assert_eq!(from_string.min, "1");
    let from_number = load_element(&element("A.x", vec![], Json::Number("0".to_string()))).unwrap();
    assert_eq!(from_number.min, "0");
    let mut no_min = element("A.x", vec![], Json::Null);
    if let Json::Object(members) = &mut no_min {
        members.retain(|(k, _)| k != "min");
    }
    assert_eq!(load_element(&no_min).unwrap().min, "null");
    let from_bool = load_element(&element("A.x", vec![], Json::Bool(true))).unwrap();
    assert_eq!(from_bool.min, "true");
    let from_array = load_element(&element(
        "A.x",
        vec![],
        Json::Array(vec![Json::Number("1".to_string()), s("a\"b\n\u{1}"), obj(vec![("k", Json::Null)])]),
    ))
    .unwrap();
    assert_eq!(from_array.min, "[1,\"a\\\"b\\n\\u0001\",{\"k\":null}]");
}

#[test]
fn reads_binding_description_and_strength() {
    let mut e = element("A.x", vec![], s("0"));
    if let Json::Object(members) = &mut e {
        members.push((
            "binding".to_string(),
            obj(vec![("description", s("Country codes")), ("strength", s("preferred"))]),
        ));
    }
    let el = load_element(&e).unwrap();
    assert_eq!(el.binding, Some("Country codes".to_string()));
    assert_eq!(el.binding_strength, Some("preferred".to_string()));
}

#[test]
fn binding_present_but_empty_stays_distinct_from_absent() {
    let mut e = element("A.x", vec![], s("0"));
    if let Json::Object(members) = &mut e {
        members.push(("binding".to_string(), obj(vec![("description", s(""))])));
    }
    let el = load_element(&e).unwrap();
    assert_eq!(el.binding, Some(String::new()));
    assert_eq!(el.binding_strength, None);
}

fn without(mut e: Json, key: &str) -> Json {
    if let Json::Object(members) = &mut e {
        members.retain(|(k, _)| k != key);
    }
    e
}

#[test]
fn each_missing_field_has_its_error() {
    assert_eq!(load_element(&without(element("A.x", vec![], s("0")), "id")).err(), Some(LoadError::MissingElementId));
    assert_eq!(load_element(&without(element("A.x", vec![], s("0")), "short")).err(), Some(LoadError::MissingShort));
    assert_eq!(
        load_element(&without(element("A.x", vec![], s("0")), "definition")).err(),
        Some(LoadError::MissingDefinition)
    );
    assert_eq!(load_element(&without(element("A.x", vec![], s("0")), "max")).err(), Some(LoadError::MissingMax));
    let no_id = without(document("D", vec![]), "id");
    assert_eq!(load_single_structure_definition_file(&no_id).err(), Some(LoadError::MissingId));
    let no_snapshot = without(document("D", vec![]), "snapshot");
    assert_eq!(
        load_single_structure_definition_file(&no_snapshot).err(),
        Some(LoadError::MissingSnapshot)
    );
    let bad_element = document("D", vec![element("D", vec![], s("0")), without(element("A.x", vec![], s("0")), "short")]);
    assert_eq!(
        load_single_structure_definition_file(&bad_element).err(),
        Some(LoadError::MissingShort)
    );
    assert_eq!(LoadError::MissingShort.message(), "Missing short description");
}

#[test]
fn a_malformed_file_is_skipped_and_the_batch_goes_on() {
    let inputs = vec![
        Some(document("A", vec![element("A", vec![], s("0"))])),
        Some(without(document("B", vec![]), "id")),
        Some(document("C", vec![element("C", vec![], s("0"))])),
    ];
    let batch = load_structure_definition_files(&inputs);
    assert_eq!(batch.documents.len(), 2);
    assert_eq!(batch.documents[0].id, "A");
    assert_eq!(batch.documents[1].id, "C");
    assert_eq!(batch.failures, vec![(1, LoadError::MissingId)]);
}

#[test]
fn an_unreadable_file_is_skipped_too() {
    let inputs = vec![None, Some(document("B", vec![]))];
    let batch = load_structure_definition_files(&inputs);
    assert_eq!(batch.documents.len(), 1);
    assert_eq!(batch.documents[0].id, "B");
    assert_eq!(batch.failures, vec![(0, LoadError::Unreadable)]);
}

#[test]
fn first_member_of_a_name_is_used() {
    let j = obj(vec![("k", s("one")), ("k", s("two"))]);
    match j.field("k") {
        Some(Json::Str(t)) => assert_eq!(t, "one"),
        _ => panic!("member not found"),
    }
    assert!(j.field("other").is_none());
    assert!(s("x").field("k").is_none());
}

#[test]
fn an_empty_batch_gives_nothing() {
    let batch = load_structure_definition_files(&vec![]);
    assert!(batch.documents.is_empty());
    assert!(batch.failures.is_empty());
}
