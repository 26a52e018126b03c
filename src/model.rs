//! Documents and their elements, and how they are read from structured values.

use vstd::prelude::*;

use crate::json::{field, items_value, json_text, nested, push_json_text, text_value, Json};
use crate::text::{after_last, get_slice_after_last_occurrence, same_text, starts_with, views};

verus! {

/// One entry of a document, identified by a dot-qualified path.
#[derive(Clone, Debug)]
pub struct Element {
    pub id: String,
    pub short: String,
    pub definition: String,
    pub datatype: Vec<String>,
    pub min: String,
    pub max: String,
    pub binding: Option<String>,
    pub binding_strength: Option<String>,
}

/// The mathematical value of an [`Element`].
pub struct ElementView {
    pub id: Seq<char>,
    pub short: Seq<char>,
    pub definition: Seq<char>,
    pub datatype: Seq<Seq<char>>,
    pub min: Seq<char>,
    pub max: Seq<char>,
    pub binding: Option<Seq<char>>,
    pub binding_strength: Option<Seq<char>>,
}

/// The view of an optional string.
pub open spec fn opt_view(o: Option<String>) -> Option<Seq<char>> {
    match o {
        Some(s) => Some(s@),
        None => None,
    }
}

impl View for Element {
    type V = ElementView;

    open spec fn view(&self) -> ElementView {
        ElementView {
            id: self.id@,
            short: self.short@,
            definition: self.definition@,
            datatype: views(self.datatype@),
            min: self.min@,
            max: self.max@,
            binding: opt_view(self.binding),
            binding_strength: opt_view(self.binding_strength),
        }
    }
}

/// A structure definition: its id and its elements in definition order.
#[derive(Clone, Debug)]
pub struct Document {
    pub id: String,
    pub elements: Vec<Element>,
}

/// The mathematical value of a [`Document`].
pub struct DocumentView {
    pub id: Seq<char>,
    pub elements: Seq<ElementView>,
}

/// The views of a sequence of elements.
pub open spec fn element_views(v: Seq<Element>) -> Seq<ElementView> {
    v.map_values(|e: Element| e@)
}

impl View for Document {
    type V = DocumentView;

    open spec fn view(&self) -> DocumentView {
        DocumentView { id: self.id@, elements: element_views(self.elements@) }
    }
}

/// The views of a sequence of documents.
pub open spec fn document_views(v: Seq<Document>) -> Seq<DocumentView> {
    v.map_values(|d: Document| d@)
}

/// Why an input yields no document.
#[derive(Clone, Copy, Debug, PartialEq, Eq, Structural)]
pub enum LoadError {
    /// The input could not be read as a structured value.
    Unreadable,
    MissingId,
    MissingSnapshot,
    MissingElementId,
    MissingShort,
    MissingDefinition,
    MissingMax,
}

/// The description of each error.
pub open spec fn error_message(e: LoadError) -> Seq<char> {
    match e {
        LoadError::Unreadable => "Unreadable input"@,
        LoadError::MissingId => "Missing id"@,
        LoadError::MissingSnapshot => "Missing snapshot"@,
        LoadError::MissingElementId => "Missing element id"@,
        LoadError::MissingShort => "Missing short description"@,
        LoadError::MissingDefinition => "Missing definition"@,
        LoadError::MissingMax => "Missing max cardinality"@,
    }
}

impl LoadError {
    /// A short description of the error.
    pub fn message(&self) -> (r: &'static str)
        ensures
            r@ == error_message(*self),
    {
        match self {
            LoadError::Unreadable => "Unreadable input",
            LoadError::MissingId => "Missing id",
            LoadError::MissingSnapshot => "Missing snapshot",
            LoadError::MissingElementId => "Missing element id",
            LoadError::MissingShort => "Missing short description",
            LoadError::MissingDefinition => "Missing definition",
            LoadError::MissingMax => "Missing max cardinality",
        }
    }
}

/// The type names that one profile URL contributes: its last '/'-segment.
pub open spec fn profile_ref(p: Json) -> Seq<Seq<char>> {
    match p {
        Json::Str(s) => match after_last(s@, '/') {
            Some(e) => seq![e],
            None => Seq::empty(),
        },
        _ => Seq::empty(),
    }
}

/// The type names of a list of target profiles.
pub open spec fn profile_refs(ps: Seq<Json>) -> Seq<Seq<char>>
    decreases ps.len(),
{
    if ps.len() == 0 {
        Seq::empty()
    } else {
        profile_refs(ps.drop_last()) + profile_ref(ps.last())
    }
}

/// The type names that one type entry contributes: the last '/'-segment of
/// a URL-shaped code, one name per target profile of a "Reference", or the
/// code itself.
pub open spec fn type_refs(entry: Json) -> Seq<Seq<char>> {
    match text_value(field(entry, "code"@)) {
        None => Seq::empty(),
        Some(code) => if "http"@.len() <= code.len() && code.take("http"@.len() as int) == "http"@ {
            match after_last(code, '/') {
                Some(e) => seq![e],
                None => Seq::empty(),
            }
        } else if code == "Reference"@ {
            match items_value(field(entry, "targetProfile"@)) {
                Some(ps) => profile_refs(ps),
                None => Seq::empty(),
            }
        } else {
            seq![code]
        },
    }
}

/// The type names of a list of type entries, in order.
pub open spec fn datatype_refs(types: Seq<Json>) -> Seq<Seq<char>>
    decreases types.len(),
{
    if types.len() == 0 {
        Seq::empty()
    } else {
        datatype_refs(types.drop_last()) + type_refs(types.last())
    }
}

/// The type names of an element value.
pub open spec fn element_types(e: Json) -> Seq<Seq<char>> {
    match items_value(field(e, "type"@)) {
        Some(ts) => datatype_refs(ts),
        None => Seq::empty(),
    }
}

/// The minimum cardinality of an element value: a string as it is, any other
/// value (a number, or null when absent) as its text.
pub open spec fn min_text(e: Json) -> Seq<char> {
    match field(e, "min"@) {
        Some(Json::Str(s)) => s@,
        Some(v) => json_text(v),
        None => json_text(Json::Null),
    }
}

/// The element that an element value describes, or the first required
/// field that it lacks.
pub open spec fn spec_element(e: Json) -> Result<ElementView, LoadError> {
    let id = text_value(field(e, "id"@));
    let short = text_value(field(e, "short"@));
    let definition = text_value(field(e, "definition"@));
    let max = text_value(field(e, "max"@));
    if id is None {
        Err(LoadError::MissingElementId)
    } else if short is None {
        Err(LoadError::MissingShort)
    } else if definition is None {
        Err(LoadError::MissingDefinition)
    } else if max is None {
        Err(LoadError::MissingMax)
    } else {
        Ok(
            ElementView {
                id: id->0,
                short: short->0,
                definition: definition->0,
                datatype: element_types(e),
                min: min_text(e),
                max: max->0,
                binding: text_value(nested(e, "binding"@, "description"@)),
                binding_strength: text_value(nested(e, "binding"@, "strength"@)),
            },
        )
    }
}

/// The elements of a list of element values, or the error of the first one
/// that fails.
pub open spec fn spec_elements(es: Seq<Json>) -> Result<Seq<ElementView>, LoadError>
    decreases es.len(),
{
    if es.len() == 0 {
        Ok(Seq::empty())
    } else {
        match spec_elements(es.drop_last()) {
            Err(x) => Err(x),
            Ok(vs) => match spec_element(es.last()) {
                Err(x) => Err(x),
                Ok(v) => Ok(vs.push(v)),
            },
        }
    }
}

/// The document that a structure definition value describes, or why it
/// describes none.
pub open spec fn spec_document(d: Json) -> Result<DocumentView, LoadError> {
    let id = text_value(field(d, "id"@));
    let snapshot = items_value(nested(d, "snapshot"@, "element"@));
    if id is None {
        Err(LoadError::MissingId)
    } else if snapshot is None {
        Err(LoadError::MissingSnapshot)
    } else {
        match spec_elements(snapshot->0) {
            Err(x) => Err(x),
            Ok(es) => Ok(DocumentView { id: id->0, elements: es }),
        }
    }
}

fn text_field(j: &Json, key: &str) -> (r: Option<String>)
    ensures
        opt_view(r) == text_value(field(*j, key@)),
{
    match j.field(key) {
        Some(v) => match v.as_text() {
            Some(t) => Some(t.clone()),
            None => None,
        },
        None => None,
    }
}

fn nested_text_field(j: &Json, outer: &str, key: &str) -> (r: Option<String>)
    ensures
        opt_view(r) == text_value(nested(*j, outer@, key@)),
{
    match j.field(outer) {
        Some(o) => text_field(o, key),
        None => None,
    }
}

fn push_profile_refs(out: &mut Vec<String>, ps: &Vec<Json>)
    ensures
        views(final(out)@) == views(old(out)@) + profile_refs(ps@),
{
    let ghost start = views(out@);
    let mut i: usize = 0;
    while i < ps.len()
        invariant
            i <= ps@.len(),
            views(out@) == start + profile_refs(ps@.take(i as int)),
        decreases ps@.len() - i,
    {
        let ghost before = views(out@);
        assert(ps@.take(i + 1).drop_last() =~= ps@.take(i as int));
        assert(ps@.take(i + 1).last() == ps@[i as int]);
        if let Some(p) = ps[i].as_text() {
            if let Some(end) = get_slice_after_last_occurrence(p, '/') {
                out.push(end);
                assert(views(out@) =~= before.push(end@));
            }
        }
        i = i + 1;
        assert(views(out@) =~= start + profile_refs(ps@.take(i as int)));
    }
    assert(ps@.take(ps@.len() as int) =~= ps@);
}

fn push_type_refs(out: &mut Vec<String>, entry: &Json)
    ensures
        views(final(out)@) == views(old(out)@) + type_refs(*entry),
{
    let ghost start = views(out@);
    if let Some(code) = text_field(entry, "code") {
        if starts_with(code.as_str(), "http") {
            if let Some(end) = get_slice_after_last_occurrence(&code, '/') {
                out.push(end);
                assert(views(out@) =~= start.push(end@));
            }
        } else if same_text(code.as_str(), "Reference") {
            if let Some(profiles) = entry.field("targetProfile") {
                if let Some(ps) = profiles.as_items() {
                    push_profile_refs(out, ps);
                }
            }
        } else {
            out.push(code);
            assert(views(out@) =~= start.push(code@));
        }
    }
    assert(views(out@) =~= start + type_refs(*entry));
}

fn element_datatypes(e: &Json) -> (r: Vec<String>)
    ensures
        views(r@) == element_types(*e),
{
    let mut out: Vec<String> = Vec::new();
    assert(views(out@) =~= Seq::empty());
    if let Some(t) = e.field("type") {
        if let Some(types) = t.as_items() {
            let mut i: usize = 0;
            while i < types.len()
                invariant
                    i <= types@.len(),
                    views(out@) == datatype_refs(types@.take(i as int)),
                decreases types@.len() - i,
            {
                assert(types@.take(i + 1).drop_last() =~= types@.take(i as int));
                assert(types@.take(i + 1).last() == types@[i as int]);
                push_type_refs(&mut out, &types[i]);
                i = i + 1;
            }
            assert(types@.take(types@.len() as int) =~= types@);
        }
    }
    out
}

fn element_min(e: &Json) -> (r: String)
    ensures
        r@ == min_text(*e),
{
    match e.field("min") {
        Some(Json::Str(s)) => s.clone(),
        Some(v) => {
            let mut out = String::new();
            push_json_text(&mut out, v);
            assert(out@ =~= json_text(*v));
            out
        },
        None => {
            let mut out = String::new();
            push_json_text(&mut out, &Json::Null);
            assert(out@ =~= json_text(Json::Null));
            out
        },
    }
}

/// Reads one element from an element value.
pub fn load_element(e: &Json) -> (r: Result<Element, LoadError>)
    ensures
        match r {
            Ok(el) => spec_element(*e) == Ok::<ElementView, LoadError>(el@),
            Err(x) => spec_element(*e) == Err::<ElementView, LoadError>(x),
        },
{
    let id = match text_field(e, "id") {
        Some(id) => id,
        None => return Err(LoadError::MissingElementId),
    };
    let short = match text_field(e, "short") {
        Some(s) => s,
        None => return Err(LoadError::MissingShort),
    };
    let definition = match text_field(e, "definition") {
        Some(d) => d,
        None => return Err(LoadError::MissingDefinition),
    };
    let datatype = element_datatypes(e);
    let min = element_min(e);
    let max = match text_field(e, "max") {
        Some(m) => m,
        None => return Err(LoadError::MissingMax),
    };
    let binding = nested_text_field(e, "binding", "description");
    let binding_strength = nested_text_field(e, "binding", "strength");
    Ok(Element { id, short, definition, datatype, min, max, binding, binding_strength })
}

/// Reads a document from a structure definition value: its id, then each
/// element of its snapshot in order. Fails with the first required field
/// that is missing.
pub fn load_single_structure_definition_file(doc: &Json) -> (r: Result<Document, LoadError>)
    ensures
        match r {
            Ok(d) => spec_document(*doc) == Ok::<DocumentView, LoadError>(d@),
            Err(x) => spec_document(*doc) == Err::<DocumentView, LoadError>(x),
        },
{
    let id = match text_field(doc, "id") {
        Some(id) => id,
        None => return Err(LoadError::MissingId),
    };
    let snapshot = match doc.field("snapshot") {
        Some(s) => match s.field("element") {
            Some(e) => match e.as_items() {
                Some(items) => items,
                None => return Err(LoadError::MissingSnapshot),
            },
            None => return Err(LoadError::MissingSnapshot),
        },
        None => return Err(LoadError::MissingSnapshot),
    };
    let mut elements: Vec<Element> = Vec::new();
    let mut i: usize = 0;
    assert(snapshot@.take(0) =~= Seq::<Json>::empty());
    assert(element_views(elements@) =~= Seq::<ElementView>::empty());
    while i < snapshot.len()
        invariant
            text_value(field(*doc, "id"@)) == Some(id@),
            items_value(nested(*doc, "snapshot"@, "element"@)) == Some(snapshot@),
            i <= snapshot@.len(),
            spec_elements(snapshot@.take(i as int)) == Ok::<Seq<ElementView>, LoadError>(
                element_views(elements@),
            ),
        decreases snapshot@.len() - i,
    {
        assert(snapshot@.take(i + 1).drop_last() =~= snapshot@.take(i as int));
        assert(snapshot@.take(i + 1).last() == snapshot@[i as int]);
        let ghost before = element_views(elements@);
        match load_element(&snapshot[i]) {
            Ok(el) => {
                elements.push(el);
                assert(element_views(elements@) =~= before.push(el@));
            },
            Err(x) => {
                proof {
                    lemma_elements_err_extends(snapshot@, i as int + 1);
                }
                return Err(x);
            },
        }
        i = i + 1;
    }
    assert(snapshot@.take(snapshot@.len() as int) =~= snapshot@);
    Ok(Document { id, elements })
}

/// Once a prefix of the element values fails, the whole list fails with the
/// same error.
proof fn lemma_elements_err_extends(es: Seq<Json>, k: int)
    requires
        0 <= k <= es.len(),
        spec_elements(es.take(k)) is Err,
    ensures
        spec_elements(es) == spec_elements(es.take(k)),
    decreases es.len() - k,
{
    if k == es.len() {
        assert(es.take(k) =~= es);
    } else {
        assert(es.take(k + 1).drop_last() =~= es.take(k));
        lemma_elements_err_extends(es, k + 1);
    }
}


/// What reading one input gives: `None` stands for an input that could not
/// be read as a structured value.
pub open spec fn spec_load(input: Option<Json>) -> Result<DocumentView, LoadError> {
    match input {
        Some(j) => spec_document(j),
        None => Err(LoadError::Unreadable),
    }
}

/// The documents of the inputs that load, in input order.
pub open spec fn loaded_documents(inputs: Seq<Option<Json>>) -> Seq<DocumentView>
    decreases inputs.len(),
{
    if inputs.len() == 0 {
        Seq::empty()
    } else {
        match spec_load(inputs.last()) {
            Ok(d) => loaded_documents(inputs.drop_last()).push(d),
            Err(_) => loaded_documents(inputs.drop_last()),
        }
    }
}

/// The position and error of each input that does not load, in input order.
pub open spec fn load_failures(inputs: Seq<Option<Json>>) -> Seq<(int, LoadError)>
    decreases inputs.len(),
{
    if inputs.len() == 0 {
        Seq::empty()
    } else {
        match spec_load(inputs.last()) {
            Ok(_) => load_failures(inputs.drop_last()),
            Err(x) => load_failures(inputs.drop_last()).push((inputs.len() - 1, x)),
        }
    }
}

/// The failures of a batch as positions and errors.
pub open spec fn failure_views(v: Seq<(usize, LoadError)>) -> Seq<(int, LoadError)> {
    v.map_values(|f: (usize, LoadError)| (f.0 as int, f.1))
}

/// The outcome of reading a batch of inputs.
#[derive(Debug)]
pub struct Batch {
    /// The documents read, in input order.
    pub documents: Vec<Document>,
    /// The position of each input that gave no document, with the reason.
    pub failures: Vec<(usize, LoadError)>,
}

/// Reads every input of a batch on its own: an input that fails is recorded
/// with its position and skipped, and the others still give their documents.
pub fn load_structure_definition_files(inputs: &Vec<Option<Json>>) -> (r: Batch)
    ensures
        document_views(r.documents@) == loaded_documents(inputs@),
        failure_views(r.failures@) == load_failures(inputs@),
{
    let mut documents: Vec<Document> = Vec::new();
    let mut failures: Vec<(usize, LoadError)> = Vec::new();
    let mut i: usize = 0;
    assert(inputs@.take(0) =~= Seq::<Option<Json>>::empty());
    assert(document_views(documents@) =~= Seq::<DocumentView>::empty());
    assert(failure_views(failures@) =~= Seq::<(int, LoadError)>::empty());
    while i < inputs.len()
        invariant
            i <= inputs@.len(),
            document_views(documents@) == loaded_documents(inputs@.take(i as int)),
            failure_views(failures@) == load_failures(inputs@.take(i as int)),
        decreases inputs@.len() - i,
    {
        assert(inputs@.take(i + 1).drop_last() =~= inputs@.take(i as int));
        assert(inputs@.take(i + 1).last() == inputs@[i as int]);
        let ghost docs_before = document_views(documents@);
        let ghost fails_before = failure_views(failures@);
        let outcome = match &inputs[i] {
            Some(j) => load_single_structure_definition_file(j),
            None => Err(LoadError::Unreadable),
        };
        match outcome {
            Ok(d) => {
                documents.push(d);
                assert(document_views(documents@) =~= docs_before.push(d@));
            },
            Err(x) => {
                failures.push((i, x));
                assert(failure_views(failures@) =~= fails_before.push((i as int, x)));
            },
        }
        i = i + 1;
    }
    assert(inputs@.take(inputs@.len() as int) =~= inputs@);
    Batch { documents, failures }
}

} // verus!
