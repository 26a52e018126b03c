//! The three text renderings of a batch of documents: a class diagram, a
//! mind-map outline per document and a markdown table per document.

use vstd::prelude::*;

use crate::hierarchy::{
    depth,
    document_ids,
    first_match,
    lemma_first_match_exists,
    local_name,
    refers_to_document,
    relation_target,
};
use crate::model::{document_views, Document, DocumentView, Element, ElementView};
use crate::naming::{camel_to_spaced_pascal, title_case};
use crate::numbering::{codes, depth_views, element_codes, well_nested};
use crate::text::{
    after_last,
    get_slice_after_last_occurrence,
    join,
    push_char,
    push_repeated,
    reduce_datatypes,
    strip_choice_marker,
    strip_marker,
};

verus! {

/// An element below the root of its document: its id holds a '.'.
pub open spec fn is_nested(e: ElementView) -> bool {
    after_last(e.id, '.') is Some
}

// ---------------------------------------------------------------- diagram

/// The opening lines of a class diagram.
pub open spec fn diagram_header() -> Seq<char> {
    "@startuml\nskinparam linetype polyline\nhide circle\nhide stereotype\nhide methods\n\n"@
}

/// The closing line of a class diagram.
pub open spec fn diagram_footer() -> Seq<char> {
    "@enduml\n"@
}

/// The line of an attribute: indentation of two spaces per level, the local
/// name, the type names and, unless hidden, the cardinality.
pub open spec fn attribute_line(e: ElementView, hide_cardinality: bool) -> Seq<char> {
    Seq::new(2 * depth(e.id), |_i: int| ' ') + "|_ "@ + local_name(e.id) + " : "@ + join(
        e.datatype,
        ", "@,
    ) + if hide_cardinality {
        Seq::empty()
    } else {
        " ["@ + e.min + ".."@ + e.max + seq![']']
    } + seq!['\n']
}

/// Whether the diagram lists `e`, an element of document `own`, as an
/// attribute line.
pub open spec fn shows_attribute(
    e: ElementView,
    own: Seq<char>,
    ids: Seq<Seq<char>>,
    hide_elements: bool,
) -> bool {
    is_nested(e) && !refers_to_document(e.datatype, own, ids) && !hide_elements
}

/// The attribute lines of the class block of document `own`.
pub open spec fn attribute_lines(
    els: Seq<ElementView>,
    own: Seq<char>,
    ids: Seq<Seq<char>>,
    hide_elements: bool,
    hide_cardinality: bool,
) -> Seq<char>
    decreases els.len(),
{
    if els.len() == 0 {
        Seq::empty()
    } else {
        attribute_lines(els.drop_last(), own, ids, hide_elements, hide_cardinality)
            + if shows_attribute(
            els.last(),
            own,
            ids,
            hide_elements,
        ) {
            attribute_line(els.last(), hide_cardinality)
        } else {
            Seq::empty()
        }
    }
}

/// The connector line from document `doc_id` to document `target` for
/// element `e`, labelled with its local name without choice markers.
pub open spec fn relation_line(doc_id: Seq<char>, e: ElementView, target: Seq<char>) -> Seq<char> {
    seq!['"'] + doc_id + "\" -- \""@ + e.min + ".."@ + e.max + "\" \""@ + target + "\" : "@
        + strip_marker(local_name(e.id)) + " >\n"@
}

/// The connector lines of a document, one per nested element that is a
/// relation, to the first of its type names that is the id of another
/// document.
pub open spec fn relation_lines(doc_id: Seq<char>, els: Seq<ElementView>, ids: Seq<Seq<char>>) -> Seq<
    char,
>
    decreases els.len(),
{
    if els.len() == 0 {
        Seq::empty()
    } else {
        relation_lines(doc_id, els.drop_last(), ids) + match first_match(
            els.last().datatype,
            doc_id,
            ids,
        ) {
            Some(t) => if is_nested(els.last()) {
                relation_line(doc_id, els.last(), t)
            } else {
                Seq::empty()
            },
            None => Seq::empty(),
        }
    }
}

/// The class block of one document followed by its connector lines.
pub open spec fn document_block(
    d: DocumentView,
    ids: Seq<Seq<char>>,
    hide_elements: bool,
    hide_cardinality: bool,
) -> Seq<char> {
    "class \""@ + d.id + "\" {\n"@ + attribute_lines(
        d.elements,
        d.id,
        ids,
        hide_elements,
        hide_cardinality,
    )
        + "}\n"@ + relation_lines(d.id, d.elements, ids) + seq!['\n']
}

/// The blocks of the documents, in order.
pub open spec fn document_blocks(
    docs: Seq<DocumentView>,
    ids: Seq<Seq<char>>,
    hide_elements: bool,
    hide_cardinality: bool,
) -> Seq<char>
    decreases docs.len(),
{
    if docs.len() == 0 {
        Seq::empty()
    } else {
        document_blocks(docs.drop_last(), ids, hide_elements, hide_cardinality) + document_block(
            docs.last(),
            ids,
            hide_elements,
            hide_cardinality,
        )
    }
}

/// The class diagram of a batch of documents.
pub open spec fn diagram_text(
    docs: Seq<DocumentView>,
    hide_elements: bool,
    hide_cardinality: bool,
) -> Seq<char> {
    diagram_header() + document_blocks(docs, document_ids(docs), hide_elements, hide_cardinality)
        + diagram_footer()
}

fn push_attribute_line(out: &mut String, e: &Element, part: &String, hide_cardinality: bool)
    requires
        after_last(e@.id, '.') == Some(part@),
    ensures
        final(out)@ == old(out)@ + attribute_line(e@, hide_cardinality),
{
    let ghost start = out@;
    let level = e.depth();
    push_repeated(out, ' ', level);
    push_repeated(out, ' ', level);
    assert(Seq::new(level as nat, |_i: int| ' ') + Seq::new(level as nat, |_i: int| ' ') =~= Seq::new(
        2 * depth(e@.id),
        |_i: int| ' ',
    ));
    out.append("|_ ");
    out.append(part.as_str());
    out.append(" : ");
    let types = reduce_datatypes(e.datatype.as_slice());
    out.append(types.as_str());
    if !hide_cardinality {
        out.append(" [");
        out.append(e.min.as_str());
        out.append("..");
        out.append(e.max.as_str());
        push_char(out, ']');
    }
    push_char(out, '\n');
    assert(out@ =~= start + attribute_line(e@, hide_cardinality));
}


fn push_relation_line(out: &mut String, doc_id: &String, e: &Element, part: &String, target: &String)
    requires
        after_last(e@.id, '.') == Some(part@),
    ensures
        final(out)@ == old(out)@ + relation_line(doc_id@, e@, target@),
{
    let ghost start = out@;
    push_char(out, '"');
    out.append(doc_id.as_str());
    out.append("\" -- \"");
    out.append(e.min.as_str());
    out.append("..");
    out.append(e.max.as_str());
    out.append("\" \"");
    out.append(target.as_str());
    out.append("\" : ");
    let label = strip_choice_marker(part.as_str());
    out.append(label.as_str());
    out.append(" >\n");
    assert(out@ =~= start + relation_line(doc_id@, e@, target@));
}

fn push_document_block(
    out: &mut String,
    d: &Document,
    docs: &Vec<Document>,
    hide_elements: bool,
    hide_cardinality: bool,
)
    ensures
        final(out)@ == old(out)@ + document_block(
            d@,
            document_ids(document_views(docs@)),
            hide_elements,
            hide_cardinality,
        ),
{
    let ghost ids = document_ids(document_views(docs@));
    let ghost els = d@.elements;
    let mut attributes = String::new();
    let mut relations = String::new();
    let mut i: usize = 0;
    assert(els.take(0) =~= Seq::<ElementView>::empty());
    assert(attributes@ =~= attribute_lines(els.take(0), d@.id, ids, hide_elements, hide_cardinality));
    assert(relations@ =~= relation_lines(d@.id, els.take(0), ids));
    while i < d.elements.len()
        invariant
            ids == document_ids(document_views(docs@)),
            els == d@.elements,
            i <= els.len(),
            attributes@ == attribute_lines(
                els.take(i as int),
                d@.id,
                ids,
                hide_elements,
                hide_cardinality,
            ),
            relations@ == relation_lines(d@.id, els.take(i as int), ids),
        decreases els.len() - i,
    {
        let e = &d.elements[i];
        let ghost ev = e@;
        assert(els[i as int] == ev);
        assert(els.take(i + 1).drop_last() =~= els.take(i as int));
        assert(els.take(i + 1).last() == ev);
        let ghost attributes_before = attributes@;
        let ghost relations_before = relations@;
        if let Some(part) = get_slice_after_last_occurrence(&e.id, '.') {
            let target = relation_target(e, &d.id, docs);
            proof {
                lemma_first_match_exists(ev.datatype, d@.id, ids);
            }
            match target {
                Some(t) => {
                    push_relation_line(&mut relations, &d.id, e, &part, &t);
                },
                None => {
                    if !hide_elements {
                        push_attribute_line(&mut attributes, e, &part, hide_cardinality);
                    }
                    assert(relations@ =~= relations_before + Seq::<char>::empty());
                },
            }
            assert(attributes@ =~= attribute_lines(
                els.take(i + 1),
                d@.id,
                ids,
                hide_elements,
                hide_cardinality,
            ));
        } else {
            assert(attributes@ =~= attributes_before + Seq::<char>::empty());
            assert(relations@ =~= relations_before + Seq::<char>::empty());
        }
        i = i + 1;
    }
    assert(els.take(els.len() as int) =~= els);
    let ghost start = out@;
    out.append("class \"");
    out.append(d.id.as_str());
    out.append("\" {\n");
    out.append(attributes.as_str());
    out.append("}\n");
    out.append(relations.as_str());
    push_char(out, '\n');
    assert(out@ =~= start + document_block(d@, ids, hide_elements, hide_cardinality));
}

/// The class diagram of a batch: a fixed header, then for each document a
/// class block listing its nested attribute elements (unless
/// `hide_elements`) followed by one connector line per nested relation
/// element, then a fixed footer. A relation element is one with a type name
/// that is the id of another document of the batch; it gets no attribute
/// line.
pub fn render_diagram(docs: &Vec<Document>, hide_elements: bool, hide_cardinality: bool) -> (r:
    String)
    ensures
        r@ == diagram_text(document_views(docs@), hide_elements, hide_cardinality),
{
    let ghost dv = document_views(docs@);
    let ghost ids = document_ids(dv);
    let mut out = String::new();
    out.append("@startuml\nskinparam linetype polyline\nhide circle\nhide stereotype\nhide methods\n\n");
    let ghost head = out@;
    let mut i: usize = 0;
    assert(dv.take(0) =~= Seq::<DocumentView>::empty());
    assert(out@ =~= head + document_blocks(dv.take(0), ids, hide_elements, hide_cardinality));
    while i < docs.len()
        invariant
            dv == document_views(docs@),
            ids == document_ids(dv),
            head == diagram_header(),
            i <= dv.len(),
            out@ == head + document_blocks(dv.take(i as int), ids, hide_elements, hide_cardinality),
        decreases dv.len() - i,
    {
        assert(dv.take(i + 1).drop_last() =~= dv.take(i as int));
        assert(dv.take(i + 1).last() == docs@[i as int]@);
        push_document_block(&mut out, &docs[i], docs, hide_elements, hide_cardinality);
        i = i + 1;
        assert(out@ =~= head + document_blocks(dv.take(i as int), ids, hide_elements, hide_cardinality));
    }
    assert(dv.take(dv.len() as int) =~= dv);
    out.append("@enduml\n");
    out
}


// ---------------------------------------------------------------- outline

/// The node of a nested element: one '*' per level below the document plus
/// one, a '_' marker past `box_level`, then the element's label.
pub open spec fn node_line(e: ElementView, box_level: nat) -> Seq<char> {
    Seq::new(depth(e.id) + 1, |_i: int| '*') + if depth(e.id) + 1 > box_level {
        seq!['_']
    } else {
        Seq::empty()
    } + seq![' '] + title_case(strip_marker(local_name(e.id))) + seq!['\n']
}

/// The nodes of the nested elements, in order.
pub open spec fn node_lines(els: Seq<ElementView>, box_level: nat) -> Seq<char>
    decreases els.len(),
{
    if els.len() == 0 {
        Seq::empty()
    } else {
        node_lines(els.drop_last(), box_level) + if is_nested(els.last()) {
            node_line(els.last(), box_level)
        } else {
            Seq::empty()
        }
    }
}

/// The mind-map outline of one document: a root node with its id, then one
/// node per nested element.
pub open spec fn outline_text(d: DocumentView, box_level: nat) -> Seq<char> {
    "@startmindmap\n* "@ + d.id + seq!['\n'] + node_lines(d.elements, box_level)
        + "@endmindmap\n"@
}

fn push_node_line(out: &mut String, e: &Element, part: &String, box_level: usize)
    requires
        after_last(e@.id, '.') == Some(part@),
    ensures
        final(out)@ == old(out)@ + node_line(e@, box_level as nat),
{
    let ghost start = out@;
    let level = e.depth();
    push_repeated(out, '*', level);
    push_char(out, '*');
    assert(Seq::new(level as nat, |_i: int| '*').push('*') =~= Seq::new(
        depth(e@.id) + 1,
        |_i: int| '*',
    ));
    if level >= box_level {
        push_char(out, '_');
    }
    push_char(out, ' ');
    let bare = strip_choice_marker(part.as_str());
    let label = camel_to_spaced_pascal(bare.as_str());
    out.append(label.as_str());
    push_char(out, '\n');
    assert(out@ =~= start + node_line(e@, box_level as nat));
}

/// The mind-map outline of a document: a root node labelled with the
/// document id, then one node per nested element, relation elements
/// included, nested one level deeper per '.' of its id. Past `box_level`
/// nodes carry the '_' marker.
pub fn render_outline(doc: &Document, box_level: usize) -> (r: String)
    ensures
        r@ == outline_text(doc@, box_level as nat),
{
    let ghost els = doc@.elements;
    let mut out = String::new();
    out.append("@startmindmap\n* ");
    out.append(doc.id.as_str());
    push_char(&mut out, '\n');
    let ghost head = out@;
    let mut i: usize = 0;
    assert(els.take(0) =~= Seq::<ElementView>::empty());
    assert(out@ =~= head + node_lines(els.take(0), box_level as nat));
    while i < doc.elements.len()
        invariant
            els == doc@.elements,
            i <= els.len(),
            out@ == head + node_lines(els.take(i as int), box_level as nat),
        decreases els.len() - i,
    {
        let e = &doc.elements[i];
        assert(els.take(i + 1).drop_last() =~= els.take(i as int));
        assert(els.take(i + 1).last() == e@);
        let ghost before = out@;
        if let Some(part) = get_slice_after_last_occurrence(&e.id, '.') {
            push_node_line(&mut out, e, &part, box_level);
        } else {
            assert(out@ =~= before + Seq::<char>::empty());
        }
        i = i + 1;
        assert(out@ =~= head + node_lines(els.take(i as int), box_level as nat));
    }
    assert(els.take(els.len() as int) =~= els);
    out.append("@endmindmap\n");
    assert(out@ =~= outline_text(doc@, box_level as nat));
    out
}

// ---------------------------------------------------------------- table

/// The title and the two header lines of a table.
pub open spec fn table_head(doc_id: Seq<char>) -> Seq<char> {
    "# "@ + doc_id + seq!['\n']
        + "| Code | Element | Short | Definition | Datatype | Cardinality | Preferred Code System | Binding Strength |\n"@
        + "| --- | --- | --- | --- | --- | --- | --- | --- |\n"@
}

/// A cell of a row, with the bar that closes it; an absent value is an
/// empty cell.
pub open spec fn cell_text(c: Option<Seq<char>>) -> Seq<char> {
    match c {
        Some(t) => seq![' '] + t + " |"@,
        None => " |"@,
    }
}

/// The row of element `e` with code `code`.
pub open spec fn row_text(e: ElementView, code: Seq<char>) -> Seq<char> {
    seq!['|'] + cell_text(Some(code)) + cell_text(Some(title_case(strip_marker(local_name(e.id)))))
        + cell_text(Some(e.short)) + cell_text(Some(e.definition)) + cell_text(
        Some(join(e.datatype, ", "@)),
    ) + cell_text(Some(e.min + ".."@ + e.max)) + cell_text(e.binding) + cell_text(
        e.binding_strength,
    ) + seq!['\n']
}

/// The rows of the elements, each with its code.
pub open spec fn rows_text(els: Seq<ElementView>, codes: Seq<Seq<char>>) -> Seq<char>
    decreases els.len(),
{
    if els.len() == 0 {
        Seq::empty()
    } else {
        rows_text(els.drop_last(), codes) + row_text(els.last(), codes[els.len() - 1])
    }
}

/// The depths of the elements, in order.
pub open spec fn element_depths(els: Seq<ElementView>) -> Seq<nat> {
    els.map_values(|e: ElementView| depth(e.id))
}

/// The table of a document, or `None` when the depths of its elements are
/// not well nested.
pub open spec fn table_text(d: DocumentView, prefix: Seq<char>) -> Option<Seq<char>> {
    let ds = element_depths(d.elements);
    if well_nested(ds) {
        Some(table_head(d.id) + rows_text(d.elements, codes(prefix, ds)))
    } else {
        None
    }
}

fn push_cell(out: &mut String, t: &str)
    ensures
        final(out)@ == old(out)@ + cell_text(Some(t@)),
{
    let ghost start = out@;
    push_char(out, ' ');
    out.append(t);
    out.append(" |");
    assert(out@ =~= start + cell_text(Some(t@)));
}

fn push_optional_cell(out: &mut String, t: &Option<String>)
    ensures
        final(out)@ == old(out)@ + cell_text(crate::model::opt_view(*t)),
{
    match t {
        Some(v) => push_cell(out, v.as_str()),
        None => out.append(" |"),
    }
}

fn element_depth_list(doc: &Document) -> (r: Vec<usize>)
    ensures
        depth_views(r@) == element_depths(doc@.elements),
{
    let ghost els = doc@.elements;
    let mut depths: Vec<usize> = Vec::new();
    let mut i: usize = 0;
    while i < doc.elements.len()
        invariant
            els == doc@.elements,
            i <= els.len(),
            depths@.len() == i,
            depth_views(depths@) == element_depths(els.take(i as int)),
        decreases els.len() - i,
    {
        let d = doc.elements[i].depth();
        assert(els[i as int] == doc.elements@[i as int]@);
        assert(d as nat == depth(els[i as int].id));
        let ghost before = depth_views(depths@);
        depths.push(d);
        assert(depth_views(depths@) =~= before.push(d as nat));
        assert(element_depths(els.take(i + 1)) =~= element_depths(els.take(i as int)).push(
            depth(els[i as int].id),
        ));
        i = i + 1;
    }
    assert(els.take(els.len() as int) =~= els);
    depths
}

fn push_row(out: &mut String, e: &Element, code: &String)
    ensures
        final(out)@ == old(out)@ + row_text(e@, code@),
{
    let ghost start = out@;
    push_char(out, '|');
    push_cell(out, code.as_str());
    let part = e.local_name();
    let bare = strip_choice_marker(part.as_str());
    let label = camel_to_spaced_pascal(bare.as_str());
    push_cell(out, label.as_str());
    push_cell(out, e.short.as_str());
    push_cell(out, e.definition.as_str());
    let types = reduce_datatypes(e.datatype.as_slice());
    push_cell(out, types.as_str());
    let mut cardinality = e.min.clone();
    cardinality.append("..");
    cardinality.append(e.max.as_str());
    push_cell(out, cardinality.as_str());
    push_optional_cell(out, &e.binding);
    push_optional_cell(out, &e.binding_strength);
    push_char(out, '\n');
    assert(out@ =~= start + row_text(e@, code@));
}

fn push_rows(out: &mut String, doc: &Document, codes: &Vec<String>)
    requires
        codes@.len() == doc@.elements.len(),
    ensures
        final(out)@ == old(out)@ + rows_text(doc@.elements, codes@.map_values(|c: String| c@)),
{
    let ghost els = doc@.elements;
    let ghost cs = codes@.map_values(|c: String| c@);
    let ghost head = out@;
    let mut k: usize = 0;
    assert(els.take(0) =~= Seq::<ElementView>::empty());
    assert(out@ =~= head + rows_text(els.take(0), cs));
    while k < doc.elements.len()
        invariant
            els == doc@.elements,
            codes@.len() == els.len(),
            cs == codes@.map_values(|c: String| c@),
            k <= els.len(),
            out@ == head + rows_text(els.take(k as int), cs),
        decreases els.len() - k,
    {
        assert(els.take(k + 1).drop_last() =~= els.take(k as int));
        assert(els.take(k + 1).last() == doc.elements@[k as int]@);
        assert(cs[k as int] == codes@[k as int]@);
        push_row(out, &doc.elements[k], &codes[k]);
        k = k + 1;
        assert(out@ =~= head + rows_text(els.take(k as int), cs));
    }
    assert(els.take(els.len() as int) =~= els);
}

/// The markdown table of a document: a title with its id, a fixed header of
/// eight columns, then one row per element, the root included: its code,
/// label, short text, definition, type names, cardinality "min..max", and
/// binding description and strength (empty cells when absent). `None` when
/// an element is more than one level deeper than the element before it, as
/// its code would be undefined.
pub fn render_table(doc: &Document, prefix: &str) -> (r: Option<String>)
    ensures
        crate::model::opt_view(r) == table_text(doc@, prefix@),
{
    let ghost els = doc@.elements;
    let depths = element_depth_list(doc);
    let codes = match element_codes(&depths, prefix) {
        Some(c) => c,
        None => return None,
    };
    let ghost cs = codes@.map_values(|c: String| c@);
    assert(cs.len() == codes@.len());
    assert(codes@.len() == els.len());
    let mut out = String::new();
    out.append("# ");
    out.append(doc.id.as_str());
    push_char(&mut out, '\n');
    out.append(
        "| Code | Element | Short | Definition | Datatype | Cardinality | Preferred Code System | Binding Strength |\n",
    );
    out.append("| --- | --- | --- | --- | --- | --- | --- | --- |\n");
    assert(out@ =~= table_head(doc@.id));
    push_rows(&mut out, doc, &codes);
    Some(out)
}

} // verus!
