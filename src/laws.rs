//! Properties that relate the functions of the library to each other.

use vstd::prelude::*;

use crate::hierarchy::{depth, first_match, local_name, refers_to_document};
use crate::json::Json;
use crate::model::{load_failures, loaded_documents, spec_load, ElementView};
use crate::render::{
    attribute_line,
    attribute_lines,
    cell_text,
    is_nested,
    node_line,
    node_lines,
    relation_line,
    relation_lines,
    row_text,
};
use crate::text::{after_last, count_char, join, last_index_of, lemma_last_index_of_bounds};

verus! {

/// An element id is nested exactly when its depth is positive. Its local
/// name holds no '.', and a nested id is the part before its last '.', that
/// '.', and the local name.
pub proof fn lemma_depth_and_local_name(id: Seq<char>)
    ensures
        after_last(id, '.') is Some <==> depth(id) > 0,
        forall|j: int| 0 <= j < local_name(id).len() ==> local_name(id)[j] != '.',
        depth(id) > 0 ==> id == id.subrange(0, last_index_of(id, '.')) + seq!['.'] + local_name(id),
        depth(id) == 0 ==> local_name(id) == id,
    decreases id.len(),
{
    lemma_last_index_of_bounds(id, '.');
    lemma_no_dot_count(id);
    let k = last_index_of(id, '.');
    if k >= 0 {
        lemma_count_positive(id, k);
        let t = local_name(id);
        assert forall|j: int| 0 <= j < t.len() implies t[j] != '.' by {
            assert(t[j] == id[k + 1 + j]);
        }
        assert(id =~= id.subrange(0, k) + seq!['.'] + t);
    }
}

proof fn lemma_no_dot_count(s: Seq<char>)
    ensures
        last_index_of(s, '.') < 0 ==> count_char(s, '.') == 0,
    decreases s.len(),
{
    if s.len() > 0 {
        lemma_no_dot_count(s.drop_last());
    }
}

proof fn lemma_count_positive(s: Seq<char>, k: int)
    requires
        0 <= k < s.len(),
        s[k] == '.',
    ensures
        count_char(s, '.') > 0,
    decreases s.len(),
{
    if k < s.len() - 1 {
        assert(s.drop_last()[k] == s[k]);
        lemma_count_positive(s.drop_last(), k);
    }
}

/// The outline lists a node for every nested element, in element order, and
/// nothing else.
pub proof fn lemma_outline_node_per_element(els: Seq<ElementView>, box_level: nat)
    ensures
        node_lines(els, box_level) == els.filter(|e: ElementView| is_nested(e)).map_values(
            |e: ElementView| node_line(e, box_level),
        ).flatten_alt(),
        forall|i: int|
            0 <= i < els.len() && is_nested(els[i]) ==> els.filter(
                |e: ElementView| is_nested(e),
            ).contains(#[trigger] els[i]),
    decreases els.len(),
{
    reveal(Seq::filter);
    let p = |e: ElementView| is_nested(e);
    let f = |e: ElementView| node_line(e, box_level);
    broadcast use vstd::seq_lib::group_filter_ensures;
    if els.len() > 0 {
        lemma_outline_node_per_element(els.drop_last(), box_level);
        let sub = els.drop_last().filter(p);
        if p(els.last()) {
            assert(els.filter(p) == sub.push(els.last()));
            let m = sub.push(els.last()).map_values(f);
            assert(m.drop_last() =~= sub.map_values(f));
        } else {
            assert(els.filter(p) == sub);
            assert(node_lines(els, box_level) =~= node_lines(els.drop_last(), box_level));
        }
    }
}

/// Without hidden elements, the class block of document `doc_id` lists
/// exactly its nested elements that are not relations, in element order, and
/// its connector lines are exactly those of its nested relation elements,
/// each to the first type name that is the id of another document.
pub proof fn lemma_diagram_omits_exactly_relations(
    doc_id: Seq<char>,
    els: Seq<ElementView>,
    ids: Seq<Seq<char>>,
    hide_cardinality: bool,
)
    ensures
        attribute_lines(els, doc_id, ids, false, hide_cardinality) == els.filter(
            |e: ElementView| is_nested(e) && !refers_to_document(e.datatype, doc_id, ids),
        ).map_values(|e: ElementView| attribute_line(e, hide_cardinality)).flatten_alt(),
        relation_lines(doc_id, els, ids) == els.filter(
            |e: ElementView| is_nested(e) && refers_to_document(e.datatype, doc_id, ids),
        ).map_values(
            |e: ElementView| relation_line(doc_id, e, first_match(e.datatype, doc_id, ids)->0),
        ).flatten_alt(),
    decreases els.len(),
{
    reveal(Seq::filter);
    let pa = |e: ElementView| is_nested(e) && !refers_to_document(e.datatype, doc_id, ids);
    let pr = |e: ElementView| is_nested(e) && refers_to_document(e.datatype, doc_id, ids);
    let fa = |e: ElementView| attribute_line(e, hide_cardinality);
    let fr = |e: ElementView| relation_line(doc_id, e, first_match(e.datatype, doc_id, ids)->0);
    if els.len() > 0 {
        lemma_diagram_omits_exactly_relations(doc_id, els.drop_last(), ids, hide_cardinality);
        let last = els.last();
        crate::hierarchy::lemma_first_match_exists(last.datatype, doc_id, ids);
        let sa = els.drop_last().filter(pa);
        let sr = els.drop_last().filter(pr);
        if pa(last) {
            let m = sa.push(last).map_values(fa);
            assert(m.drop_last() =~= sa.map_values(fa));
        } else {
            assert(attribute_lines(els, doc_id, ids, false, hide_cardinality) =~= attribute_lines(
                els.drop_last(),
                doc_id,
                ids,
                false,
                hide_cardinality,
            ));
        }
        if pr(last) {
            let m = sr.push(last).map_values(fr);
            assert(m.drop_last() =~= sr.map_values(fr));
        } else {
            assert(relation_lines(doc_id, els, ids) =~= relation_lines(doc_id, els.drop_last(), ids));
        }
    }
}

/// The cells of the row of element `e`: code, label, short text, definition,
/// type names, cardinality, binding description and binding strength.
pub open spec fn row_cells(e: ElementView, code: Seq<char>) -> Seq<Option<Seq<char>>> {
    seq![
        Some(code),
        Some(crate::naming::title_case(crate::text::strip_marker(local_name(e.id)))),
        Some(e.short),
        Some(e.definition),
        Some(join(e.datatype, ", "@)),
        Some(e.min + ".."@ + e.max),
        e.binding,
        e.binding_strength,
    ]
}

/// Every row has the eight cells of the header, whichever optional fields
/// are absent; an absent binding is an empty cell in its column, and the
/// cardinality cell is "min..max".
pub proof fn lemma_row_has_eight_cells(e: ElementView, code: Seq<char>)
    ensures
        row_cells(e, code).len() == 8,
        row_text(e, code) == seq!['|'] + row_cells(e, code).map_values(
            |c: Option<Seq<char>>| cell_text(c),
        ).flatten_alt() + seq!['\n'],
        row_cells(e, code)[5] == Some(e.min + ".."@ + e.max),
        e.binding is None ==> row_cells(e, code)[6] is None && cell_text(row_cells(e, code)[6])
            == " |"@,
{
    let cells = row_cells(e, code).map_values(|c: Option<Seq<char>>| cell_text(c));
    reveal_with_fuel(Seq::flatten_alt, 9);
    assert(cells.drop_last().drop_last().drop_last().drop_last().drop_last().drop_last().drop_last()
        =~= seq![cells[0]]);
    assert(row_text(e, code) =~= seq!['|'] + cells.flatten_alt() + seq!['\n']);
}

/// Every input of a batch gives either a document or a failure.
pub proof fn lemma_batch_accounts_for_every_input(inputs: Seq<Option<Json>>)
    ensures
        loaded_documents(inputs).len() + load_failures(inputs).len() == inputs.len(),
    decreases inputs.len(),
{
    if inputs.len() > 0 {
        lemma_batch_accounts_for_every_input(inputs.drop_last());
    }
}

/// In a batch of three inputs of which the second fails, the first and
/// third still give their documents, in order, and the one failure recorded
/// is that of the second input.
pub proof fn lemma_failed_input_is_skipped(a: Option<Json>, b: Option<Json>, c: Option<Json>)
    requires
        spec_load(a) is Ok,
        spec_load(b) is Err,
        spec_load(c) is Ok,
    ensures
        loaded_documents(seq![a, b, c]) == seq![
            spec_load(a)->Ok_0,
            spec_load(c)->Ok_0,
        ],
        load_failures(seq![a, b, c]) == seq![(1int, spec_load(b)->Err_0)],
{
    let s = seq![a, b, c];
    assert(s.drop_last() =~= seq![a, b]);
    assert(s.drop_last().drop_last() =~= seq![a]);
    assert(s.drop_last().drop_last().drop_last() =~= Seq::<Option<Json>>::empty());
    reveal_with_fuel(loaded_documents, 4);
    reveal_with_fuel(load_failures, 4);
    assert(loaded_documents(s) =~= seq![spec_load(a)->Ok_0, spec_load(c)->Ok_0]);
    assert(load_failures(s) =~= seq![(1int, spec_load(b)->Err_0)]);
}

} // verus!
