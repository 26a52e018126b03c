//! Depth and local name of an element, and whether it refers to another
//! document of the batch.

use vstd::prelude::*;

use crate::model::{document_views, opt_view, Document, DocumentView, Element};
use crate::text::{
    after_last,
    count_char,
    count_char_occurrences,
    get_slice_after_last_occurrence,
};

verus! {

/// The nesting depth of an element id: the number of '.' in it.
pub open spec fn depth(id: Seq<char>) -> nat {
    count_char(id, '.')
}

/// The local name of an element id: the part after its last '.', or the
/// whole id when it has none.
pub open spec fn local_name(id: Seq<char>) -> Seq<char> {
    match after_last(id, '.') {
        Some(t) => t,
        None => id,
    }
}

/// The ids of the documents of a batch, in order.
pub open spec fn document_ids(docs: Seq<DocumentView>) -> Seq<Seq<char>> {
    docs.map_values(|d: DocumentView| d.id)
}

/// Whether type name `t` is the id of a document of the batch `ids` other
/// than the element's own document `own`.
pub open spec fn names_other_document(t: Seq<char>, own: Seq<char>, ids: Seq<Seq<char>>) -> bool {
    t != own && ids.contains(t)
}

/// The first type name of `datatype` that is the id of another document of
/// the batch.
pub open spec fn first_match(datatype: Seq<Seq<char>>, own: Seq<char>, ids: Seq<Seq<char>>) -> Option<
    Seq<char>,
>
    decreases datatype.len(),
{
    if datatype.len() == 0 {
        None
    } else if names_other_document(datatype[0], own, ids) {
        Some(datatype[0])
    } else {
        first_match(datatype.skip(1), own, ids)
    }
}

/// An element of document `own` is a relation when one of its type names is
/// the id of another document of the batch.
pub open spec fn refers_to_document(datatype: Seq<Seq<char>>, own: Seq<char>, ids: Seq<Seq<char>>) -> bool {
    exists|i: int| 0 <= i < datatype.len() && names_other_document(#[trigger] datatype[i], own, ids)
}

impl Element {
    /// The nesting depth: the number of '.' in the id.
    pub fn depth(&self) -> (r: usize)
        ensures
            r == depth(self.id@),
    {
        count_char_occurrences(&self.id, '.')
    }

    /// The part of the id after its last '.', or the whole id.
    pub fn local_name(&self) -> (r: String)
        ensures
            r@ == local_name(self.id@),
    {
        match get_slice_after_last_occurrence(&self.id, '.') {
            Some(t) => t,
            None => self.id.clone(),
        }
    }
}

/// Whether `name` is the id of one of `docs`.
pub fn is_document_id(name: &String, docs: &Vec<Document>) -> (r: bool)
    ensures
        r == document_ids(document_views(docs@)).contains(name@),
{
    let ghost ids = document_ids(document_views(docs@));
    let mut i: usize = 0;
    while i < docs.len()
        invariant
            i <= docs@.len(),
            ids == document_ids(document_views(docs@)),
            forall|k: int| 0 <= k < i ==> ids[k] != name@,
        decreases docs@.len() - i,
    {
        if *name == docs[i].id {
            assert(ids[i as int] == name@);
            return true;
        }
        i = i + 1;
    }
    false
}

/// The target of the relation that `e`, an element of the document with id
/// `own`, stands for: its first type name that is the id of another document
/// of the batch, if any.
pub fn relation_target(e: &Element, own: &String, docs: &Vec<Document>) -> (r: Option<String>)
    ensures
        opt_view(r) == first_match(e@.datatype, own@, document_ids(document_views(docs@))),
{
    let ghost ids = document_ids(document_views(docs@));
    let mut i: usize = 0;
    assert(e@.datatype.skip(0) =~= e@.datatype);
    while i < e.datatype.len()
        invariant
            i <= e.datatype@.len(),
            ids == document_ids(document_views(docs@)),
            first_match(e@.datatype.skip(i as int), own@, ids) == first_match(e@.datatype, own@, ids),
        decreases e.datatype@.len() - i,
    {
        let ghost rest = e@.datatype.skip(i as int);
        assert(rest[0] == e.datatype@[i as int]@);
        assert(rest.skip(1) =~= e@.datatype.skip(i + 1));
        if e.datatype[i] != *own && is_document_id(&e.datatype[i], docs) {
            return Some(e.datatype[i].clone());
        }
        i = i + 1;
    }
    None
}

/// A first match exists exactly when some type name is the id of another
/// document.
pub proof fn lemma_first_match_exists(datatype: Seq<Seq<char>>, own: Seq<char>, ids: Seq<Seq<char>>)
    ensures
        first_match(datatype, own, ids) is Some <==> refers_to_document(datatype, own, ids),
        first_match(datatype, own, ids) matches Some(t) ==> names_other_document(t, own, ids),
    decreases datatype.len(),
{
    if datatype.len() > 0 {
        let rest = datatype.skip(1);
        lemma_first_match_exists(rest, own, ids);
        if refers_to_document(rest, own, ids) {
            let i = choose|i: int|
                0 <= i < rest.len() && names_other_document(#[trigger] rest[i], own, ids);
            assert(datatype[i + 1] == rest[i]);
        }
        if refers_to_document(datatype, own, ids) && !names_other_document(datatype[0], own, ids) {
            let i = choose|i: int|
                0 <= i < datatype.len() && names_other_document(#[trigger] datatype[i], own, ids);
            assert(rest[i - 1] == datatype[i]);
        }
    }
}

/// Whether `e`, an element of the document with id `own`, is a relation: one
/// of its type names is the id of another document of the batch. Otherwise
/// it is an attribute.
pub fn is_relation(e: &Element, own: &String, docs: &Vec<Document>) -> (r: bool)
    ensures
        r == refers_to_document(e@.datatype, own@, document_ids(document_views(docs@))),
{
    let t = relation_target(e, own, docs);
    proof {
        lemma_first_match_exists(e@.datatype, own@, document_ids(document_views(docs@)));
    }
    t.is_some()
}

} // verus!
