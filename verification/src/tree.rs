use vstd::prelude::*;
use crate::value::Number;

verus! {

broadcast use vstd::std_specs::vec::axiom_vec_decreases_to_view;

/// The mathematical model of a display tree.
pub enum TreeV {
    Boolean(bool),
    Number(Number),
    Null,
    String(Seq<char>),
    Array(Seq<TreeV>),
    Object(Seq<(Seq<char>, TreeV)>),
}

/// The JSON-like display model. An object keeps its entries in insertion
/// order; its keys are strings and are pairwise distinct.
pub enum DisplayTree {
    Boolean(bool),
    Number(Number),
    Null,
    String(String),
    Array(Vec<DisplayTree>),
    Object(Vec<(String, DisplayTree)>),
}

pub open spec fn tree_view(t: DisplayTree) -> TreeV
    decreases t,
{
    match t {
        DisplayTree::Boolean(b) => TreeV::Boolean(b),
        DisplayTree::Number(n) => TreeV::Number(n),
        DisplayTree::Null => TreeV::Null,
        DisplayTree::String(s) => TreeV::String(s@),
        DisplayTree::Array(xs) => TreeV::Array(items_view(xs@)),
        DisplayTree::Object(es) => TreeV::Object(fields_view(es@)),
    }
}

pub open spec fn items_view(xs: Seq<DisplayTree>) -> Seq<TreeV>
    decreases xs,
{
    if xs.len() == 0 {
        Seq::empty()
    } else {
        items_view(xs.drop_last()).push(tree_view(xs.last()))
    }
}

pub open spec fn fields_view(es: Seq<(String, DisplayTree)>) -> Seq<(Seq<char>, TreeV)>
    decreases es,
{
    if es.len() == 0 {
        Seq::empty()
    } else {
        fields_view(es.drop_last()).push((es.last().0@, tree_view(es.last().1)))
    }
}

impl View for DisplayTree {
    type V = TreeV;

    open spec fn view(&self) -> TreeV {
        tree_view(*self)
    }
}

pub proof fn lemma_items_view(xs: Seq<DisplayTree>)
    ensures
        items_view(xs).len() == xs.len(),
        forall|i: int| 0 <= i < xs.len() ==> items_view(xs)[i] == tree_view(#[trigger] xs[i]),
    decreases xs.len(),
{
    if xs.len() > 0 {
        lemma_items_view(xs.drop_last());
        assert forall|i: int| 0 <= i < xs.len() implies items_view(xs)[i]
            == tree_view(xs[i]) by {
            if i < xs.len() - 1 {
                assert(xs.drop_last()[i] == xs[i]);
            } else {
                assert(xs.last() == xs[i]);
            }
        }
    }
}

pub proof fn lemma_fields_view(es: Seq<(String, DisplayTree)>)
    ensures
        fields_view(es).len() == es.len(),
        forall|i: int| 0 <= i < es.len() ==> fields_view(es)[i]
            == ((#[trigger] es[i]).0@, tree_view(es[i].1)),
    decreases es.len(),
{
    if es.len() > 0 {
        lemma_fields_view(es.drop_last());
        assert forall|i: int| 0 <= i < es.len() implies fields_view(es)[i]
            == ((es[i]).0@, tree_view(es[i].1)) by {
            if i < es.len() - 1 {
                assert(es.drop_last()[i] == es[i]);
            } else {
                assert(es.last() == es[i]);
            }
        }
    }
}

} // verus!
