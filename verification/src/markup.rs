//! Finding the viewbox and the paths in a document's markup.

use crate::document::{drawing, texts};
use crate::error::CompileError;
use crate::instruction::Instrcution;
use crate::path::listed;
use vstd::prelude::*;
use vstd::utf8::encode_utf8;

verus! {

#[verifier::external_type_specification]
#[verifier::external_body]
pub struct ExMarkupError(roxmltree::Error);

/// A node of a document: the local part of its tag name, which is empty
/// where the node is no element, and the value of one attribute where the
/// node has it.
pub type Node = (String, Option<String>);

/// What `roxmltree` finds in `text`: the value that the root element gives
/// the attribute `root_attribute`, and every node of the document, in
/// document order, with the value it gives the attribute `node_attribute`.
/// Attributes are looked up by the local part of their name. `None` where
/// `roxmltree` does not accept `text` as a document.
pub uninterp spec fn outline_of(
    text: Seq<char>,
    root_attribute: Seq<char>,
    node_attribute: Seq<char>,
) -> Option<(Option<Seq<char>>, Seq<(Seq<char>, Option<Seq<char>>)>)>;

/// Parses `text` with `roxmltree::Document::parse` and hands out, as owned
/// strings, what `Document::root_element`, `Document::descendants`,
/// `Node::tag_name` and `Node::attribute` give for it. Taken on trust: that
/// the outcome depends on the three arguments alone, which is what
/// [`outline_of`] names; and that the parser returns for every text.
#[verifier::external_body]
fn outline(text: &str, root_attribute: &str, node_attribute: &str) -> (r: Result<
    (Option<String>, Vec<Node>),
    roxmltree::Error,
>)
    ensures
        match r {
            Ok(found) => outline_of(text@, root_attribute@, node_attribute@) == Some(
                found.deep_view(),
            ),
            Err(_) => outline_of(text@, root_attribute@, node_attribute@) is None,
        },
{
    let doc = roxmltree::Document::parse(text)?;
    let root = doc.root_element().attribute(root_attribute).map(|v| v.to_owned());
    let nodes = doc.descendants().map(
        |n| (n.tag_name().name().to_owned(), n.attribute(node_attribute).map(|v| v.to_owned())),
    ).collect();
    Ok((root, nodes))
}

/// The data of the path elements among `nodes`: of each node named `path`
/// that has the attribute, the attribute's value.
pub open spec fn path_data(nodes: Seq<(Seq<char>, Option<Seq<char>>)>) -> Seq<Seq<char>>
    decreases nodes.len(),
{
    if nodes.len() == 0 {
        Seq::empty()
    } else {
        let rest = path_data(nodes.drop_last());
        match nodes.last() {
            (name, Some(data)) if name == "path"@ => rest.push(data),
            _ => rest,
        }
    }
}

/// Picks the data of the path elements.
pub fn get_paths_from_file(nodes: &[Node]) -> (paths: Vec<String>)
    ensures
        paths.deep_view() == path_data(nodes.deep_view()),
{
    let tag = "path".to_owned();
    let mut paths: Vec<String> = Vec::new();
    let mut i: usize = 0;
    let ghost all = nodes.deep_view();
    assert(all.take(0) =~= Seq::empty());
    assert(paths.deep_view() =~= Seq::<Seq<char>>::empty());
    while i < nodes.len()
        invariant
            i <= nodes.len(),
            all == nodes.deep_view(),
            tag@ == "path"@,
            paths.deep_view() == path_data(all.take(i as int)),
        decreases nodes.len() - i,
    {
        proof {
            assert(all.take(i + 1).drop_last() =~= all.take(i as int));
            assert(all.take(i + 1).last() == nodes[i as int].deep_view());
        }
        let ghost before = paths.deep_view();
        if nodes[i].0 == tag {
            if let Some(data) = &nodes[i].1 {
                let data = data.clone();
                paths.push(data);
                assert(paths.deep_view() =~= before.push(data@));
            }
        }
        i += 1;
    }
    assert(all.take(nodes.len() as int) =~= all);
    paths
}

/// The instructions of a document whose root element gives `viewbox` as
/// its viewbox and whose nodes are `nodes`. A document without a viewbox
/// is taken as one with an empty viewbox.
pub open spec fn outlined(
    viewbox: Option<Seq<char>>,
    nodes: Seq<(Seq<char>, Option<Seq<char>>)>,
) -> Result<Seq<Instrcution>, CompileError> {
    match viewbox {
        None => Err(CompileError::MalformedViewbox),
        Some(v) => drawing(encode_utf8(v), path_data(nodes).map_values(|p: Seq<char>| encode_utf8(p))),
    }
}

impl Instrcution {
    /// Compiles a document from what was found in its markup.
    pub fn from_outline(viewbox: Option<&str>, nodes: &[Node]) -> (r: Result<Vec<Self>, CompileError>)
        ensures
            listed(r) == outlined(viewbox.deep_view(), nodes.deep_view()),
    {
        let paths = get_paths_from_file(nodes);
        match viewbox {
            None => Err(CompileError::MalformedViewbox),
            Some(v) => {
                assert(texts(paths@) =~= path_data(nodes.deep_view()).map_values(
                    |p: Seq<char>| encode_utf8(p),
                ));
                Self::from_parts(v, paths.as_slice())
            },
        }
    }

    /// Compiles the text of a document.
    pub fn from_document(text: &str) -> (r: Result<Vec<Self>, CompileError>)
        ensures
            listed(r) == match outline_of(text@, "viewBox"@, "d"@) {
                None => Err(CompileError::MalformedDocument),
                Some((viewbox, nodes)) => outlined(viewbox, nodes),
            },
    {
        match outline(text, "viewBox", "d") {
            Err(_) => Err(CompileError::MalformedDocument),
            Ok((viewbox, nodes)) => {
                let viewbox = match &viewbox {
                    Some(v) => Some(v.as_str()),
                    None => None,
                };
                Self::from_outline(viewbox, nodes.as_slice())
            },
        }
    }
}

} // verus!
