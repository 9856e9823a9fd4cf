//! The text of each remark.

use vstd::prelude::*;
use vstd::string::*;
use crate::model::NodeId;
use crate::model::NodeIdView;

verus! {

/// How a node is named in remarks: namespace and local id around `__`.
pub open spec fn node_id_text(node: NodeIdView) -> Seq<char> {
    node.namespace + "__"@ + node.local_id
}

/// Said once where two assignments of the node share an id.
pub open spec fn duplicate_ids_remark(node: NodeIdView) -> Seq<char> {
    "Duplicate assignment IDs in node "@ + node_id_text(node)
}

/// Said of an assignment whose content file is unreadable.
pub open spec fn missing_content_remark(node: NodeIdView, id: Seq<char>) -> Seq<char> {
    "Assignment "@ + id + " associated with node "@ + node.local_id
        + " lacks a readable contents.html file."@
}

/// Said of an unreadable attachment, with its resolved path.
pub open spec fn unreadable_attachment_remark(path: Seq<char>) -> Seq<char> {
    "Attachment cannot be read at "@ + path
}

/// Said where the field's value is no list of assignments, with the
/// decoder's message.
pub open spec fn malformed_remark(node: NodeIdView, decode_error: Seq<char>) -> Seq<char> {
    "Something went wrong while deserializing assignments in node "@ + node_id_text(node) + ": "@
        + decode_error
}

/// Renders the node's identity with `NodeID`'s `Display` of
/// `logic_based_learning_paths`, which writes the namespace, two underscores
/// and the local id. The contract states that text; it is not proved here.
#[verifier::external_body]
pub(crate) fn display_node_id(node: &NodeId) -> (r: String)
    ensures
        r@ == node_id_text(node@),
{
    let id = logic_based_learning_paths::domain_without_loading::NodeID {
        namespace: node.namespace.clone(),
        local_id: node.local_id.clone(),
    };
    id.to_string()
}

/// The remark about shared ids in `node`.
pub fn duplicate_ids_remark_of(node: &NodeId) -> (r: String)
    ensures
        r@ == duplicate_ids_remark(node@),
{
    let shown = display_node_id(node);
    String::from_str("Duplicate assignment IDs in node ").concat(shown.as_str())
}

/// The remark about the unreadable content file of the assignment `id`.
pub fn missing_content_remark_of(node: &NodeId, id: &str) -> (r: String)
    ensures
        r@ == missing_content_remark(node@, id@),
{
    String::from_str("Assignment ").concat(id).concat(" associated with node ").concat(
        node.local_id.as_str(),
    ).concat(" lacks a readable contents.html file.")
}

/// The remark about the unreadable attachment at `path`.
pub fn unreadable_attachment_remark_of(path: &str) -> (r: String)
    ensures
        r@ == unreadable_attachment_remark(path@),
{
    String::from_str("Attachment cannot be read at ").concat(path)
}

/// The remark about a value that could not be decoded.
pub fn malformed_remark_of(node: &NodeId, decode_error: &str) -> (r: String)
    ensures
        r@ == malformed_remark(node@, decode_error@),
{
    let shown = display_node_id(node);
    String::from_str("Something went wrong while deserializing assignments in node ").concat(
        shown.as_str(),
    ).concat(": ").concat(decode_error)
}

} // verus!
