//! Paths as `/`-separated text: joining, the files of an assignment and the
//! directories they are published to.

use vstd::prelude::*;
use vstd::string::*;
use crate::model::NodeIdView;
use crate::model::NodeId;

verus! {

/// `segment` adjoined to `base`: an absolute segment replaces the base;
/// otherwise the two are glued with a single `/`, which is left out where
/// the base is empty or already ends in one.
pub open spec fn joined(base: Seq<char>, segment: Seq<char>) -> Seq<char> {
    if segment.len() > 0 && segment[0] == '/' {
        segment
    } else if base.len() > 0 && base.last() != '/' {
        base + seq!['/'] + segment
    } else {
        base + segment
    }
}

/// Directory of an assignment below the cluster: `cluster / local_id / id`.
pub open spec fn assignment_dir(cluster: Seq<char>, node: NodeIdView, id: Seq<char>) -> Seq<char> {
    joined(joined(cluster, node.local_id), id)
}

/// The mandatory content file of an assignment.
pub open spec fn content_path(cluster: Seq<char>, node: NodeIdView, id: Seq<char>) -> Seq<char> {
    joined(assignment_dir(cluster, node, id), "contents.html"@)
}

/// An attachment, resolved against the assignment's directory.
pub open spec fn attachment_path(
    cluster: Seq<char>,
    node: NodeIdView,
    id: Seq<char>,
    attachment: Seq<char>,
) -> Seq<char> {
    joined(assignment_dir(cluster, node, id), attachment)
}

/// Where the content file is published: `namespace/local_id/assignments/id`.
pub open spec fn content_target_dir(node: NodeIdView, id: Seq<char>) -> Seq<char> {
    node.namespace + "/"@ + node.local_id + "/assignments/"@ + id
}

/// Where attachments are published: the content directory's `attachments`.
pub open spec fn attachment_target_dir(node: NodeIdView, id: Seq<char>) -> Seq<char> {
    content_target_dir(node, id) + "/attachments"@
}

/// Adjoins `segment` to `base`.
pub fn join_path(base: &str, segment: &str) -> (r: String)
    ensures
        r@ == joined(base@, segment@),
{
    let seg_len: usize = segment.unicode_len();
    if seg_len > 0 && segment.get_char(0) == '/' {
        return String::from_str(segment);
    }
    let base_len: usize = base.unicode_len();
    if base_len > 0 && base.get_char(base_len - 1) != '/' {
        proof {
            reveal_strlit("/");
            assert("/"@ =~= seq!['/']);
        }
        String::from_str(base).concat("/").concat(segment)
    } else {
        String::from_str(base).concat(segment)
    }
}

/// The directory of the assignment `id` of `node` below `cluster_path`.
pub fn assignment_dir_of(cluster_path: &str, node: &NodeId, id: &str) -> (r: String)
    ensures
        r@ == assignment_dir(cluster_path@, node@, id@),
{
    let in_cluster = join_path(cluster_path, node.local_id.as_str());
    join_path(in_cluster.as_str(), id)
}

/// The content file of the assignment `id`.
pub fn content_path_of(cluster_path: &str, node: &NodeId, id: &str) -> (r: String)
    ensures
        r@ == content_path(cluster_path@, node@, id@),
{
    let dir = assignment_dir_of(cluster_path, node, id);
    join_path(dir.as_str(), "contents.html")
}

/// The path of `attachment`, resolved against the directory of the
/// assignment `id`.
pub fn attachment_path_of(cluster_path: &str, node: &NodeId, id: &str, attachment: &str) -> (r: String)
    ensures
        r@ == attachment_path(cluster_path@, node@, id@, attachment@),
{
    let dir = assignment_dir_of(cluster_path, node, id);
    join_path(dir.as_str(), attachment)
}

/// The directory to which the content file of the assignment `id` is
/// published.
pub fn content_target_dir_of(node: &NodeId, id: &str) -> (r: String)
    ensures
        r@ == content_target_dir(node@, id@),
{
    node.namespace.clone().concat("/").concat(node.local_id.as_str()).concat("/assignments/").concat(id)
}

/// The directory to which the attachments of the assignment `id` are
/// published.
pub fn attachment_target_dir_of(node: &NodeId, id: &str) -> (r: String)
    ensures
        r@ == attachment_target_dir(node@, id@),
{
    content_target_dir_of(node, id).concat("/attachments")
}

} // verus!
