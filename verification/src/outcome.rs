//! What processing a field yields, stated over plain sequences and sets.
//!
//! The files found readable are given as a sequence of paths: a path is
//! readable exactly when it occurs there.

use vstd::prelude::*;
use crate::model::AssignmentView;
use crate::model::MappingView;
use crate::model::NodeIdView;
use crate::paths::attachment_path;
use crate::paths::attachment_target_dir;
use crate::paths::content_path;
use crate::paths::content_target_dir;
use crate::remarks::duplicate_ids_remark;
use crate::remarks::malformed_remark;
use crate::remarks::missing_content_remark;
use crate::remarks::unreadable_attachment_remark;

verus! {

/// The result of processing a field.
pub enum Outcome {
    /// The field is valid; these mappings are to be published.
    Mappings(Set<MappingView>),
    /// The field is not the one handled here.
    WrongField,
    /// The field is invalid, for these reasons, in the order found.
    Remarks(Seq<Seq<char>>),
}

/// Name of the one field that is handled.
pub open spec fn field_name_handled() -> Seq<char> {
    "assignments"@
}

/// Two of the assignments share an id.
pub open spec fn has_duplicate_ids(assignments: Seq<AssignmentView>) -> bool {
    exists|i: int, j: int|
        0 <= i < j < assignments.len() && (#[trigger] assignments[i]).id == (
        #[trigger] assignments[j]).id
}

/// The mapping that publishes the content file of the assignment `id`.
pub open spec fn content_mapping(cluster: Seq<char>, node: NodeIdView, id: Seq<char>) -> MappingView {
    MappingView {
        local_file: content_path(cluster, node, id),
        target_dir: content_target_dir(node, id),
    }
}

/// The mapping that publishes one attachment of the assignment `id`.
pub open spec fn attachment_mapping(
    cluster: Seq<char>,
    node: NodeIdView,
    id: Seq<char>,
    attachment: Seq<char>,
) -> MappingView {
    MappingView {
        local_file: attachment_path(cluster, node, id, attachment),
        target_dir: attachment_target_dir(node, id),
    }
}

/// The content mapping of an assignment, if its content file is readable.
pub open spec fn content_mappings(
    cluster: Seq<char>,
    node: NodeIdView,
    id: Seq<char>,
    readable: Seq<Seq<char>>,
) -> Set<MappingView> {
    if readable.contains(content_path(cluster, node, id)) {
        set![content_mapping(cluster, node, id)]
    } else {
        Set::empty()
    }
}

/// One mapping for each readable attachment among `attachments`.
pub open spec fn attachment_mappings(
    cluster: Seq<char>,
    node: NodeIdView,
    id: Seq<char>,
    attachments: Seq<Seq<char>>,
    readable: Seq<Seq<char>>,
) -> Set<MappingView> {
    Set::new(
        |m: MappingView|
            exists|k: int|
                0 <= k < attachments.len() && readable.contains(
                    attachment_path(cluster, node, id, #[trigger] attachments[k]),
                ) && m == attachment_mapping(cluster, node, id, attachments[k]),
    )
}

/// Everything one assignment contributes.
pub open spec fn assignment_mappings(
    cluster: Seq<char>,
    node: NodeIdView,
    assignment: AssignmentView,
    readable: Seq<Seq<char>>,
) -> Set<MappingView> {
    content_mappings(cluster, node, assignment.id, readable).union(
        attachment_mappings(cluster, node, assignment.id, assignment.attachments, readable),
    )
}

/// Everything the assignments contribute together.
pub open spec fn expected_mappings(
    cluster: Seq<char>,
    node: NodeIdView,
    assignments: Seq<AssignmentView>,
    readable: Seq<Seq<char>>,
) -> Set<MappingView> {
    Set::new(
        |m: MappingView|
            exists|i: int|
                0 <= i < assignments.len() && assignment_mappings(
                    cluster,
                    node,
                    #[trigger] assignments[i],
                    readable,
                ).contains(m),
    )
}

/// The remark about an assignment's content file, if it is unreadable.
pub open spec fn content_remarks(
    cluster: Seq<char>,
    node: NodeIdView,
    id: Seq<char>,
    readable: Seq<Seq<char>>,
) -> Seq<Seq<char>> {
    if readable.contains(content_path(cluster, node, id)) {
        Seq::empty()
    } else {
        seq![missing_content_remark(node, id)]
    }
}

/// One remark for each unreadable attachment, in declaration order.
pub open spec fn attachment_remarks(
    cluster: Seq<char>,
    node: NodeIdView,
    id: Seq<char>,
    attachments: Seq<Seq<char>>,
    readable: Seq<Seq<char>>,
) -> Seq<Seq<char>>
    decreases attachments.len(),
{
    if attachments.len() == 0 {
        Seq::empty()
    } else {
        let path = attachment_path(cluster, node, id, attachments.last());
        attachment_remarks(cluster, node, id, attachments.drop_last(), readable) + (if readable.contains(
            path,
        ) {
            Seq::empty()
        } else {
            seq![unreadable_attachment_remark(path)]
        })
    }
}

/// The remarks about one assignment: its content file first.
pub open spec fn assignment_remarks(
    cluster: Seq<char>,
    node: NodeIdView,
    assignment: AssignmentView,
    readable: Seq<Seq<char>>,
) -> Seq<Seq<char>> {
    content_remarks(cluster, node, assignment.id, readable) + attachment_remarks(
        cluster,
        node,
        assignment.id,
        assignment.attachments,
        readable,
    )
}

/// The remarks about files, assignment after assignment.
pub open spec fn file_remarks(
    cluster: Seq<char>,
    node: NodeIdView,
    assignments: Seq<AssignmentView>,
    readable: Seq<Seq<char>>,
) -> Seq<Seq<char>>
    decreases assignments.len(),
{
    if assignments.len() == 0 {
        Seq::empty()
    } else {
        file_remarks(cluster, node, assignments.drop_last(), readable) + assignment_remarks(
            cluster,
            node,
            assignments.last(),
            readable,
        )
    }
}

/// The remark about shared ids, if any are shared.
pub open spec fn duplicate_remarks(node: NodeIdView, assignments: Seq<AssignmentView>) -> Seq<
    Seq<char>,
> {
    if has_duplicate_ids(assignments) {
        seq![duplicate_ids_remark(node)]
    } else {
        Seq::empty()
    }
}

/// All remarks on a decoded list: shared ids first, then the files.
pub open spec fn all_remarks(
    cluster: Seq<char>,
    node: NodeIdView,
    assignments: Seq<AssignmentView>,
    readable: Seq<Seq<char>>,
) -> Seq<Seq<char>> {
    duplicate_remarks(node, assignments) + file_remarks(cluster, node, assignments, readable)
}

/// Validation of a decoded list: the mappings if there is nothing to
/// remark, else the remarks and no mapping.
pub open spec fn validation_outcome(
    cluster: Seq<char>,
    node: NodeIdView,
    assignments: Seq<AssignmentView>,
    readable: Seq<Seq<char>>,
) -> Outcome {
    if all_remarks(cluster, node, assignments, readable).len() == 0 {
        Outcome::Mappings(expected_mappings(cluster, node, assignments, readable))
    } else {
        Outcome::Remarks(all_remarks(cluster, node, assignments, readable))
    }
}

/// Processing of a field: another field is refused, an undecodable value
/// gives the one remark with the decoder's message, a decoded list is
/// validated.
pub open spec fn field_outcome(
    cluster: Seq<char>,
    node: NodeIdView,
    field_name: Seq<char>,
    decoded: Result<Seq<AssignmentView>, Seq<char>>,
    readable: Seq<Seq<char>>,
) -> Outcome {
    if field_name != field_name_handled() {
        Outcome::WrongField
    } else {
        match decoded {
            Ok(assignments) => validation_outcome(cluster, node, assignments, readable),
            Err(message) => Outcome::Remarks(seq![malformed_remark(node, message)]),
        }
    }
}

/// The files of one assignment whose readability matters: the content
/// file, then each attachment.
pub open spec fn assignment_files(cluster: Seq<char>, node: NodeIdView, assignment: AssignmentView) -> Seq<
    Seq<char>,
> {
    seq![content_path(cluster, node, assignment.id)] + assignment.attachments.map_values(
        |attachment: Seq<char>| attachment_path(cluster, node, assignment.id, attachment),
    )
}

/// The files whose readability validation asks for, in the order asked.
pub open spec fn files_needed(
    cluster: Seq<char>,
    node: NodeIdView,
    assignments: Seq<AssignmentView>,
) -> Seq<Seq<char>>
    decreases assignments.len(),
{
    if assignments.len() == 0 {
        Seq::empty()
    } else {
        files_needed(cluster, node, assignments.drop_last()) + assignment_files(
            cluster,
            node,
            assignments.last(),
        )
    }
}

/// The files to look at before a field can be processed: none unless the
/// field is the one handled and its value was decoded.
pub open spec fn files_to_probe(
    cluster: Seq<char>,
    node: NodeIdView,
    field_name: Seq<char>,
    decoded: Result<Seq<AssignmentView>, Seq<char>>,
) -> Seq<Seq<char>> {
    if field_name != field_name_handled() {
        Seq::empty()
    } else {
        match decoded {
            Ok(assignments) => files_needed(cluster, node, assignments),
            Err(_) => Seq::empty(),
        }
    }
}

} // verus!
