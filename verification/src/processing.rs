//! The field processor: duplicate ids, readable files, mappings, remarks.

use vstd::prelude::*;
use vstd::string::*;
use crate::artifacts::ArtifactSet;
use crate::model::assignment_views;
use crate::model::texts;
use crate::model::ArtifactMapping;
use crate::model::Assignment;
use crate::model::AssignmentView;
use crate::model::MappingView;
use crate::model::NodeId;
use crate::model::NodeIdView;
use crate::model::NodeProcessingError;
use crate::outcome::assignment_files;
use crate::outcome::assignment_mappings;
use crate::outcome::assignment_remarks;
use crate::outcome::attachment_mapping;
use crate::outcome::attachment_mappings;
use crate::outcome::attachment_remarks;
use crate::outcome::content_mapping;
use crate::outcome::content_mappings;
use crate::outcome::content_remarks;
use crate::outcome::duplicate_remarks;
use crate::outcome::expected_mappings;
use crate::outcome::field_name_handled;
use crate::outcome::field_outcome;
use crate::outcome::file_remarks;
use crate::outcome::files_needed;
use crate::outcome::files_to_probe;
use crate::outcome::has_duplicate_ids;
use crate::outcome::validation_outcome;
use crate::outcome::Outcome;
use crate::paths::attachment_path;
use crate::paths::attachment_path_of;
use crate::paths::attachment_target_dir_of;
use crate::paths::content_path_of;
use crate::paths::content_target_dir_of;
use crate::remarks::duplicate_ids_remark_of;
use crate::remarks::malformed_remark;
use crate::remarks::malformed_remark_of;
use crate::remarks::missing_content_remark_of;
use crate::remarks::unreadable_attachment_remark;
use crate::remarks::unreadable_attachment_remark_of;

verus! {

/// The outcome that a returned value stands for.
pub open spec fn result_view(result: Result<ArtifactSet, NodeProcessingError>) -> Outcome {
    match result {
        Ok(set) => Outcome::Mappings(set@),
        Err(NodeProcessingError::CannotProcessFieldType) => Outcome::WrongField,
        Err(NodeProcessingError::Remarks(list)) => Outcome::Remarks(texts(list@)),
    }
}

/// A decoded value, or the decoder's message, by their views.
pub open spec fn decoded_view(decoded: Result<Vec<Assignment>, String>) -> Result<
    Seq<AssignmentView>,
    Seq<char>,
> {
    match decoded {
        Ok(list) => Ok(assignment_views(list@)),
        Err(message) => Err(message@),
    }
}

/// Name of the one field that is processed here.
pub fn handled_field() -> (name: &'static str)
    ensures
        name@ == field_name_handled(),
{
    "assignments"
}

/// Whether two texts are the same, character for character.
pub fn same_text(a: &str, b: &str) -> (r: bool)
    ensures
        r == (a@ == b@),
{
    let left = String::from_str(a);
    let right = String::from_str(b);
    left == right
}

/// Whether `text` occurs in `list`.
pub fn contains_text(list: &Vec<String>, text: &str) -> (r: bool)
    ensures
        r == texts(list@).contains(text@),
{
    let mut i: usize = 0;
    while i < list.len()
        invariant
            i <= list.len(),
            forall|k: int| 0 <= k < i ==> texts(list@)[k] != text@,
        decreases list.len() - i,
    {
        if same_text(list[i].as_str(), text) {
            assert(texts(list@)[i as int] == text@);
            return true;
        }
        i += 1;
    }
    false
}

/// Whether two of the assignments share an id.
pub fn shares_an_id(assignments: &Vec<Assignment>) -> (r: bool)
    ensures
        r == has_duplicate_ids(assignment_views(assignments@)),
{
    let ghost views = assignment_views(assignments@);
    let mut j: usize = 0;
    while j < assignments.len()
        invariant
            j <= assignments.len(),
            views == assignment_views(assignments@),
            forall|a: int, b: int| 0 <= a < b < j ==> views[a].id != views[b].id,
        decreases assignments.len() - j,
    {
        let mut i: usize = 0;
        while i < j
            invariant
                i <= j < assignments.len(),
                views == assignment_views(assignments@),
                forall|a: int| 0 <= a < i ==> views[a].id != views[j as int].id,
            decreases j - i,
        {
            if assignments[i].id == assignments[j].id {
                assert(views[i as int].id == views[j as int].id);
                return true;
            }
            i += 1;
        }
        j += 1;
    }
    false
}

proof fn lemma_attachment_step(
    cluster: Seq<char>,
    node: NodeIdView,
    id: Seq<char>,
    attachments: Seq<Seq<char>>,
    k: int,
    readable: Seq<Seq<char>>,
)
    requires
        0 <= k < attachments.len(),
    ensures
        attachment_mappings(cluster, node, id, attachments.take(k + 1), readable)
            == attachment_mappings(cluster, node, id, attachments.take(k), readable).union(
            if readable.contains(attachment_path(cluster, node, id, attachments[k])) {
                set![attachment_mapping(cluster, node, id, attachments[k])]
            } else {
                Set::empty()
            },
        ),
        attachment_remarks(cluster, node, id, attachments.take(k + 1), readable)
            == attachment_remarks(cluster, node, id, attachments.take(k), readable) + (
        if readable.contains(attachment_path(cluster, node, id, attachments[k])) {
            Seq::empty()
        } else {
            seq![
                unreadable_attachment_remark(attachment_path(cluster, node, id, attachments[k])),
            ]
        }),
{
    let longer = attachments.take(k + 1);
    let shorter = attachments.take(k);
    assert(longer.drop_last() =~= shorter);
    assert(longer.last() == attachments[k]);
    let step: Set<MappingView> = if readable.contains(
        attachment_path(cluster, node, id, attachments[k]),
    ) {
        set![attachment_mapping(cluster, node, id, attachments[k])]
    } else {
        Set::empty()
    };
    let left = attachment_mappings(cluster, node, id, longer, readable);
    let right = attachment_mappings(cluster, node, id, shorter, readable).union(step);
    assert forall|m: MappingView| left.contains(m) <==> right.contains(m) by {
        if left.contains(m) {
            let w = choose|w: int|
                0 <= w < longer.len() && readable.contains(
                    attachment_path(cluster, node, id, #[trigger] longer[w]),
                ) && m == attachment_mapping(cluster, node, id, longer[w]);
            if w < k {
                assert(shorter[w] == longer[w]);
            }
        }
        if right.contains(m) {
            if step.contains(m) {
                assert(longer[k] == attachments[k]);
            } else {
                let w = choose|w: int|
                    0 <= w < shorter.len() && readable.contains(
                        attachment_path(cluster, node, id, #[trigger] shorter[w]),
                    ) && m == attachment_mapping(cluster, node, id, shorter[w]);
                assert(longer[w] == shorter[w]);
            }
        }
    }
    assert(left =~= right);
}

proof fn lemma_assignment_step(
    cluster: Seq<char>,
    node: NodeIdView,
    assignments: Seq<AssignmentView>,
    i: int,
    readable: Seq<Seq<char>>,
)
    requires
        0 <= i < assignments.len(),
    ensures
        expected_mappings(cluster, node, assignments.take(i + 1), readable) == expected_mappings(
            cluster,
            node,
            assignments.take(i),
            readable,
        ).union(assignment_mappings(cluster, node, assignments[i], readable)),
        file_remarks(cluster, node, assignments.take(i + 1), readable) == file_remarks(
            cluster,
            node,
            assignments.take(i),
            readable,
        ) + assignment_remarks(cluster, node, assignments[i], readable),
{
    let longer = assignments.take(i + 1);
    let shorter = assignments.take(i);
    assert(longer.drop_last() =~= shorter);
    assert(longer.last() == assignments[i]);
    let left = expected_mappings(cluster, node, longer, readable);
    let right = expected_mappings(cluster, node, shorter, readable).union(
        assignment_mappings(cluster, node, assignments[i], readable),
    );
    assert forall|m: MappingView| left.contains(m) <==> right.contains(m) by {
        if left.contains(m) {
            let w = choose|w: int|
                0 <= w < longer.len() && assignment_mappings(
                    cluster,
                    node,
                    #[trigger] longer[w],
                    readable,
                ).contains(m);
            if w < i {
                assert(shorter[w] == longer[w]);
            }
        }
        if right.contains(m) {
            if assignment_mappings(cluster, node, assignments[i], readable).contains(m) {
                assert(longer[i] == assignments[i]);
            } else {
                let w = choose|w: int|
                    0 <= w < shorter.len() && assignment_mappings(
                        cluster,
                        node,
                        #[trigger] shorter[w],
                        readable,
                    ).contains(m);
                assert(longer[w] == shorter[w]);
            }
        }
    }
    assert(left =~= right);
}

/// Looks at the content file of one assignment: a mapping if it is
/// readable, a remark if not.
pub fn check_content(
    node: &NodeId,
    cluster_path: &str,
    id: &str,
    readable_files: &Vec<String>,
    remarks: &mut Vec<String>,
    artifacts: &mut ArtifactSet,
)
    requires
        old(artifacts).wf(),
    ensures
        final(artifacts).wf(),
        final(artifacts)@ == old(artifacts)@.union(
            content_mappings(cluster_path@, node@, id@, texts(readable_files@)),
        ),
        texts(final(remarks)@) == texts(old(remarks)@) + content_remarks(
            cluster_path@,
            node@,
            id@,
            texts(readable_files@),
        ),
{
    let ghost before = texts(remarks@);
    let ghost held = artifacts@;
    let path = content_path_of(cluster_path, node, id);
    if contains_text(readable_files, path.as_str()) {
        let target = content_target_dir_of(node, id);
        artifacts.insert(ArtifactMapping { local_file: path, root_relative_target_dir: target });
        assert(artifacts@ =~= held.union(set![content_mapping(cluster_path@, node@, id@)]));
        assert(texts(remarks@) =~= before + Seq::<Seq<char>>::empty());
    } else {
        let remark = missing_content_remark_of(node, id);
        remarks.push(remark);
        assert(texts(remarks@) =~= before + seq![remark@]);
        assert(artifacts@ =~= held.union(Set::<MappingView>::empty()));
    }
}

/// Looks at each attachment of one assignment, in order: a mapping for a
/// readable one, a remark with the resolved path for another.
pub fn check_attachments(
    node: &NodeId,
    cluster_path: &str,
    id: &str,
    attachments: &Vec<String>,
    readable_files: &Vec<String>,
    remarks: &mut Vec<String>,
    artifacts: &mut ArtifactSet,
)
    requires
        old(artifacts).wf(),
    ensures
        final(artifacts).wf(),
        final(artifacts)@ == old(artifacts)@.union(
            attachment_mappings(
                cluster_path@,
                node@,
                id@,
                texts(attachments@),
                texts(readable_files@),
            ),
        ),
        texts(final(remarks)@) == texts(old(remarks)@) + attachment_remarks(
            cluster_path@,
            node@,
            id@,
            texts(attachments@),
            texts(readable_files@),
        ),
{
    let ghost before = texts(remarks@);
    let ghost held = artifacts@;
    let ghost declared = texts(attachments@);
    let ghost readable = texts(readable_files@);
    proof {
        assert(declared.take(0) =~= Seq::<Seq<char>>::empty());
        assert(attachment_mappings(cluster_path@, node@, id@, declared.take(0), readable)
            =~= Set::<MappingView>::empty());
        assert(held.union(Set::<MappingView>::empty()) =~= held);
        assert(before + Seq::<Seq<char>>::empty() =~= before);
    }
    let mut k: usize = 0;
    while k < attachments.len()
        invariant
            k <= attachments.len(),
            declared == texts(attachments@),
            readable == texts(readable_files@),
            artifacts.wf(),
            artifacts@ == held.union(
                attachment_mappings(cluster_path@, node@, id@, declared.take(k as int), readable),
            ),
            texts(remarks@) == before + attachment_remarks(
                cluster_path@,
                node@,
                id@,
                declared.take(k as int),
                readable,
            ),
        decreases attachments.len() - k,
    {
        let ghost so_far = texts(remarks@);
        let ghost mapped = artifacts@;
        let path = attachment_path_of(cluster_path, node, id, attachments[k].as_str());
        proof {
            lemma_attachment_step(cluster_path@, node@, id@, declared, k as int, readable);
        }
        if contains_text(readable_files, path.as_str()) {
            let target = attachment_target_dir_of(node, id);
            artifacts.insert(ArtifactMapping { local_file: path, root_relative_target_dir: target });
            assert(artifacts@ =~= held.union(
                attachment_mappings(
                    cluster_path@,
                    node@,
                    id@,
                    declared.take(k as int + 1),
                    readable,
                ),
            ));
            assert(so_far + Seq::<Seq<char>>::empty() =~= so_far);
            assert(texts(remarks@) =~= before + attachment_remarks(
                cluster_path@,
                node@,
                id@,
                declared.take(k as int + 1),
                readable,
            ));
        } else {
            let remark = unreadable_attachment_remark_of(path.as_str());
            remarks.push(remark);
            assert(texts(remarks@) =~= so_far + seq![remark@]);
            assert(texts(remarks@) =~= before + attachment_remarks(
                cluster_path@,
                node@,
                id@,
                declared.take(k as int + 1),
                readable,
            ));
            assert(artifacts@ =~= held.union(
                attachment_mappings(
                    cluster_path@,
                    node@,
                    id@,
                    declared.take(k as int + 1),
                    readable,
                ),
            ));
        }
        k += 1;
    }
    proof {
        assert(declared.take(k as int) =~= declared);
    }
}

/// Looks at the files of one assignment: the content file, then the
/// attachments, whatever the content file was found to be.
pub fn check_assignment(
    node: &NodeId,
    cluster_path: &str,
    assignment: &Assignment,
    readable_files: &Vec<String>,
    remarks: &mut Vec<String>,
    artifacts: &mut ArtifactSet,
)
    requires
        old(artifacts).wf(),
    ensures
        final(artifacts).wf(),
        final(artifacts)@ == old(artifacts)@.union(
            assignment_mappings(cluster_path@, node@, assignment@, texts(readable_files@)),
        ),
        texts(final(remarks)@) == texts(old(remarks)@) + assignment_remarks(
            cluster_path@,
            node@,
            assignment@,
            texts(readable_files@),
        ),
{
    let ghost before = texts(remarks@);
    let ghost held = artifacts@;
    let ghost readable = texts(readable_files@);
    let id = assignment.id.as_str();
    check_content(node, cluster_path, id, readable_files, remarks, artifacts);
    let ghost after_content = texts(remarks@);
    match &assignment.attachments {
        Some(list) => {
            check_attachments(node, cluster_path, id, list, readable_files, remarks, artifacts);
        },
        None => {
            assert(attachment_mappings(
                cluster_path@,
                node@,
                id@,
                Seq::<Seq<char>>::empty(),
                readable,
            ) =~= Set::<MappingView>::empty());
            assert(after_content + Seq::<Seq<char>>::empty() =~= after_content);
        },
    }
    assert(artifacts@ =~= held.union(
        assignment_mappings(cluster_path@, node@, assignment@, readable),
    ));
    assert(texts(remarks@) =~= before + assignment_remarks(
        cluster_path@,
        node@,
        assignment@,
        readable,
    ));
}

/// Validates a decoded list of assignments against the files found
/// readable: every assignment is looked at, and the mappings are returned
/// only if nothing was remarked.
pub fn validate_assignments(
    node: &NodeId,
    cluster_path: &str,
    assignments: &Vec<Assignment>,
    readable_files: &Vec<String>,
) -> (result: Result<ArtifactSet, NodeProcessingError>)
    ensures
        result_view(result) == validation_outcome(
            cluster_path@,
            node@,
            assignment_views(assignments@),
            texts(readable_files@),
        ),
        result matches Ok(set) ==> set.wf(),
{
    let ghost declared = assignment_views(assignments@);
    let ghost readable = texts(readable_files@);
    let mut remarks: Vec<String> = Vec::new();
    let mut artifacts = ArtifactSet::new();
    if shares_an_id(assignments) {
        remarks.push(duplicate_ids_remark_of(node));
    }
    let ghost head = texts(remarks@);
    proof {
        assert(head =~= duplicate_remarks(node@, declared));
        assert(declared.take(0) =~= Seq::<AssignmentView>::empty());
        assert(expected_mappings(cluster_path@, node@, declared.take(0), readable)
            =~= Set::<MappingView>::empty());
        assert(head + Seq::<Seq<char>>::empty() =~= head);
    }
    let mut i: usize = 0;
    while i < assignments.len()
        invariant
            i <= assignments.len(),
            declared == assignment_views(assignments@),
            readable == texts(readable_files@),
            head == duplicate_remarks(node@, declared),
            artifacts.wf(),
            artifacts@ == expected_mappings(cluster_path@, node@, declared.take(i as int), readable),
            texts(remarks@) == head + file_remarks(
                cluster_path@,
                node@,
                declared.take(i as int),
                readable,
            ),
        decreases assignments.len() - i,
    {
        proof {
            lemma_assignment_step(cluster_path@, node@, declared, i as int, readable);
        }
        check_assignment(node, cluster_path, &assignments[i], readable_files, &mut remarks, &mut artifacts);
        assert(texts(remarks@) =~= head + file_remarks(
            cluster_path@,
            node@,
            declared.take(i as int + 1),
            readable,
        ));
        i += 1;
    }
    proof {
        assert(declared.take(i as int) =~= declared);
    }
    if remarks.len() == 0 {
        Ok(artifacts)
    } else {
        Err(NodeProcessingError::Remarks(remarks))
    }
}

/// Processes one field of a node. `decoded` is the field's value as a list
/// of assignments, or the decoder's message where it is none;
/// `readable_files` are the files found readable.
pub fn process_extension_field(
    node: &NodeId,
    cluster_path: &str,
    field_name: &str,
    decoded: &Result<Vec<Assignment>, String>,
    readable_files: &Vec<String>,
) -> (result: Result<ArtifactSet, NodeProcessingError>)
    ensures
        result_view(result) == field_outcome(
            cluster_path@,
            node@,
            field_name@,
            decoded_view(*decoded),
            texts(readable_files@),
        ),
        field_name@ != "assignments"@ ==> result matches Err(
            NodeProcessingError::CannotProcessFieldType,
        ),
        result matches Ok(set) ==> set.wf(),
{
    if !same_text(field_name, handled_field()) {
        return Err(NodeProcessingError::CannotProcessFieldType);
    }
    match decoded {
        Ok(assignments) => validate_assignments(node, cluster_path, assignments, readable_files),
        Err(message) => {
            let mut remarks: Vec<String> = Vec::new();
            remarks.push(malformed_remark_of(node, message.as_str()));
            assert(texts(remarks@) =~= seq![malformed_remark(node@, message@)]);
            Err(NodeProcessingError::Remarks(remarks))
        },
    }
}

/// The files of one assignment to look at, appended to `files`.
pub fn list_assignment_files(
    node: &NodeId,
    cluster_path: &str,
    assignment: &Assignment,
    files: &mut Vec<String>,
)
    ensures
        texts(final(files)@) == texts(old(files)@) + assignment_files(
            cluster_path@,
            node@,
            assignment@,
        ),
{
    let ghost before = texts(files@);
    let ghost wanted = assignment_files(cluster_path@, node@, assignment@);
    let id = assignment.id.as_str();
    files.push(content_path_of(cluster_path, node, id));
    match &assignment.attachments {
        Some(list) => {
            let mut k: usize = 0;
            assert(texts(files@) =~= before + wanted.take(1));
            while k < list.len()
                invariant
                    k <= list.len(),
                    wanted == assignment_files(cluster_path@, node@, assignment@),
                    assignment.attachments == Some(*list),
                    id@ == assignment@.id,
                    wanted.len() == list.len() + 1,
                    texts(files@) == before + wanted.take(k as int + 1),
                decreases list.len() - k,
            {
                let ghost so_far = texts(files@);
                let path = attachment_path_of(cluster_path, node, id, list[k].as_str());
                files.push(path);
                assert(texts(files@) =~= so_far.push(path@));
                assert(wanted[k as int + 1] == path@);
                assert(texts(files@) =~= before + wanted.take(k as int + 2));
                k += 1;
            }
            assert(wanted.take(k as int + 1) =~= wanted);
        },
        None => {
            assert(texts(files@) =~= before + wanted);
        },
    }
}

/// The files whose readability decides the outcome, in the order in which
/// they are to be looked at; none where the field is another's or its
/// value was not decoded.
pub fn files_to_check(
    node: &NodeId,
    cluster_path: &str,
    field_name: &str,
    decoded: &Result<Vec<Assignment>, String>,
) -> (files: Vec<String>)
    ensures
        texts(files@) == files_to_probe(
            cluster_path@,
            node@,
            field_name@,
            decoded_view(*decoded),
        ),
{
    let mut files: Vec<String> = Vec::new();
    assert(texts(files@) =~= Seq::<Seq<char>>::empty());
    if !same_text(field_name, handled_field()) {
        return files;
    }
    match decoded {
        Ok(assignments) => {
            let ghost declared = assignment_views(assignments@);
            assert(declared.take(0) =~= Seq::<AssignmentView>::empty());
            let mut i: usize = 0;
            while i < assignments.len()
                invariant
                    i <= assignments.len(),
                    declared == assignment_views(assignments@),
                    texts(files@) == files_needed(cluster_path@, node@, declared.take(i as int)),
                decreases assignments.len() - i,
            {
                proof {
                    assert(declared.take(i as int + 1).drop_last() =~= declared.take(i as int));
                    assert(declared.take(i as int + 1).last() == declared[i as int]);
                }
                list_assignment_files(node, cluster_path, &assignments[i], &mut files);
                i += 1;
            }
            assert(declared.take(i as int) =~= declared);
            files
        },
        Err(_) => files,
    }
}

} // verus!
