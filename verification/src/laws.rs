//! What holds of every outcome, proved from the definitions.

use vstd::prelude::*;
use crate::model::AssignmentView;
use crate::model::MappingView;
use crate::model::NodeIdView;
use crate::outcome::all_remarks;
use crate::outcome::assignment_files;
use crate::outcome::assignment_mappings;
use crate::outcome::assignment_remarks;
use crate::outcome::attachment_mapping;
use crate::outcome::attachment_mappings;
use crate::outcome::attachment_remarks;
use crate::outcome::content_mapping;
use crate::outcome::content_remarks;
use crate::outcome::duplicate_remarks;
use crate::outcome::expected_mappings;
use crate::outcome::field_name_handled;
use crate::outcome::field_outcome;
use crate::outcome::file_remarks;
use crate::outcome::files_needed;
use crate::outcome::has_duplicate_ids;
use crate::outcome::validation_outcome;
use crate::outcome::Outcome;
use crate::paths::attachment_path;
use crate::paths::content_path;
use crate::paths::content_target_dir;
use crate::remarks::duplicate_ids_remark;
use crate::remarks::malformed_remark;
use crate::remarks::missing_content_remark;
use crate::remarks::unreadable_attachment_remark;

verus! {

/// The content file and every attachment of the assignment are readable.
pub open spec fn files_readable(
    cluster: Seq<char>,
    node: NodeIdView,
    assignment: AssignmentView,
    readable: Seq<Seq<char>>,
) -> bool {
    &&& readable.contains(content_path(cluster, node, assignment.id))
    &&& forall|k: int|
        0 <= k < assignment.attachments.len() ==> readable.contains(
            attachment_path(cluster, node, assignment.id, #[trigger] assignment.attachments[k]),
        )
}

/// Every file of every assignment is readable.
pub open spec fn all_files_readable(
    cluster: Seq<char>,
    node: NodeIdView,
    assignments: Seq<AssignmentView>,
    readable: Seq<Seq<char>>,
) -> bool {
    forall|i: int|
        0 <= i < assignments.len() ==> files_readable(
            cluster,
            node,
            #[trigger] assignments[i],
            readable,
        )
}

/// `remark` is the remark about an unreadable attachment among `attachments`.
pub open spec fn remarks_an_attachment(
    cluster: Seq<char>,
    node: NodeIdView,
    id: Seq<char>,
    attachments: Seq<Seq<char>>,
    readable: Seq<Seq<char>>,
    remark: Seq<char>,
) -> bool {
    exists|k: int|
        0 <= k < attachments.len() && !readable.contains(
            attachment_path(cluster, node, id, #[trigger] attachments[k]),
        ) && remark == unreadable_attachment_remark(
            attachment_path(cluster, node, id, attachments[k]),
        )
}

/// `remark` is about an unreadable file of the assignment.
pub open spec fn remarks_a_file(
    cluster: Seq<char>,
    node: NodeIdView,
    assignment: AssignmentView,
    readable: Seq<Seq<char>>,
    remark: Seq<char>,
) -> bool {
    ||| !readable.contains(content_path(cluster, node, assignment.id)) && remark
        == missing_content_remark(node, assignment.id)
    ||| remarks_an_attachment(
        cluster,
        node,
        assignment.id,
        assignment.attachments,
        readable,
        remark,
    )
}

/// A concatenation holds what its parts hold.
pub proof fn lemma_concat_contains(a: Seq<Seq<char>>, b: Seq<Seq<char>>, x: Seq<char>)
    ensures
        (a + b).contains(x) <==> (a.contains(x) || b.contains(x)),
{
    if (a + b).contains(x) {
        let i = choose|i: int| 0 <= i < (a + b).len() && (a + b)[i] == x;
        if i < a.len() {
            assert(a[i] == x);
        } else {
            assert(b[i - a.len()] == x);
        }
    }
    if a.contains(x) {
        let i = choose|i: int| 0 <= i < a.len() && a[i] == x;
        assert((a + b)[i] == x);
    }
    if b.contains(x) {
        let i = choose|i: int| 0 <= i < b.len() && b[i] == x;
        assert((a + b)[a.len() + i] == x);
    }
}

/// The attachment remarks are exactly the remarks about the unreadable
/// attachments.
pub proof fn lemma_attachment_remarks_members(
    cluster: Seq<char>,
    node: NodeIdView,
    id: Seq<char>,
    attachments: Seq<Seq<char>>,
    readable: Seq<Seq<char>>,
    remark: Seq<char>,
)
    ensures
        attachment_remarks(cluster, node, id, attachments, readable).contains(remark)
            <==> remarks_an_attachment(cluster, node, id, attachments, readable, remark),
    decreases attachments.len(),
{
    if attachments.len() > 0 {
        let shorter = attachments.drop_last();
        let path = attachment_path(cluster, node, id, attachments.last());
        let tail: Seq<Seq<char>> = if readable.contains(path) {
            Seq::empty()
        } else {
            seq![unreadable_attachment_remark(path)]
        };
        lemma_attachment_remarks_members(cluster, node, id, shorter, readable, remark);
        lemma_concat_contains(
            attachment_remarks(cluster, node, id, shorter, readable),
            tail,
            remark,
        );
        if remarks_an_attachment(cluster, node, id, attachments, readable, remark) {
            let k = choose|k: int|
                0 <= k < attachments.len() && !readable.contains(
                    attachment_path(cluster, node, id, #[trigger] attachments[k]),
                ) && remark == unreadable_attachment_remark(
                    attachment_path(cluster, node, id, attachments[k]),
                );
            if k < shorter.len() {
                assert(shorter[k] == attachments[k]);
            } else {
                assert(tail[0] == remark);
            }
        }
        if remarks_an_attachment(cluster, node, id, shorter, readable, remark) {
            let k = choose|k: int|
                0 <= k < shorter.len() && !readable.contains(
                    attachment_path(cluster, node, id, #[trigger] shorter[k]),
                ) && remark == unreadable_attachment_remark(
                    attachment_path(cluster, node, id, shorter[k]),
                );
            assert(attachments[k] == shorter[k]);
        }
        if tail.contains(remark) {
            assert(attachments[attachments.len() - 1] == attachments.last());
        }
    }
}

/// The remarks about one assignment are exactly those about its
/// unreadable files.
pub proof fn lemma_assignment_remarks_members(
    cluster: Seq<char>,
    node: NodeIdView,
    assignment: AssignmentView,
    readable: Seq<Seq<char>>,
    remark: Seq<char>,
)
    ensures
        assignment_remarks(cluster, node, assignment, readable).contains(remark)
            <==> remarks_a_file(cluster, node, assignment, readable, remark),
{
    let first = content_remarks(cluster, node, assignment.id, readable);
    let rest = attachment_remarks(
        cluster,
        node,
        assignment.id,
        assignment.attachments,
        readable,
    );
    lemma_concat_contains(first, rest, remark);
    lemma_attachment_remarks_members(
        cluster,
        node,
        assignment.id,
        assignment.attachments,
        readable,
        remark,
    );
    if !readable.contains(content_path(cluster, node, assignment.id)) {
        assert(first[0] == missing_content_remark(node, assignment.id));
    }
}

/// A remark about files is made exactly when some assignment has an
/// unreadable file that it is about.
pub proof fn law_file_remarks_members(
    cluster: Seq<char>,
    node: NodeIdView,
    assignments: Seq<AssignmentView>,
    readable: Seq<Seq<char>>,
    remark: Seq<char>,
)
    ensures
        file_remarks(cluster, node, assignments, readable).contains(remark) <==> exists|i: int|
            0 <= i < assignments.len() && remarks_a_file(
                cluster,
                node,
                #[trigger] assignments[i],
                readable,
                remark,
            ),
    decreases assignments.len(),
{
    if assignments.len() > 0 {
        let shorter = assignments.drop_last();
        let last = assignments.last();
        law_file_remarks_members(cluster, node, shorter, readable, remark);
        lemma_assignment_remarks_members(cluster, node, last, readable, remark);
        lemma_concat_contains(
            file_remarks(cluster, node, shorter, readable),
            assignment_remarks(cluster, node, last, readable),
            remark,
        );
        if exists|i: int|
            0 <= i < assignments.len() && remarks_a_file(
                cluster,
                node,
                #[trigger] assignments[i],
                readable,
                remark,
            ) {
            let i = choose|i: int|
                0 <= i < assignments.len() && remarks_a_file(
                    cluster,
                    node,
                    #[trigger] assignments[i],
                    readable,
                    remark,
                );
            if i < shorter.len() {
                assert(shorter[i] == assignments[i]);
            }
        }
        if exists|i: int|
            0 <= i < shorter.len() && remarks_a_file(
                cluster,
                node,
                #[trigger] shorter[i],
                readable,
                remark,
            ) {
            let i = choose|i: int|
                0 <= i < shorter.len() && remarks_a_file(
                    cluster,
                    node,
                    #[trigger] shorter[i],
                    readable,
                    remark,
                );
            assert(assignments[i] == shorter[i]);
        }
        if remarks_a_file(cluster, node, last, readable, remark) {
            assert(assignments[assignments.len() - 1] == last);
        }
    }
}

/// Only a readable file is ever mapped.
pub proof fn law_mapped_files_are_readable(
    cluster: Seq<char>,
    node: NodeIdView,
    assignments: Seq<AssignmentView>,
    readable: Seq<Seq<char>>,
    mapping: MappingView,
)
    requires
        expected_mappings(cluster, node, assignments, readable).contains(mapping),
    ensures
        readable.contains(mapping.local_file),
{
}

/// With no id shared and every file readable, validation succeeds without
/// a remark; the mappings are the content mapping of each assignment and
/// the mapping of each of its attachments, and nothing else.
pub proof fn law_all_readable_succeeds(
    cluster: Seq<char>,
    node: NodeIdView,
    assignments: Seq<AssignmentView>,
    readable: Seq<Seq<char>>,
)
    requires
        !has_duplicate_ids(assignments),
        all_files_readable(cluster, node, assignments, readable),
    ensures
        all_remarks(cluster, node, assignments, readable) == Seq::<Seq<char>>::empty(),
        validation_outcome(cluster, node, assignments, readable) == Outcome::Mappings(
            expected_mappings(cluster, node, assignments, readable),
        ),
        forall|i: int|
            0 <= i < assignments.len() ==> expected_mappings(
                cluster,
                node,
                assignments,
                readable,
            ).contains(content_mapping(cluster, node, (#[trigger] assignments[i]).id)),
        forall|i: int, k: int|
            0 <= i < assignments.len() && 0 <= k < assignments[i].attachments.len()
                ==> expected_mappings(cluster, node, assignments, readable).contains(
                #[trigger] attachment_mapping(
                    cluster,
                    node,
                    assignments[i].id,
                    assignments[i].attachments[k],
                ),
            ),
        forall|m: MappingView|
            expected_mappings(cluster, node, assignments, readable).contains(m) ==> exists|i: int|
                0 <= i < assignments.len() && declares(
                    cluster,
                    node,
                    #[trigger] assignments[i],
                    m,
                ),
{
    let remarks = all_remarks(cluster, node, assignments, readable);
    let about_files = file_remarks(cluster, node, assignments, readable);
    if about_files.len() > 0 {
        let r = about_files[0];
        assert(about_files.contains(r));
        law_file_remarks_members(cluster, node, assignments, readable, r);
        let i = choose|i: int|
            0 <= i < assignments.len() && remarks_a_file(
                cluster,
                node,
                #[trigger] assignments[i],
                readable,
                r,
            );
        assert(files_readable(cluster, node, assignments[i], readable));
    }
    assert(remarks =~= Seq::<Seq<char>>::empty());
    let mapped = expected_mappings(cluster, node, assignments, readable);
    assert forall|i: int| 0 <= i < assignments.len() implies mapped.contains(
        content_mapping(cluster, node, (#[trigger] assignments[i]).id),
    ) by {
        assert(files_readable(cluster, node, assignments[i], readable));
        assert(assignment_mappings(cluster, node, assignments[i], readable).contains(
            content_mapping(cluster, node, assignments[i].id),
        ));
    }
    assert forall|i: int, k: int|
        0 <= i < assignments.len() && 0 <= k < assignments[i].attachments.len() implies mapped.contains(
        #[trigger] attachment_mapping(
            cluster,
            node,
            assignments[i].id,
            assignments[i].attachments[k],
        ),
    ) by {
        assert(files_readable(cluster, node, assignments[i], readable));
        let a = assignments[i];
        assert(readable.contains(attachment_path(cluster, node, a.id, a.attachments[k])));
        assert(attachment_mappings(cluster, node, a.id, a.attachments, readable).contains(
            attachment_mapping(cluster, node, a.id, a.attachments[k]),
        ));
        assert(assignment_mappings(cluster, node, assignments[i], readable).contains(
            attachment_mapping(cluster, node, a.id, a.attachments[k]),
        ));
    }
    assert forall|m: MappingView| mapped.contains(m) implies exists|i: int|
        0 <= i < assignments.len() && declares(cluster, node, #[trigger] assignments[i], m) by {
        let i = choose|i: int|
            0 <= i < assignments.len() && assignment_mappings(
                cluster,
                node,
                #[trigger] assignments[i],
                readable,
            ).contains(m);
        assert(declares(cluster, node, assignments[i], m));
    }
}

/// `mapping` is the content mapping of the assignment or the mapping of
/// one of its attachments.
pub open spec fn declares(
    cluster: Seq<char>,
    node: NodeIdView,
    assignment: AssignmentView,
    mapping: MappingView,
) -> bool {
    ||| mapping == content_mapping(cluster, node, assignment.id)
    ||| exists|k: int|
        0 <= k < assignment.attachments.len() && mapping == attachment_mapping(
            cluster,
            node,
            assignment.id,
            #[trigger] assignment.attachments[k],
        )
}

/// Assignments with different ids have different content mappings.
pub proof fn law_content_mappings_differ(
    cluster: Seq<char>,
    node: NodeIdView,
    first: Seq<char>,
    second: Seq<char>,
)
    requires
        first != second,
    ensures
        content_mapping(cluster, node, first) != content_mapping(cluster, node, second),
{
    let prefix = node.namespace + "/"@ + node.local_id + "/assignments/"@;
    let a = content_target_dir(node, first);
    let b = content_target_dir(node, second);
    if a == b {
        assert(a.subrange(prefix.len() as int, a.len() as int) =~= first);
        assert(b.subrange(prefix.len() as int, b.len() as int) =~= second);
    }
}

/// Where no id is shared, the content mappings of the assignments are
/// pairwise different: there are as many as there are assignments.
pub proof fn law_one_content_mapping_per_assignment(
    cluster: Seq<char>,
    node: NodeIdView,
    assignments: Seq<AssignmentView>,
)
    requires
        !has_duplicate_ids(assignments),
    ensures
        assignments.map_values(
            |a: AssignmentView| content_mapping(cluster, node, a.id),
        ).no_duplicates(),
        assignments.map_values(
            |a: AssignmentView| content_mapping(cluster, node, a.id),
        ).to_set().len() == assignments.len(),
{
    let listed = assignments.map_values(|a: AssignmentView| content_mapping(cluster, node, a.id));
    assert forall|i: int, j: int|
        0 <= i < listed.len() && 0 <= j < listed.len() && i != j implies listed[i]
        != listed[j] by {
        if i < j {
            assert(assignments[i].id != assignments[j].id);
        } else {
            assert(assignments[j].id != assignments[i].id);
        }
        law_content_mappings_differ(cluster, node, assignments[i].id, assignments[j].id);
    }
    listed.unique_seq_to_set();
}

/// Ids are shared exactly when there are fewer distinct ids than
/// assignments.
pub proof fn law_shared_ids_by_count(assignments: Seq<AssignmentView>)
    ensures
        has_duplicate_ids(assignments) <==> assignments.map_values(|a: AssignmentView| a.id).to_set().len()
            < assignments.len(),
{
    let ids = assignments.map_values(|a: AssignmentView| a.id);
    ids.lemma_cardinality_of_set();
    if has_duplicate_ids(assignments) {
        let (i, j) = choose|i: int, j: int|
            0 <= i < j < assignments.len() && (#[trigger] assignments[i]).id == (
            #[trigger] assignments[j]).id;
        assert(ids[i] == ids[j]);
        if ids.to_set().len() == ids.len() {
            ids.lemma_no_dup_set_cardinality();
        }
    } else {
        assert forall|i: int, j: int| 0 <= i < ids.len() && 0 <= j < ids.len() && i != j implies ids[i]
            != ids[j] by {
            if i < j {
                assert(assignments[i].id != assignments[j].id);
            } else {
                assert(assignments[j].id != assignments[i].id);
            }
        }
        ids.unique_seq_to_set();
    }
}

/// Where two assignments share an id, validation fails and its first
/// remark is the one about shared ids, whatever is readable.
pub proof fn law_shared_id_is_remarked(
    cluster: Seq<char>,
    node: NodeIdView,
    assignments: Seq<AssignmentView>,
    readable: Seq<Seq<char>>,
)
    requires
        has_duplicate_ids(assignments),
    ensures
        validation_outcome(cluster, node, assignments, readable) == Outcome::Remarks(
            all_remarks(cluster, node, assignments, readable),
        ),
        all_remarks(cluster, node, assignments, readable).len() > 0,
        all_remarks(cluster, node, assignments, readable)[0] == duplicate_ids_remark(node),
        all_remarks(cluster, node, assignments, readable).contains(duplicate_ids_remark(node)),
{
    let head = duplicate_remarks(node, assignments);
    assert(head[0] == duplicate_ids_remark(node));
    lemma_concat_contains(
        head,
        file_remarks(cluster, node, assignments, readable),
        duplicate_ids_remark(node),
    );
}

/// Where the content file of an assignment is unreadable, validation
/// fails with a remark that names the assignment and the node, and the
/// file is the source of no mapping.
pub proof fn law_unreadable_content_is_remarked(
    cluster: Seq<char>,
    node: NodeIdView,
    assignments: Seq<AssignmentView>,
    readable: Seq<Seq<char>>,
    i: int,
)
    requires
        0 <= i < assignments.len(),
        !readable.contains(content_path(cluster, node, assignments[i].id)),
    ensures
        validation_outcome(cluster, node, assignments, readable) == Outcome::Remarks(
            all_remarks(cluster, node, assignments, readable),
        ),
        all_remarks(cluster, node, assignments, readable).contains(
            missing_content_remark(node, assignments[i].id),
        ),
        !expected_mappings(cluster, node, assignments, readable).contains(
            content_mapping(cluster, node, assignments[i].id),
        ),
        forall|m: MappingView|
            expected_mappings(cluster, node, assignments, readable).contains(m) ==> m.local_file
                != content_path(cluster, node, assignments[i].id),
{
    let remark = missing_content_remark(node, assignments[i].id);
    assert(remarks_a_file(cluster, node, assignments[i], readable, remark));
    law_file_remarks_members(cluster, node, assignments, readable, remark);
    lemma_concat_contains(
        duplicate_remarks(node, assignments),
        file_remarks(cluster, node, assignments, readable),
        remark,
    );
}

/// Where an attachment is unreadable, validation fails with a remark that
/// ends in the attachment's resolved path, and the file is the source of
/// no mapping.
pub proof fn law_unreadable_attachment_is_remarked(
    cluster: Seq<char>,
    node: NodeIdView,
    assignments: Seq<AssignmentView>,
    readable: Seq<Seq<char>>,
    i: int,
    k: int,
)
    requires
        0 <= i < assignments.len(),
        0 <= k < assignments[i].attachments.len(),
        !readable.contains(
            attachment_path(cluster, node, assignments[i].id, assignments[i].attachments[k]),
        ),
    ensures
        validation_outcome(cluster, node, assignments, readable) == Outcome::Remarks(
            all_remarks(cluster, node, assignments, readable),
        ),
        all_remarks(cluster, node, assignments, readable).contains(
            "Attachment cannot be read at "@ + attachment_path(
                cluster,
                node,
                assignments[i].id,
                assignments[i].attachments[k],
            ),
        ),
        forall|m: MappingView|
            expected_mappings(cluster, node, assignments, readable).contains(m) ==> m.local_file
                != attachment_path(
                cluster,
                node,
                assignments[i].id,
                assignments[i].attachments[k],
            ),
{
    let a = assignments[i];
    let path = attachment_path(cluster, node, a.id, a.attachments[k]);
    let remark = unreadable_attachment_remark(path);
    assert(remarks_an_attachment(cluster, node, a.id, a.attachments, readable, remark));
    assert(remarks_a_file(cluster, node, assignments[i], readable, remark));
    law_file_remarks_members(cluster, node, assignments, readable, remark);
    lemma_concat_contains(
        duplicate_remarks(node, assignments),
        file_remarks(cluster, node, assignments, readable),
        remark,
    );
}

/// Two outcomes of processing the same field with the same files
/// readable are the same outcome.
pub proof fn law_processing_is_repeatable(
    cluster: Seq<char>,
    node: NodeIdView,
    field_name: Seq<char>,
    decoded: Result<Seq<AssignmentView>, Seq<char>>,
    readable: Seq<Seq<char>>,
    first: Outcome,
    second: Outcome,
)
    requires
        first == field_outcome(cluster, node, field_name, decoded, readable),
        second == field_outcome(cluster, node, field_name, decoded, readable),
    ensures
        first == second,
{
}

/// `readable` and `other` say the same of every file in `files`.
pub open spec fn agree_on(files: Seq<Seq<char>>, readable: Seq<Seq<char>>, other: Seq<Seq<char>>) -> bool {
    forall|p: Seq<char>| #[trigger] files.contains(p) ==> readable.contains(p) == other.contains(p)
}

proof fn lemma_same_attachment_outcome(
    cluster: Seq<char>,
    node: NodeIdView,
    id: Seq<char>,
    attachments: Seq<Seq<char>>,
    readable: Seq<Seq<char>>,
    other: Seq<Seq<char>>,
)
    requires
        forall|k: int|
            0 <= k < attachments.len() ==> readable.contains(
                attachment_path(cluster, node, id, #[trigger] attachments[k]),
            ) == other.contains(attachment_path(cluster, node, id, attachments[k])),
    ensures
        attachment_remarks(cluster, node, id, attachments, readable) == attachment_remarks(
            cluster,
            node,
            id,
            attachments,
            other,
        ),
        attachment_mappings(cluster, node, id, attachments, readable) == attachment_mappings(
            cluster,
            node,
            id,
            attachments,
            other,
        ),
    decreases attachments.len(),
{
    if attachments.len() > 0 {
        let shorter = attachments.drop_last();
        assert forall|k: int| 0 <= k < shorter.len() implies readable.contains(
            attachment_path(cluster, node, id, #[trigger] shorter[k]),
        ) == other.contains(attachment_path(cluster, node, id, shorter[k])) by {
            assert(shorter[k] == attachments[k]);
        }
        lemma_same_attachment_outcome(cluster, node, id, shorter, readable, other);
        assert(attachments[attachments.len() - 1] == attachments.last());
    }
    assert(attachment_mappings(cluster, node, id, attachments, readable) =~= attachment_mappings(
        cluster,
        node,
        id,
        attachments,
        other,
    ));
}

proof fn lemma_same_assignment_outcome(
    cluster: Seq<char>,
    node: NodeIdView,
    assignment: AssignmentView,
    readable: Seq<Seq<char>>,
    other: Seq<Seq<char>>,
)
    requires
        agree_on(assignment_files(cluster, node, assignment), readable, other),
    ensures
        assignment_remarks(cluster, node, assignment, readable) == assignment_remarks(
            cluster,
            node,
            assignment,
            other,
        ),
        assignment_mappings(cluster, node, assignment, readable) == assignment_mappings(
            cluster,
            node,
            assignment,
            other,
        ),
{
    let files = assignment_files(cluster, node, assignment);
    assert(files[0] == content_path(cluster, node, assignment.id));
    assert(files.contains(content_path(cluster, node, assignment.id)));
    assert forall|k: int| 0 <= k < assignment.attachments.len() implies readable.contains(
        attachment_path(cluster, node, assignment.id, #[trigger] assignment.attachments[k]),
    ) == other.contains(
        attachment_path(cluster, node, assignment.id, assignment.attachments[k]),
    ) by {
        let path = attachment_path(cluster, node, assignment.id, assignment.attachments[k]);
        assert(files[k + 1] == path);
        assert(files.contains(path));
    }
    lemma_same_attachment_outcome(
        cluster,
        node,
        assignment.id,
        assignment.attachments,
        readable,
        other,
    );
}

proof fn lemma_same_file_outcome(
    cluster: Seq<char>,
    node: NodeIdView,
    assignments: Seq<AssignmentView>,
    readable: Seq<Seq<char>>,
    other: Seq<Seq<char>>,
)
    requires
        agree_on(files_needed(cluster, node, assignments), readable, other),
    ensures
        file_remarks(cluster, node, assignments, readable) == file_remarks(
            cluster,
            node,
            assignments,
            other,
        ),
        forall|i: int|
            0 <= i < assignments.len() ==> assignment_mappings(
                cluster,
                node,
                #[trigger] assignments[i],
                readable,
            ) == assignment_mappings(cluster, node, assignments[i], other),
    decreases assignments.len(),
{
    if assignments.len() > 0 {
        let shorter = assignments.drop_last();
        let last = assignments.last();
        let front = files_needed(cluster, node, shorter);
        let back = assignment_files(cluster, node, last);
        assert forall|p: Seq<char>| #[trigger] front.contains(p) implies readable.contains(p)
            == other.contains(p) by {
            lemma_concat_contains(front, back, p);
        }
        assert forall|p: Seq<char>| #[trigger] back.contains(p) implies readable.contains(p)
            == other.contains(p) by {
            lemma_concat_contains(front, back, p);
        }
        lemma_same_file_outcome(cluster, node, shorter, readable, other);
        lemma_same_assignment_outcome(cluster, node, last, readable, other);
        assert forall|i: int| 0 <= i < assignments.len() implies assignment_mappings(
            cluster,
            node,
            #[trigger] assignments[i],
            readable,
        ) == assignment_mappings(cluster, node, assignments[i], other) by {
            if i < shorter.len() {
                assert(shorter[i] == assignments[i]);
            }
        }
    }
}

/// Only the files asked for matter: two accounts of what is readable that
/// agree on them give the same outcome.
pub proof fn law_only_files_asked_for_matter(
    cluster: Seq<char>,
    node: NodeIdView,
    assignments: Seq<AssignmentView>,
    readable: Seq<Seq<char>>,
    other: Seq<Seq<char>>,
)
    requires
        agree_on(files_needed(cluster, node, assignments), readable, other),
    ensures
        validation_outcome(cluster, node, assignments, readable) == validation_outcome(
            cluster,
            node,
            assignments,
            other,
        ),
{
    lemma_same_file_outcome(cluster, node, assignments, readable, other);
    assert(expected_mappings(cluster, node, assignments, readable) =~= expected_mappings(
        cluster,
        node,
        assignments,
        other,
    ));
}

/// Every file of every assignment is among the files asked for.
pub proof fn law_files_of_assignments_are_asked_for(
    cluster: Seq<char>,
    node: NodeIdView,
    assignments: Seq<AssignmentView>,
    i: int,
    path: Seq<char>,
)
    requires
        0 <= i < assignments.len(),
        assignment_files(cluster, node, assignments[i]).contains(path),
    ensures
        files_needed(cluster, node, assignments).contains(path),
    decreases assignments.len(),
{
    let shorter = assignments.drop_last();
    lemma_concat_contains(
        files_needed(cluster, node, shorter),
        assignment_files(cluster, node, assignments.last()),
        path,
    );
    if i < shorter.len() {
        assert(shorter[i] == assignments[i]);
        law_files_of_assignments_are_asked_for(cluster, node, shorter, i, path);
    }
}

/// Where every file asked for is readable, every file of every
/// assignment is.
pub proof fn law_asked_for_readable_means_all_readable(
    cluster: Seq<char>,
    node: NodeIdView,
    assignments: Seq<AssignmentView>,
    readable: Seq<Seq<char>>,
)
    requires
        forall|p: Seq<char>| #[trigger]
            files_needed(cluster, node, assignments).contains(p) ==> readable.contains(p),
    ensures
        all_files_readable(cluster, node, assignments, readable),
{
    assert forall|i: int| 0 <= i < assignments.len() implies files_readable(
        cluster,
        node,
        #[trigger] assignments[i],
        readable,
    ) by {
        let a = assignments[i];
        let files = assignment_files(cluster, node, a);
        assert(files[0] == content_path(cluster, node, a.id));
        law_files_of_assignments_are_asked_for(cluster, node, assignments, i, files[0]);
        assert forall|k: int| 0 <= k < a.attachments.len() implies readable.contains(
            attachment_path(cluster, node, a.id, #[trigger] a.attachments[k]),
        ) by {
            assert(files[k + 1] == attachment_path(cluster, node, a.id, a.attachments[k]));
            law_files_of_assignments_are_asked_for(cluster, node, assignments, i, files[k + 1]);
        }
    }
}

/// Any field but the one handled is refused, whatever its value and
/// whatever is readable.
pub proof fn law_other_fields_are_refused(
    cluster: Seq<char>,
    node: NodeIdView,
    field_name: Seq<char>,
    decoded: Result<Seq<AssignmentView>, Seq<char>>,
    readable: Seq<Seq<char>>,
)
    requires
        field_name != field_name_handled(),
    ensures
        field_outcome(cluster, node, field_name, decoded, readable) == Outcome::WrongField,
{
}

/// A value that was not decoded gives exactly one remark, which carries
/// the node and the decoder's message, whatever is readable.
pub proof fn law_undecoded_value_gives_one_remark(
    cluster: Seq<char>,
    node: NodeIdView,
    message: Seq<char>,
    readable: Seq<Seq<char>>,
)
    ensures
        field_outcome(cluster, node, field_name_handled(), Err(message), readable)
            == Outcome::Remarks(seq![malformed_remark(node, message)]),
{
}

} // verus!
