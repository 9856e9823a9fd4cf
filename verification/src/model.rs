//! The data that the field processor reads and produces, with the
//! mathematical view of each type.

use vstd::prelude::*;

verus! {

/// Identity of a node: the namespace of its cluster and its id inside it.
#[derive(Clone, Debug, PartialEq, Eq)]
pub struct NodeId {
    pub namespace: String,
    pub local_id: String,
}

/// A node's identity as text.
pub struct NodeIdView {
    pub namespace: Seq<char>,
    pub local_id: Seq<char>,
}

impl View for NodeId {
    type V = NodeIdView;

    open spec fn view(&self) -> NodeIdView {
        NodeIdView { namespace: self.namespace@, local_id: self.local_id@ }
    }
}

/// One declared assignment. `title` is carried for display only.
#[derive(Clone, Debug, PartialEq, Eq)]
pub struct Assignment {
    pub id: String,
    pub title: Option<String>,
    pub attachments: Option<Vec<String>>,
}

/// What the processor reads of an assignment: its id and its attachment
/// paths in declaration order (none declared is the empty sequence).
pub struct AssignmentView {
    pub id: Seq<char>,
    pub attachments: Seq<Seq<char>>,
}

impl View for Assignment {
    type V = AssignmentView;

    open spec fn view(&self) -> AssignmentView {
        AssignmentView {
            id: self.id@,
            attachments: match self.attachments {
                Some(list) => texts(list@),
                None => Seq::empty(),
            },
        }
    }
}

/// Instruction to copy `local_file` into `root_relative_target_dir`.
#[derive(Clone, Debug, PartialEq, Eq)]
pub struct ArtifactMapping {
    pub local_file: String,
    pub root_relative_target_dir: String,
}

/// A mapping as text: the file and the directory it goes to.
pub struct MappingView {
    pub local_file: Seq<char>,
    pub target_dir: Seq<char>,
}

impl View for ArtifactMapping {
    type V = MappingView;

    open spec fn view(&self) -> MappingView {
        MappingView { local_file: self.local_file@, target_dir: self.root_relative_target_dir@ }
    }
}

/// Why a field could not be turned into artifact mappings.
#[derive(Clone, Debug, PartialEq, Eq)]
pub enum NodeProcessingError {
    /// The field is not the one this processor handles.
    CannotProcessFieldType,
    /// The field is invalid; each remark describes one problem.
    Remarks(Vec<String>),
}

/// The character sequences of a list of strings.
pub open spec fn texts(list: Seq<String>) -> Seq<Seq<char>> {
    list.map_values(|s: String| s@)
}

/// The views of a list of assignments.
pub open spec fn assignment_views(list: Seq<Assignment>) -> Seq<AssignmentView> {
    list.map_values(|a: Assignment| a@)
}

impl NodeProcessingError {
    /// Whether the error says that the field belongs to another processor.
    pub fn indicates_inability_to_process_field(&self) -> (r: bool)
        ensures
            r == (*self matches NodeProcessingError::CannotProcessFieldType),
    {
        match self {
            NodeProcessingError::CannotProcessFieldType => true,
            NodeProcessingError::Remarks(_) => false,
        }
    }
}

} // verus!
