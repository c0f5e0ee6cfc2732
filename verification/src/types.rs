//! The values that the operations of the editor hand back.

use vstd::prelude::*;

verus! {

/// A relation that an element is a member of.
#[derive(Debug, Clone)]
pub struct ParentRelation {
    pub id: i64,
    /// The role of the element in the relation.
    pub role: String,
    /// The value of the first `type` tag of the relation.
    pub relation_type: Option<String>,
    /// The value of the first `name` tag of the relation.
    pub name: Option<String>,
}

/// The mathematical value of a parent relation.
pub struct ParentRelationView {
    pub id: i64,
    pub role: Seq<char>,
    pub relation_type: Option<Seq<char>>,
    pub name: Option<Seq<char>>,
}

/// The mathematical value of a text that may be missing.
pub open spec fn text_view(text: Option<String>) -> Option<Seq<char>> {
    match text {
        Some(t) => Some(t@),
        None => None,
    }
}

impl View for ParentRelation {
    type V = ParentRelationView;

    open spec fn view(&self) -> ParentRelationView {
        ParentRelationView {
            id: self.id,
            role: self.role@,
            relation_type: text_view(self.relation_type),
            name: text_view(self.name),
        }
    }
}

/// The mathematical values of a list of parent relations.
pub open spec fn parents_view(parents: Seq<ParentRelation>) -> Seq<ParentRelationView> {
    Seq::new(parents.len(), |i: int| parents[i]@)
}

/// What is known of a node. The position is in units of 1e-7 degree.
#[derive(Debug, Clone)]
pub struct NodeDetails {
    pub id: i64,
    pub lon: i32,
    pub lat: i32,
    pub tags: Vec<(String, String)>,
    pub ref_count: u16,
    pub parent_relations: Vec<ParentRelation>,
}

/// What is known of a way.
#[derive(Debug, Clone)]
pub struct WayDetails {
    pub id: i64,
    pub tags: Vec<(String, String)>,
    pub node_count: usize,
    pub is_area: bool,
    pub render_feature: u16,
    pub layer: i8,
    pub parent_relations: Vec<ParentRelation>,
}

/// What is known of a feature.
#[derive(Debug, Clone)]
pub enum FeatureDetails {
    Node(NodeDetails),
    Way(WayDetails),
    NotFound,
}

/// The answer to a change of tags.
#[derive(Debug, Clone, Copy, PartialEq, Eq, Structural)]
pub struct UpdateTagsResult {
    pub success: bool,
    pub render_feature: u16,
    pub layer: i8,
    pub is_area: bool,
}

/// The answer to an undo or a redo.
#[derive(Debug, Clone)]
pub struct UndoRedoResult {
    pub success: bool,
    pub needs_redraw: bool,
    pub message: Option<String>,
    pub undo_count: usize,
    pub redo_count: usize,
}

/// The answer to the move of a node.
#[derive(Debug, Clone)]
pub struct MoveNodeResult {
    pub success: bool,
    pub message: Option<String>,
}

/// The answer to the addition of a node.
#[derive(Debug, Clone)]
pub struct AddNodeResult {
    pub success: bool,
    pub node_id: i64,
    pub message: Option<String>,
}

/// The answer to the deletion of a feature.
#[derive(Debug, Clone)]
pub struct DeleteFeatureResult {
    pub success: bool,
    pub message: Option<String>,
    /// The ways that were deleted with a node.
    pub cascaded_way_ids: Vec<i64>,
}

} // verus!
