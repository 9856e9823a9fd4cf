//! What the processor declares to its host: the option it recognises and
//! the field it handles. The shape of each value is attached by the caller.

use vstd::prelude::*;
use vstd::string::*;
use crate::outcome::field_name_handled;
use crate::processing::handled_field;

verus! {

/// A declared option or field: its name and whether it must be given.
#[derive(Clone, Debug, PartialEq, Eq)]
pub struct Declaration {
    pub name: String,
    pub required: bool,
}

/// A declaration as text and flag.
pub struct DeclarationView {
    pub name: Seq<char>,
    pub required: bool,
}

impl View for Declaration {
    type V = DeclarationView;

    open spec fn view(&self) -> DeclarationView {
        DeclarationView { name: self.name@, required: self.required }
    }
}

/// The views of a list of declarations.
pub open spec fn declaration_views(list: Seq<Declaration>) -> Seq<DeclarationView> {
    list.map_values(|d: Declaration| d@)
}

/// The one option: whether model solutions are demanded. It is optional,
/// a boolean, and not consulted when a field is processed.
pub open spec fn declared_params() -> Seq<DeclarationView> {
    seq![DeclarationView { name: "require_model_solutions"@, required: false }]
}

/// The one field: the list of assignments, which a node may leave out.
pub open spec fn declared_fields() -> Seq<DeclarationView> {
    seq![DeclarationView { name: field_name_handled(), required: false }]
}

/// The options that the processor recognises.
pub fn get_params_schema() -> (declared: Vec<Declaration>)
    ensures
        declaration_views(declared@) == declared_params(),
{
    let mut declared: Vec<Declaration> = Vec::new();
    declared.push(
        Declaration { name: String::from_str("require_model_solutions"), required: false },
    );
    assert(declaration_views(declared@) =~= declared_params());
    declared
}

/// The fields that the processor handles.
pub fn get_extension_field_schema() -> (declared: Vec<Declaration>)
    ensures
        declaration_views(declared@) == declared_fields(),
{
    let mut declared: Vec<Declaration> = Vec::new();
    declared.push(Declaration { name: String::from_str(handled_field()), required: false });
    assert(declaration_views(declared@) =~= declared_fields());
    declared
}

} // verus!
