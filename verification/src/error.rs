//! The error type of the schema model: name validation, duplicate
//! detection, route headers, upgrade planning and the object block pass.
use vstd::prelude::*;
use crate::name::Name;

verus! {

#[derive(Clone, Debug, PartialEq, Eq)]
pub enum Error {
    InvalidName { name: String },
    InvalidFieldName { name: String },
    InvalidModuleName { name: String },
    DuplicateDeclaration { name: Name },
    DuplicateVariant { declaration: Name, variant: Name },
    UnknownType { name: Name },
    MissingDeclaration { name: Name },
    MissingVariant { declaration: Name, variant: Name },
    DuplicateHeaderRoot { name: Name },
    EmptyHeaderRoot { name: Name },
    DuplicateHeaderEndpoint { root: Name, endpoint: Name },
    DuplicateImportBinding { binding: Name },
    DuplicateResolvedImportName { binding: Name, name: Name },
    DuplicateImportedName { name: Name, first_binding: Name, second_binding: Name },
    ImportCollisionWithLocal { name: Name, binding: Name },
    ShortHeaderSlotOverflow { root: Name, endpoint: Option<Name>, slot: usize },
    MissingUpgradeAnnotation { name: Name },
    RemovedTypeRequiresAnnotation { name: Name },
    DuplicateUpgradeAnnotation { name: Name },
    InvalidSchemaText { context: &'static str, message: String },
}

} // verus!
