//! The error type of macro-driven schema lowering: NOTA structure,
//! macro dispatch and expansion, type references, imports and schema
//! edits.
use vstd::prelude::*;

verus! {

#[derive(Clone, Debug, Eq, PartialEq)]
pub enum SchemaError {
    Nota(String),
    NotaDecode(String),
    ArchiveEncode,
    ArchiveDecode,
    ExpectedRootObjectCount {
        expected: &'static str,
        found: usize,
    },
    ExpectedDelimiter {
        expected: &'static str,
    },
    ExpectedEvenMapEntries {
        found: usize,
    },
    Io {
        path: String,
        reason: String,
    },
    MalformedSchemaPath {
        path: String,
    },
    ExpectedSymbol {
        found: String,
    },
    ExpectedEnumVariant,
    MalformedSchemaNode {
        found: String,
    },
    UnsupportedMacroNodeStructure {
        position: String,
        expected: Vec<String>,
        found: String,
    },
    MacroDidNotMatch {
        macro_name: String,
    },
    UnexpectedMacroOutput {
        macro_name: String,
        expected: &'static str,
    },
    ExpectedMacroDefinition {
        found: String,
    },
    UnknownMacroPosition {
        found: String,
    },
    InvalidMacroCapture {
        found: String,
    },
    MissingMacroBinding {
        name: String,
    },
    ConflictingMacroBinding {
        name: String,
    },
    UnknownAssembledTemplate {
        found: String,
    },
    EmptyTypeReference,
    UnknownTypeReferenceForm {
        head: String,
        argument_count: usize,
    },
    ReservedScalarTypeName {
        name: String,
    },
    MalformedImportSource {
        found: String,
    },
    UnresolvedImportCrate {
        crate_name: String,
    },
    ImportedTypeNotFound {
        crate_name: String,
        module: String,
        type_label: String,
    },
    ExpectedRawDeclarationName {
        found: String,
    },
    RawDeclarationNameMismatch {
        key: String,
        declared: String,
    },
    ExpectedRawFieldPairCount {
        declaration: String,
        found: usize,
    },
    ExpectedSyntaxDeclaration {
        found: String,
    },
    ExpectedSyntaxReference {
        found: String,
    },
    ExpectedSyntaxReferenceArity {
        form: &'static str,
        expected: &'static str,
        found: usize,
    },
    ExpectedSyntaxEnumVariant {
        found: String,
    },
    DuplicateSourceDeclaration {
        name: String,
    },
    SchemaEditTargetNotFound {
        type_label: String,
    },
    SchemaEditExpectedStruct {
        type_label: String,
    },
    SchemaEditExpectedEnum {
        type_label: String,
    },
    SchemaEditDuplicateField {
        type_label: String,
        field_name: String,
    },
    SchemaEditDuplicateVariant {
        type_label: String,
        variant_name: String,
    },
    SchemaEditFieldNotFound {
        type_label: String,
        field_name: String,
    },
    ExpectedTemplateObjectCount {
        position: &'static str,
        expected: usize,
        found: usize,
    },
    FamilyRootNotFound {
        name: String,
    },
    FamilyReferenceNotFound {
        family: String,
        name: String,
    },
    SchemaEditIdentityMismatch {
        expected: String,
        found: String,
    },
}

} // verus!
