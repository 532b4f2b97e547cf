//! The language-neutral model of exported types, which each language
//! backend renders.

use vstd::prelude::*;

verus! {

/// The type of an exported field.
pub enum FieldType {
    Bool,
    Number,
    String,
    Timestamp,
    Uuid,
    Json,
    Array(&'static FieldType),
    /// A string-keyed map of values.
    Record(&'static FieldType),
    Named(&'static str),
}

/// A field of an exported struct.
pub struct Field {
    pub name: &'static str,
    pub ty: &'static FieldType,
    pub optional: bool,
}

/// Renders the neutral model into one target language.
pub trait ExportBackend {
    /// A documentation block for `lines` (nothing for no lines).
    fn doc(&self, lines: &[&str]) -> String;

    /// The target-language spelling of a field type.
    fn type_expr(&self, ty: &FieldType) -> String;

    /// A struct declaration.
    fn struct_decl(&self, name: &str, docs: &str, fields: &[Field]) -> String;

    /// An enum declaration over its wire values.
    fn enum_decl(&self, name: &str, docs: &str, variants: &[&str]) -> String;

    /// An import of `names` from `module`.
    fn import(&self, module: &str, names: &[&str]) -> String;
}

} // verus!
