//! The failure kinds that compilation and linking can produce.

use vstd::prelude::*;

use crate::literal::Literal;

verus! {

/// The kind of an error from the compiler or linker.
///
/// Each variant records enough context to render a single-line message:
/// the containing module's name, the offending literal, and so on.
#[derive(Debug, PartialEq)]
pub enum ErrorKind {
    /// An error opening a source file.
    CouldntOpenSource(String),
    /// A dependency loop was detected between modules.
    DependencyLoopInModule(String),
    /// Two different decls have the same name.
    DuplicateDeclName(String),
    /// A field was duplicated in a metadata file.
    DuplicateField(String),
    /// Two different variables in a letrec have the same name.
    DuplicateLetrecName(String),
    /// Globals exist that weren't defined.
    FreeVars(Vec<String>),
    /// A decl has a name that is reserved.
    IllegalDeclName(String),
    /// The given value is not a valid declaration, but appeared in a
    /// declaration context.
    InvalidDecl(Literal),
    /// The given value is not a valid expression, but appeared in an
    /// expression context.
    InvalidExpr(Literal),
    /// A required field was missing from a metadata file.
    MissingField(String),
    /// A variable that was exported wasn't defined.
    MissingExport(String, String),
    /// The main function wasn't present.
    NoMainFunction,
    /// A module didn't have a module form.
    NoModuleForm(String),
    /// A binary doesn't exist (or the package containing it wasn't loaded).
    NoSuchBinary(String, String),
    /// A variable was used that doesn't exist.
    NoSuchVar(String),
    /// A letrec binding's right-hand side is neither a lambda nor a
    /// variable alias.
    NonLambdaInLetrec(String),
    /// An import was made to a symbol that doesn't exist or wasn't exported.
    NonexistentImport(String, String),
    /// A nonexistent module was imported from.
    NonexistentModule(String),
    /// A parse error.
    Parse(String),
    /// A value with an unexpected type was found in a metadata file.
    Unexpected(String, Literal),
    /// An unknown attribute was present in a module.
    UnknownAttr(String, Literal),
    /// A letrec binding's right-hand side is a bare variable alias.
    VarInLetrec(String, String),
}

} // verus!
