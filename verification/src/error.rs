//! Why a module cannot be loaded, or an import not be resolved.

use vstd::prelude::*;
use vstd::string::*;

use crate::text::decimal_text;
use crate::wasm::{export_kind, import_kind, ExternalKind, ImportType};

verus! {

/// The sections that only a module that has been linked contains.
#[derive(Clone, Copy, Debug, PartialEq, Eq, Structural)]
pub enum LinkedSection {
    Alias,
    Instance,
    Module,
}

/// What went wrong.
#[derive(Debug, PartialEq, Eq)]
pub enum Error {
    /// The binary is malformed or invalid, for the given reason.
    Binary(String),
    /// The module has been linked before.
    AlreadyLinked(LinkedSection),
    /// The module has an event section.
    EventSection,
    /// The module has a section with a code that is not known.
    UnknownSection(u8),
    /// The module has more than one interface section.
    MultipleInterfaces,
    /// The interface section is not text, for the given reason.
    InterfaceText(String),
    /// The definition of the interface is refused, for the given reason.
    InterfaceDefinition(String),
    /// The module does not export what is asked for.
    MissingExport { module: String, ty: ImportType, field: String },
    /// The interface of the module has no function of that name.
    MissingFunction { module: String, field: String },
    /// The types of an imported function and of the exported one differ.
    IncompatibleTypes { importer: String, field: String, exporter: String },
    /// Only functions can be imported so far.
    UnsupportedImport(ImportType),
    /// The export is of another kind than what is asked for.
    KindMismatch { ty: ImportType, field: String, module: String, kind: ExternalKind },
}

/// What an [`Error`] says.
#[verifier::ext_equal]
pub enum ErrorView {
    Binary(Seq<char>),
    AlreadyLinked(LinkedSection),
    EventSection,
    UnknownSection(u8),
    MultipleInterfaces,
    InterfaceText(Seq<char>),
    InterfaceDefinition(Seq<char>),
    MissingExport { module: Seq<char>, ty: ImportType, field: Seq<char> },
    MissingFunction { module: Seq<char>, field: Seq<char> },
    IncompatibleTypes { importer: Seq<char>, field: Seq<char>, exporter: Seq<char> },
    UnsupportedImport(ImportType),
    KindMismatch { ty: ImportType, field: Seq<char>, module: Seq<char>, kind: ExternalKind },
}

impl View for Error {
    type V = ErrorView;

    open spec fn view(&self) -> ErrorView {
        match self {
            Error::Binary(text) => ErrorView::Binary(text@),
            Error::AlreadyLinked(section) => ErrorView::AlreadyLinked(*section),
            Error::EventSection => ErrorView::EventSection,
            Error::UnknownSection(id) => ErrorView::UnknownSection(*id),
            Error::MultipleInterfaces => ErrorView::MultipleInterfaces,
            Error::InterfaceText(text) => ErrorView::InterfaceText(text@),
            Error::InterfaceDefinition(text) => ErrorView::InterfaceDefinition(text@),
            Error::MissingExport { module, ty, field } => ErrorView::MissingExport {
                module: module@,
                ty: *ty,
                field: field@,
            },
            Error::MissingFunction { module, field } => ErrorView::MissingFunction {
                module: module@,
                field: field@,
            },
            Error::IncompatibleTypes { importer, field, exporter } => {
                ErrorView::IncompatibleTypes {
                    importer: importer@,
                    field: field@,
                    exporter: exporter@,
                }
            },
            Error::UnsupportedImport(ty) => ErrorView::UnsupportedImport(*ty),
            Error::KindMismatch { ty, field, module, kind } => ErrorView::KindMismatch {
                ty: *ty,
                field: field@,
                module: module@,
                kind: *kind,
            },
        }
    }
}

/// What an import that is not supported would bring in, as messages say it.
pub open spec fn import_plural(ty: ImportType) -> Seq<char> {
    match ty {
        ImportType::Function(_) => "functions"@,
        ImportType::Table => "tables"@,
        ImportType::Memory => "memories"@,
        ImportType::Event => "events"@,
        ImportType::Global => "globals"@,
        ImportType::Module(_) => "modules"@,
        ImportType::Instance(_) => "instances"@,
    }
}

/// What an import that is not supported would bring in, as messages say it.
fn plural(ty: ImportType) -> (r: &'static str)
    ensures
        r@ == import_plural(ty),
{
    match ty {
        ImportType::Function(_) => "functions",
        ImportType::Table => "tables",
        ImportType::Memory => "memories",
        ImportType::Event => "events",
        ImportType::Global => "globals",
        ImportType::Module(_) => "modules",
        ImportType::Instance(_) => "instances",
    }
}

impl ErrorView {
    /// Whether there are words for all that the error speaks of: there are
    /// none for event imports, nor for event and type exports.
    pub open spec fn has_message(self) -> bool {
        match self {
            ErrorView::MissingExport { ty, .. } => !(ty is Event),
            ErrorView::KindMismatch { ty, kind, .. } => !(ty is Event) && !(kind is Event) && !(
            kind is Type),
            _ => true,
        }
    }

    /// The error in words.
    pub open spec fn message(self) -> Seq<char> {
        match self {
            ErrorView::Binary(text) => text,
            ErrorView::AlreadyLinked(LinkedSection::Alias) => {
                "module is already linked as it contains an alias section"@
            },
            ErrorView::AlreadyLinked(LinkedSection::Instance) => {
                "module is already linked as it contains an instance section"@
            },
            ErrorView::AlreadyLinked(LinkedSection::Module) => {
                "module is already linked as it contains a module section"@
            },
            ErrorView::EventSection => "module contains unsupported event section"@,
            ErrorView::UnknownSection(id) => {
                "unknown section with id `"@ + crate::text::decimal(id as nat) + "`"@
            },
            ErrorView::MultipleInterfaces => "module contains multiple interface sections"@,
            ErrorView::InterfaceText(text) => "invalid interface section: "@ + text,
            ErrorView::InterfaceDefinition(text) => {
                "failed to parse interface definition: "@ + text
            },
            ErrorView::MissingExport { module, ty, field } => {
                "module `"@ + module + "` does not export a "@ + crate::wasm::import_kind_text(ty)
                    + " named `"@ + field + "`"@
            },
            ErrorView::MissingFunction { module, field } => {
                "module `"@ + module + "` does not export a function named `"@ + field
                    + "` in its interface"@
            },
            ErrorView::IncompatibleTypes { importer, field, exporter } => {
                "module `"@ + importer + "` imports function `"@ + field + "` from module `"@
                    + exporter + "` but the types are incompatible"@
            },
            ErrorView::UnsupportedImport(ty) => {
                "importing "@ + import_plural(ty) + " is not currently supported"@
            },
            ErrorView::KindMismatch { ty, field, module, kind } => {
                "expected a "@ + crate::wasm::import_kind_text(ty) + " for export `"@ + field
                    + "` from module `"@ + module + "` but found a "@
                    + crate::wasm::export_kind_text(kind)
            },
        }
    }
}

impl Error {
    /// The error in words.
    pub fn message(&self) -> (r: String)
        requires
            self@.has_message(),
        ensures
            r@ == self@.message(),
    {
        let mut r = String::new();
        match self {
            Error::Binary(text) => {
                r.append(text.as_str());
            },
            Error::AlreadyLinked(LinkedSection::Alias) => {
                r.append("module is already linked as it contains an alias section");
            },
            Error::AlreadyLinked(LinkedSection::Instance) => {
                r.append("module is already linked as it contains an instance section");
            },
            Error::AlreadyLinked(LinkedSection::Module) => {
                r.append("module is already linked as it contains a module section");
            },
            Error::EventSection => {
                r.append("module contains unsupported event section");
            },
            Error::UnknownSection(id) => {
                r.append("unknown section with id `");
                r.append(decimal_text(*id).as_str());
                r.append("`");
            },
            Error::MultipleInterfaces => {
                r.append("module contains multiple interface sections");
            },
            Error::InterfaceText(text) => {
                r.append("invalid interface section: ");
                r.append(text.as_str());
            },
            Error::InterfaceDefinition(text) => {
                r.append("failed to parse interface definition: ");
                r.append(text.as_str());
            },
            Error::MissingExport { module, ty, field } => {
                r.append("module `");
                r.append(module.as_str());
                r.append("` does not export a ");
                r.append(import_kind(*ty));
                r.append(" named `");
                r.append(field.as_str());
                r.append("`");
            },
            Error::MissingFunction { module, field } => {
                r.append("module `");
                r.append(module.as_str());
                r.append("` does not export a function named `");
                r.append(field.as_str());
                r.append("` in its interface");
            },
            Error::IncompatibleTypes { importer, field, exporter } => {
                r.append("module `");
                r.append(importer.as_str());
                r.append("` imports function `");
                r.append(field.as_str());
                r.append("` from module `");
                r.append(exporter.as_str());
                r.append("` but the types are incompatible");
            },
            Error::UnsupportedImport(ty) => {
                r.append("importing ");
                r.append(plural(*ty));
                r.append(" is not currently supported");
            },
            Error::KindMismatch { ty, field, module, kind } => {
                r.append("expected a ");
                r.append(import_kind(*ty));
                r.append(" for export `");
                r.append(field.as_str());
                r.append("` from module `");
                r.append(module.as_str());
                r.append("` but found a ");
                r.append(export_kind(*kind));
            },
        }
        r
    }
}

} // verus!
