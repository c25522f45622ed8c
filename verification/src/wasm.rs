//! The parts of a WebAssembly module that linking looks at, as plain values.

use vstd::prelude::*;

verus! {

/// The type of a WebAssembly value.
#[derive(Clone, Copy, Debug, PartialEq, Eq, Structural)]
pub enum ValType {
    I32,
    I64,
    F32,
    F64,
    V128,
    FuncRef,
    ExternRef,
    ExnRef,
    Func,
    EmptyBlockType,
}

/// The type of a WebAssembly function.
#[derive(Debug, PartialEq, Eq)]
pub struct FuncType {
    pub params: Vec<ValType>,
    pub returns: Vec<ValType>,
}

/// What a [`FuncType`] says.
#[verifier::ext_equal]
pub struct FuncTypeView {
    pub params: Seq<ValType>,
    pub returns: Seq<ValType>,
}

impl View for FuncType {
    type V = FuncTypeView;

    open spec fn view(&self) -> FuncTypeView {
        FuncTypeView { params: self.params@, returns: self.returns@ }
    }
}

/// Whether two lists of value types are the same.
fn same_val_types(a: &Vec<ValType>, b: &Vec<ValType>) -> (r: bool)
    ensures
        r == (a@ == b@),
{
    if a.len() != b.len() {
        return false;
    }
    for i in 0..a.len()
        invariant
            a.len() == b.len(),
            forall|j: int| 0 <= j < i ==> a@[j] == b@[j],
    {
        if a[i] != b[i] {
            return false;
        }
    }
    assert(a@ =~= b@);
    true
}

impl FuncType {
    /// Whether the two function types take and return the same values.
    pub fn same(&self, other: &FuncType) -> (r: bool)
        ensures
            r == (self@ == other@),
    {
        same_val_types(&self.params, &other.params) && same_val_types(&self.returns, &other.returns)
    }
}

/// An entry of a type section.
#[derive(Debug, PartialEq, Eq)]
pub enum TypeDef {
    Func(FuncType),
    Instance,
    Module,
}

/// What a [`TypeDef`] says.
#[verifier::ext_equal]
pub enum TypeDefView {
    Func(FuncTypeView),
    Instance,
    Module,
}

impl View for TypeDef {
    type V = TypeDefView;

    open spec fn view(&self) -> TypeDefView {
        match self {
            TypeDef::Func(ty) => TypeDefView::Func(ty@),
            TypeDef::Instance => TypeDefView::Instance,
            TypeDef::Module => TypeDefView::Module,
        }
    }
}

/// What an import asks for. Functions, modules and instances name the entry
/// of the type section that describes them.
#[derive(Clone, Copy, Debug, PartialEq, Eq, Structural)]
pub enum ImportType {
    Function(u32),
    Table,
    Memory,
    Event,
    Global,
    Module(u32),
    Instance(u32),
}

/// An entry of an import section.
#[derive(Clone, Copy, Debug, PartialEq, Eq)]
pub struct Import<'a> {
    pub module: &'a str,
    pub field: Option<&'a str>,
    pub ty: ImportType,
}

/// What an [`Import`] says.
#[verifier::ext_equal]
pub struct ImportView {
    pub module: Seq<char>,
    pub field: Option<Seq<char>>,
    pub ty: ImportType,
}

impl<'a> View for Import<'a> {
    type V = ImportView;

    open spec fn view(&self) -> ImportView {
        ImportView {
            module: self.module@,
            field: match self.field {
                Some(field) => Some(field@),
                None => None,
            },
            ty: self.ty,
        }
    }
}

impl ImportView {
    /// The name that is asked for; empty where the import has none.
    pub open spec fn field_name(self) -> Seq<char> {
        match self.field {
            Some(field) => field,
            None => Seq::empty(),
        }
    }
}

/// What an export offers.
#[derive(Clone, Copy, Debug, PartialEq, Eq, Structural)]
pub enum ExternalKind {
    Function,
    Table,
    Memory,
    Event,
    Global,
    Type,
    Module,
    Instance,
}

/// An entry of an export section.
#[derive(Clone, Copy, Debug, PartialEq, Eq)]
pub struct Export<'a> {
    pub field: &'a str,
    pub kind: ExternalKind,
    pub index: u32,
}

/// What an [`Export`] says.
#[verifier::ext_equal]
pub struct ExportView {
    pub field: Seq<char>,
    pub kind: ExternalKind,
    pub index: u32,
}

impl<'a> View for Export<'a> {
    type V = ExportView;

    open spec fn view(&self) -> ExportView {
        ExportView { field: self.field@, kind: self.kind, index: self.index }
    }
}

/// The word that messages use for what an import asks for.
pub open spec fn import_kind_text(ty: ImportType) -> Seq<char> {
    match ty {
        ImportType::Function(_) => "function"@,
        ImportType::Table => "table"@,
        ImportType::Memory => "memory"@,
        ImportType::Event => "event"@,
        ImportType::Global => "global"@,
        ImportType::Module(_) => "module"@,
        ImportType::Instance(_) => "instance"@,
    }
}

/// The word that messages use for what an export offers.
pub open spec fn export_kind_text(kind: ExternalKind) -> Seq<char> {
    match kind {
        ExternalKind::Function => "function"@,
        ExternalKind::Table => "table"@,
        ExternalKind::Memory => "memory"@,
        ExternalKind::Event => "event"@,
        ExternalKind::Global => "global"@,
        ExternalKind::Type => "type"@,
        ExternalKind::Module => "module"@,
        ExternalKind::Instance => "instance"@,
    }
}

/// The word for what an import asks for. Event imports have none.
pub fn import_kind(ty: ImportType) -> (r: &'static str)
    requires
        !(ty is Event),
    ensures
        r@ == import_kind_text(ty),
{
    match ty {
        ImportType::Function(_) => "function",
        ImportType::Table => "table",
        ImportType::Memory => "memory",
        ImportType::Event => "event",
        ImportType::Global => "global",
        ImportType::Module(_) => "module",
        ImportType::Instance(_) => "instance",
    }
}

/// The word for what an export offers. Event and type exports have none.
pub fn export_kind(kind: ExternalKind) -> (r: &'static str)
    requires
        !(kind is Event),
        !(kind is Type),
    ensures
        r@ == export_kind_text(kind),
{
    match kind {
        ExternalKind::Function => "function",
        ExternalKind::Table => "table",
        ExternalKind::Memory => "memory",
        ExternalKind::Event => "event",
        ExternalKind::Global => "global",
        ExternalKind::Type => "type",
        ExternalKind::Module => "module",
        ExternalKind::Instance => "instance",
    }
}

/// The sections that are kept when a module is loaded.
#[derive(Clone, Copy, Debug, PartialEq, Eq, Structural)]
pub enum SectionId {
    Custom,
    Type,
    Import,
    Function,
    Table,
    Memory,
    Global,
    Export,
    Start,
    Element,
    Code,
    Data,
    DataCount,
}

/// The byte that marks a section in the binary format.
pub open spec fn section_code(id: SectionId) -> u8 {
    match id {
        SectionId::Custom => 0,
        SectionId::Type => 1,
        SectionId::Import => 2,
        SectionId::Function => 3,
        SectionId::Table => 4,
        SectionId::Memory => 5,
        SectionId::Global => 6,
        SectionId::Export => 7,
        SectionId::Start => 8,
        SectionId::Element => 9,
        SectionId::Code => 10,
        SectionId::Data => 11,
        SectionId::DataCount => 12,
    }
}

impl SectionId {
    /// The byte that marks this section in the binary format.
    pub fn code(self) -> (r: u8)
        ensures
            r == section_code(self),
    {
        match self {
            SectionId::Custom => 0,
            SectionId::Type => 1,
            SectionId::Import => 2,
            SectionId::Function => 3,
            SectionId::Table => 4,
            SectionId::Memory => 5,
            SectionId::Global => 6,
            SectionId::Export => 7,
            SectionId::Start => 8,
            SectionId::Element => 9,
            SectionId::Code => 10,
            SectionId::Data => 11,
            SectionId::DataCount => 12,
        }
    }
}

/// A range of offsets into the bytes of a module, `end` excluded.
#[derive(Clone, Copy, Debug, PartialEq, Eq, Structural)]
pub struct Range {
    pub start: usize,
    pub end: usize,
}

impl Range {
    /// Whether the range lies within the first `len` bytes.
    pub open spec fn within(self, len: nat) -> bool {
        self.start <= self.end <= len
    }
}

/// The contents of a section together with the byte that marks it.
#[derive(Clone, Copy, Debug, PartialEq, Eq)]
pub struct RawSection<'a> {
    pub id: u8,
    pub data: &'a [u8],
}

/// What a [`RawSection`] says.
#[verifier::ext_equal]
pub struct RawSectionView {
    pub id: u8,
    pub data: Seq<u8>,
}

impl<'a> View for RawSection<'a> {
    type V = RawSectionView;

    open spec fn view(&self) -> RawSectionView {
        RawSectionView { id: self.id, data: self.data@ }
    }
}

} // verus!
