//! Modules that are about to be linked.

use std::collections::VecDeque;

use vstd::pervasive::unreached;
use vstd::prelude::*;
use vstd::slice::slice_subrange;
use vstd::utf8::*;

use crate::binary::{utf8_error, utf8_text, views};
use crate::encoder::{encoded_bytes, new_module, preamble, sections_bytes, write_section};
use crate::error::{Error, ErrorView};
use crate::interface::{find_function, signature_type, Interface};
use crate::reader::{
    entries, entry_section, framed, read_entries, read_entries_checked, readable, sound,
    sound_entry, Entry, EntryView,
};
use crate::text::same_text;
use crate::wasm::{
    section_code, Export, ExportView, ExternalKind, FuncType, FuncTypeView, Import, ImportType,
    ImportView, Range, RawSection, RawSectionView, SectionId, TypeDef, TypeDefView,
};
use crate::witx::Definition;

verus! {

/// A WebAssembly module.
#[derive(Debug)]
pub struct Module<'a> {
    /// The name of the module.
    pub name: &'a str,
    /// The bytes of the module.
    pub bytes: &'a [u8],
    /// The entries of the type section.
    pub types: Vec<TypeDef>,
    /// The entries of the import section.
    pub imports: Vec<Import<'a>>,
    /// The entries of the export section.
    pub exports: Vec<Export<'a>>,
    /// The entries of the function section.
    pub functions: Vec<u32>,
    /// The sections of the module.
    pub sections: Vec<RawSection<'a>>,
    /// The interface that the module implements, where one is known.
    pub interface: Option<Interface>,
}

/// What a [`Module`] holds.
#[verifier::ext_equal]
pub struct ModuleView {
    pub name: Seq<char>,
    pub bytes: Seq<u8>,
    pub types: Seq<TypeDefView>,
    pub imports: Seq<ImportView>,
    pub exports: Seq<ExportView>,
    pub functions: Seq<u32>,
    pub sections: Seq<RawSectionView>,
    pub interface: Option<Definition>,
}

impl<'a> View for Module<'a> {
    type V = ModuleView;

    open spec fn view(&self) -> ModuleView {
        ModuleView {
            name: self.name@,
            bytes: self.bytes@,
            types: views(self.types@),
            imports: views(self.imports@),
            exports: views(self.exports@),
            functions: self.functions@,
            sections: views(self.sections@),
            interface: match self.interface {
                Some(interface) => Some(interface.definition()),
                None => None,
            },
        }
    }
}

/// The name of the custom section that holds the definition of an interface.
pub const INTERFACE_SECTION_NAME: &'static str = ".interface";

/// Whether an entry is a section with the definition of an interface.
pub open spec fn is_interface(entry: EntryView) -> bool {
    entry matches EntryView::Custom(_, name, _) && name == INTERFACE_SECTION_NAME@
}

impl ModuleView {
    /// A module of which nothing has been read.
    pub open spec fn unread(name: Seq<char>, bytes: Seq<u8>) -> ModuleView {
        ModuleView {
            name,
            bytes,
            types: Seq::empty(),
            imports: Seq::empty(),
            exports: Seq::empty(),
            functions: Seq::empty(),
            sections: Seq::empty(),
            interface: None,
        }
    }

    /// The module with a section of its bytes added.
    pub open spec fn with_section(self, id: SectionId, range: Range) -> ModuleView {
        ModuleView {
            sections: self.sections.push(
                RawSectionView {
                    id: section_code(id),
                    data: self.bytes.subrange(range.start as int, range.end as int),
                },
            ),
            ..self
        }
    }

    /// The module with the section of an entry and what it lists added.
    pub open spec fn with_entry(self, entry: EntryView) -> ModuleView {
        let (id, range) = entry_section(entry);
        let module = self.with_section(id, range);
        match entry {
            EntryView::Types(_, types) => ModuleView { types: self.types + types, ..module },
            EntryView::Imports(_, imports) => ModuleView {
                imports: self.imports + imports,
                ..module
            },
            EntryView::Functions(_, functions) => ModuleView {
                functions: self.functions + functions,
                ..module
            },
            EntryView::Exports(_, exports) => ModuleView {
                exports: self.exports + exports,
                ..module
            },
            _ => module,
        }
    }

    /// The module with an interface.
    pub open spec fn with_interface(self, definition: Definition) -> ModuleView {
        ModuleView { interface: Some(definition), ..self }
    }

    /// Whether every section is short enough to be written.
    pub open spec fn encodable(self) -> bool {
        forall|i: int|
            0 <= i < self.sections.len() ==> (#[trigger] self.sections[i]).data.len() <= u32::MAX
    }
}

/// What loading a module has come to.
#[verifier::ext_equal]
pub enum Outcome {
    /// All entries have been read.
    Loaded(ModuleView),
    /// The definition of an interface has been met and waits to be parsed.
    Waiting(PendingView),
    /// The module is refused.
    Failed(ErrorView),
    /// A section reaches past the end of the binary.
    Truncated,
}

/// Loads the entries into a module, up to the definition of an interface.
pub open spec fn load(module: ModuleView, list: Seq<EntryView>) -> Outcome
    decreases list.len(),
{
    if list.len() == 0 {
        Outcome::Loaded(module)
    } else {
        let rest = list.drop_first();
        match list[0] {
            EntryView::Failed(error) => Outcome::Failed(error),
            EntryView::Custom(range, name, data) if name == INTERFACE_SECTION_NAME@ => {
                if module.interface is Some {
                    Outcome::Failed(ErrorView::MultipleInterfaces)
                } else if !valid_utf8(data) {
                    Outcome::Failed(ErrorView::InterfaceText(utf8_error(data)))
                } else {
                    Outcome::Waiting(
                        PendingView { module, source: decode_utf8(data), range, rest },
                    )
                }
            },
            entry => {
                if entry_section(entry).1.within(module.bytes.len()) {
                    load(module.with_entry(entry), rest)
                } else {
                    Outcome::Truncated
                }
            },
        }
    }
}

/// Whether loading the entries comes to a section that reaches past the first
/// `len` bytes, before it comes to the definition of an interface or to a
/// failure.
pub open spec fn truncated(list: Seq<EntryView>, len: nat) -> bool
    decreases list.len(),
{
    if list.len() == 0 || list[0] is Failed || is_interface(list[0]) {
        false
    } else {
        !entry_section(list[0]).1.within(len) || truncated(list.drop_first(), len)
    }
}

/// What a [`Pending`] module holds.
#[verifier::ext_equal]
pub struct PendingView {
    pub module: ModuleView,
    pub source: Seq<char>,
    pub range: Range,
    pub rest: Seq<EntryView>,
}

impl PendingView {
    /// Whether the module can be written, and the entries that follow are
    /// sound.
    pub open spec fn sound(self) -> bool {
        &&& self.module.encodable()
        &&& self.range.end - self.range.start <= u32::MAX
        &&& sound(self.rest, self.module.bytes.len())
    }

    /// Whether loading, when it goes on, comes to a section that reaches past
    /// the end of the binary.
    pub open spec fn truncated(self) -> bool {
        ||| !self.range.within(self.module.bytes.len())
        ||| truncated(self.rest, self.module.bytes.len())
    }

    /// What loading comes to when it goes on with the definition of the
    /// interface.
    pub open spec fn resumed(self, definition: Definition) -> Outcome {
        if self.range.within(self.module.bytes.len()) {
            load(
                self.module.with_interface(definition).with_section(SectionId::Custom, self.range),
                self.rest,
            )
        } else {
            Outcome::Truncated
        }
    }
}

/// A module whose interface waits to be parsed.
#[derive(Debug)]
pub struct Pending<'a> {
    /// What has been read before the definition of the interface.
    pub module: Module<'a>,
    /// The definition of the interface.
    pub source: &'a str,
    /// Where the section with the definition lies.
    pub range: Range,
    /// What follows the definition.
    pub rest: VecDeque<Entry<'a>>,
}

impl<'a> View for Pending<'a> {
    type V = PendingView;

    open spec fn view(&self) -> PendingView {
        PendingView {
            module: self.module@,
            source: self.source@,
            range: self.range,
            rest: views(self.rest@),
        }
    }
}

/// A module that is being loaded.
#[derive(Debug)]
pub enum Loading<'a> {
    /// The module is complete.
    Ready(Module<'a>),
    /// The definition of its interface has to be parsed first.
    Waiting(Pending<'a>),
}

/// What loading a module has come to.
enum Progress<'a> {
    Loaded(Module<'a>),
    Waiting(Pending<'a>),
    Failed(Error),
    Truncated,
}

impl<'a> Progress<'a> {
    spec fn outcome(self) -> Outcome {
        match self {
            Progress::Loaded(module) => Outcome::Loaded(module@),
            Progress::Waiting(pending) => Outcome::Waiting(pending@),
            Progress::Failed(error) => Outcome::Failed(error@),
            Progress::Truncated => Outcome::Truncated,
        }
    }
}

/// The views of two lists that follow one another.
proof fn lemma_views_add<T: View>(a: Seq<T>, b: Seq<T>)
    ensures
        views(a + b) == views(a) + views(b),
{
    assert(views(a + b) =~= views(a) + views(b));
}

/// A module that has an interface never waits for one.
proof fn lemma_load_with_interface(module: ModuleView, list: Seq<EntryView>)
    requires
        module.interface is Some,
    ensures
        !(load(module, list) is Waiting),
    decreases list.len(),
{
    if list.len() > 0 {
        lemma_load_with_interface(module.with_entry(list[0]), list.drop_first());
    }
}

/// A module that is loaded from sound entries can be written.
proof fn lemma_load_encodable(module: ModuleView, list: Seq<EntryView>)
    requires
        module.encodable(),
        sound(list, module.bytes.len()),
    ensures
        load(module, list) matches Outcome::Loaded(loaded) ==> loaded.encodable(),
        load(module, list) matches Outcome::Waiting(pending) ==> pending.sound(),
    decreases list.len(),
{
    if list.len() > 0 {
        assert(sound_entry(list[0], module.bytes.len()));
        assert(sound(list.drop_first(), module.bytes.len()));
        if entry_section(list[0]).1.within(module.bytes.len()) && !(list[0] is Failed) {
            lemma_load_encodable(module.with_entry(list[0]), list.drop_first());
        }
    }
}

/// Which entries a module cannot be loaded from does not depend on the module.
pub proof fn lemma_load_truncated(module: ModuleView, list: Seq<EntryView>)
    ensures
        load(module, list) is Truncated <==> truncated(list, module.bytes.len()),
    decreases list.len(),
{
    if list.len() > 0 {
        lemma_load_truncated(module.with_entry(list[0]), list.drop_first());
    }
}

/// Whether a range lies within the first `len` bytes.
fn is_within(range: Range, len: usize) -> (r: bool)
    ensures
        r == range.within(len as nat),
{
    range.start <= range.end && range.end <= len
}

/// The section that an entry stands for.
fn section_of(entry: &Entry<'_>) -> (r: (SectionId, Range))
    ensures
        r == entry_section(entry@),
{
    match entry {
        Entry::Section(id, range) => (*id, *range),
        Entry::Types(range, _) => (SectionId::Type, *range),
        Entry::Imports(range, _) => (SectionId::Import, *range),
        Entry::Functions(range, _) => (SectionId::Function, *range),
        Entry::Exports(range, _) => (SectionId::Export, *range),
        Entry::Custom(range, _, _) => (SectionId::Custom, *range),
        Entry::Failed(_) => (SectionId::Custom, Range { start: 0, end: 0 }),
    }
}

/// Whether loading the entries comes to a section that reaches past the first
/// `len` bytes, before it comes to the definition of an interface or to a
/// failure.
pub fn is_truncated(list: &VecDeque<Entry<'_>>, len: usize) -> (r: bool)
    ensures
        r == truncated(views(list@), len as nat),
{
    let ghost all = views(list@);
    assert(all.skip(0) =~= all);
    for i in 0..list.len()
        invariant
            all == views(list@),
            truncated(all, len as nat) == truncated(all.skip(i as int), len as nat),
    {
        let entry = &list[i];
        assert(all[i as int] == entry@);
        assert(all.skip(i as int).drop_first() =~= all.skip(i + 1));
        match entry {
            Entry::Failed(_) => return false,
            Entry::Custom(_, name, _) => {
                if same_text(name, INTERFACE_SECTION_NAME) {
                    return false;
                }
            },
            _ => {},
        }
        if !is_within(section_of(entry).1, len) {
            return true;
        }
    }
    false
}

impl<'a> Module<'a> {
    /// Adds a section of the bytes of the module.
    fn add_section(&mut self, id: SectionId, range: Range)
        requires
            range.within(old(self).bytes@.len()),
        ensures
            final(self)@ == old(self)@.with_section(id, range),
    {
        let data = slice_subrange(self.bytes, range.start, range.end);
        self.sections.push(RawSection { id: id.code(), data });
        assert(self@ =~= old(self)@.with_section(id, range));
    }

    /// Loads the entries into the module, up to the definition of an interface.
    fn load(self, entries: VecDeque<Entry<'a>>) -> (r: Progress<'a>)
        ensures
            r.outcome() == load(self@, views(entries@)),
    {
        let mut module = self;
        let mut list = entries;
        loop
            invariant
                load(module@, views(list@)) == load(self@, views(entries@)),
            decreases list@.len(),
        {
            let ghost before = module@;
            let ghost all = views(list@);
            let entry = match list.pop_front() {
                Some(entry) => entry,
                None => return Progress::Loaded(module),
            };
            assert(all[0] == entry@);
            assert(views(list@) =~= all.drop_first());
            let entry = match entry {
                Entry::Failed(error) => return Progress::Failed(error),
                Entry::Custom(range, name, data) => {
                    if same_text(name, INTERFACE_SECTION_NAME) {
                        if module.interface.is_some() {
                            return Progress::Failed(Error::MultipleInterfaces);
                        }
                        return match utf8_text(data) {
                            Ok(source) => Progress::Waiting(
                                Pending { module, source, range, rest: list },
                            ),
                            Err(reason) => Progress::Failed(Error::InterfaceText(reason)),
                        };
                    }
                    entry
                },
                _ => entry,
            };
            let (id, range) = section_of(&entry);
            if !is_within(range, module.bytes.len()) {
                return Progress::Truncated;
            }
            module.add_section(id, range);
            match entry {
                Entry::Types(_, types) => {
                    let mut types = types;
                    proof {
                        lemma_views_add(module.types@, types@);
                    }
                    module.types.append(&mut types);
                },
                Entry::Imports(_, imports) => {
                    let mut imports = imports;
                    proof {
                        lemma_views_add(module.imports@, imports@);
                    }
                    module.imports.append(&mut imports);
                },
                Entry::Functions(_, functions) => {
                    let mut functions = functions;
                    module.functions.append(&mut functions);
                },
                Entry::Exports(_, exports) => {
                    let mut exports = exports;
                    proof {
                        lemma_views_add(module.exports@, exports@);
                    }
                    module.exports.append(&mut exports);
                },
                _ => {},
            }
            assert(module@ =~= before.with_entry(all[0]));
        }
    }
}

/// Whether the result of loading a module is what the loading has come to.
pub open spec fn loads_to(r: Result<Loading<'_>, Error>, outcome: Outcome) -> bool {
    match outcome {
        Outcome::Loaded(view) => r matches Ok(Loading::Ready(module)) && module@ == view,
        Outcome::Waiting(view) => r matches Ok(Loading::Waiting(pending)) && pending@ == view,
        Outcome::Failed(view) => r matches Err(error) && error@ == view,
        Outcome::Truncated => false,
    }
}

impl<'a> Module<'a> {
    /// A module of which nothing has been read.
    fn unread(name: &'a str, bytes: &'a [u8]) -> (r: Self)
        ensures
            r@ == ModuleView::unread(name@, bytes@),
    {
        let r = Module {
            name,
            bytes,
            types: Vec::new(),
            imports: Vec::new(),
            exports: Vec::new(),
            functions: Vec::new(),
            sections: Vec::new(),
            interface: None,
        };
        assert(r@ =~= ModuleView::unread(name@, bytes@));
        r
    }

    /// Constructs a new WebAssembly module from a name and the module's bytes.
    ///
    /// Where the module contains the definition of an interface, loading stops
    /// there and goes on with [`Pending::resume`], when the definition has been
    /// parsed. The code section must not reach past the end of the bytes, and
    /// there must be room for the lengths that the module announces.
    pub fn new(name: &'a str, bytes: &'a [u8]) -> (r: Result<Loading<'a>, Error>)
        requires
            readable(bytes@),
            !truncated(entries(bytes@), bytes@.len()),
        ensures
            loads_to(r, load(ModuleView::unread(name@, bytes@), entries(bytes@))),
            framed(bytes@, entries(bytes@)),
            r matches Ok(Loading::Ready(module)) ==> module@.encodable(),
            r matches Ok(Loading::Waiting(pending)) ==> pending@.sound(),
    {
        Self::from_entries(name, bytes, read_entries(bytes))
    }

    /// Constructs a new WebAssembly module as [`Module::new`] does, where the
    /// code section does not reach past the end of the bytes and there is room for
    /// the lengths that the module announces, and gives nothing where either is
    /// not so.
    pub fn new_checked(name: &'a str, bytes: &'a [u8]) -> (r: Option<Result<Loading<'a>, Error>>)
        ensures
            match r {
                Some(result) => {
                    &&& readable(bytes@)
                    &&& !truncated(entries(bytes@), bytes@.len())
                    &&& loads_to(result, load(ModuleView::unread(name@, bytes@), entries(bytes@)))
                    &&& framed(bytes@, entries(bytes@))
                },
                None => !readable(bytes@) || truncated(entries(bytes@), bytes@.len()),
            },
            r matches Some(Ok(Loading::Ready(module))) ==> module@.encodable(),
            r matches Some(Ok(Loading::Waiting(pending))) ==> pending@.sound(),
    {
        match read_entries_checked(bytes) {
            Some(list) => {
                if is_truncated(&list, bytes.len()) {
                    None
                } else {
                    Some(Self::new(name, bytes))
                }
            },
            None => None,
        }
    }

    /// Constructs a new WebAssembly module from the entries of its binary.
    pub fn from_entries(name: &'a str, bytes: &'a [u8], list: VecDeque<Entry<'a>>) -> (r: Result<
        Loading<'a>,
        Error,
    >)
        requires
            !truncated(views(list@), bytes@.len()),
        ensures
            loads_to(r, load(ModuleView::unread(name@, bytes@), views(list@))),
            sound(views(list@), bytes@.len()) ==> {
                &&& r matches Ok(Loading::Ready(module)) ==> module@.encodable()
                &&& r matches Ok(Loading::Waiting(pending)) ==> pending@.sound()
            },
    {
        proof {
            let unread = ModuleView::unread(name@, bytes@);
            lemma_load_truncated(unread, views(list@));
            if sound(views(list@), bytes@.len()) {
                lemma_load_encodable(unread, views(list@));
            }
        }
        match Self::unread(name, bytes).load(list) {
            Progress::Loaded(module) => Ok(Loading::Ready(module)),
            Progress::Waiting(pending) => Ok(Loading::Waiting(pending)),
            Progress::Failed(error) => Err(error),
            Progress::Truncated => unreached(),
        }
    }
}

/// Whether the result of resuming is what the loading has come to.
pub open spec fn resumes_to(
    r: Result<Module<'_>, Error>,
    pending: PendingView,
    parsed: Result<Definition, String>,
) -> bool {
    match parsed {
        Ok(definition) => match pending.resumed(definition) {
            Outcome::Loaded(view) => r matches Ok(module) && module@ == view,
            Outcome::Failed(view) => r matches Err(error) && error@ == view,
            _ => false,
        },
        Err(reason) => r matches Err(error) && error@ == ErrorView::InterfaceDefinition(reason@),
    }
}

impl<'a> Pending<'a> {
    /// Goes on loading the module, given what parsing the definition of its
    /// interface has come to: the definition, or why it is refused. Where it is
    /// not refused, the code section must not reach past the end of the bytes.
    pub fn resume(self, parsed: Result<Definition, String>) -> (r: Result<Module<'a>, Error>)
        requires
            parsed matches Ok(definition) ==> definition.valid(),
            parsed is Ok ==> !self@.truncated(),
        ensures
            resumes_to(r, self@, parsed),
            self@.sound() ==> (r matches Ok(module) ==> module@.encodable()),
    {
        let ghost before = self@;
        let interface = match Interface::parse(parsed) {
            Ok(interface) => interface,
            Err(error) => return Err(error),
        };
        let Pending { module, source: _, range, rest } = self;
        let mut module = module;
        module.interface = Some(interface);
        module.add_section(SectionId::Custom, range);
        proof {
            let definition = interface.definition();
            assert(module@ =~= before.module.with_interface(definition).with_section(
                SectionId::Custom,
                range,
            ));
            lemma_load_truncated(module@, views(rest@));
            lemma_load_with_interface(module@, views(rest@));
            if before.sound() {
                lemma_load_encodable(module@, views(rest@));
            }
        }
        match module.load(rest) {
            Progress::Loaded(module) => Ok(module),
            Progress::Failed(error) => Err(error),
            Progress::Waiting(_) | Progress::Truncated => unreached(),
        }
    }

    /// Goes on loading the module as [`Pending::resume`] does, where the code
    /// section does not reach past the end of the bytes, and gives nothing where
    /// it does.
    pub fn resume_checked(self, parsed: Result<Definition, String>) -> (r: Option<
        Result<Module<'a>, Error>,
    >)
        requires
            parsed matches Ok(definition) ==> definition.valid(),
        ensures
            match r {
                Some(result) => resumes_to(result, self@, parsed),
                None => parsed is Ok && self@.truncated(),
            },
            self@.sound() ==> (r matches Some(Ok(module)) ==> module@.encodable()),
    {
        let len = self.module.bytes.len();
        if parsed.is_ok() && (!is_within(self.range, len) || is_truncated(&self.rest, len)) {
            None
        } else {
            Some(self.resume(parsed))
        }
    }
}

/// The function type at a position of the type section.
pub open spec fn type_at(types: Seq<TypeDefView>, index: u32) -> Option<FuncTypeView> {
    if index < types.len() {
        match types[index as int] {
            TypeDefView::Func(ty) => Some(ty),
            _ => None,
        }
    } else {
        None
    }
}

/// The first export with the given name.
pub open spec fn find_export(exports: Seq<ExportView>, field: Option<Seq<char>>) -> Option<
    ExportView,
>
    decreases exports.len(),
{
    if exports.len() == 0 {
        None
    } else if field == Some(exports[0].field) {
        Some(exports[0])
    } else {
        find_export(exports.drop_first(), field)
    }
}

impl ModuleView {
    /// The type of the function with the given index, where imports come
    /// before the functions of the module.
    pub open spec fn function_type(self, index: u32) -> Option<FuncTypeView> {
        if index < self.imports.len() {
            self.import_type(self.imports[index as int].ty)
        } else if index - self.imports.len() < self.functions.len() {
            type_at(self.types, self.functions[index - self.imports.len()])
        } else {
            None
        }
    }

    /// The type of a function that is imported.
    pub open spec fn import_type(self, ty: ImportType) -> Option<FuncTypeView> {
        match ty {
            ImportType::Function(index) => type_at(self.types, index),
            _ => None,
        }
    }

    /// Whether there are words for what resolving an import speaks of. There
    /// are none for event imports, nor for event and type exports.
    pub open spec fn resolvable(self, import: ImportView) -> bool {
        match find_export(self.exports, import.field) {
            None => !(import.ty is Event),
            Some(export) => {
                ||| self.interface matches Some(definition) && find_function(
                    definition.functions@,
                    import.field_name(),
                ) is None
                ||| !(import.ty is Event) && !(export.kind is Event) && !(export.kind is Type)
            },
        }
    }

    /// Whether this module meets an import of another one, and why not.
    ///
    /// Where this module has an interface, the type of a function is the one
    /// with which the interface lets it be imported, not its own.
    pub open spec fn resolution(self, import: ImportView, importer: ModuleView) -> Result<
        (),
        ErrorView,
    > {
        match find_export(self.exports, import.field) {
            None => Err(
                ErrorView::MissingExport {
                    module: self.name,
                    ty: import.ty,
                    field: import.field_name(),
                },
            ),
            Some(export) => match self.interface {
                None => self.match_types(
                    import,
                    importer,
                    export,
                    self.function_type(export.index),
                ),
                Some(definition) => match find_function(
                    definition.functions@,
                    import.field_name(),
                ) {
                    None => Err(
                        ErrorView::MissingFunction {
                            module: self.name,
                            field: import.field_name(),
                        },
                    ),
                    Some(function) => self.match_types(
                        import,
                        importer,
                        export,
                        Some(signature_type(function.import_signature)),
                    ),
                },
            },
        }
    }

    /// Whether an export of this module, with the given function type, meets
    /// an import of another one, and why not.
    pub open spec fn match_types(
        self,
        import: ImportView,
        importer: ModuleView,
        export: ExportView,
        ty: Option<FuncTypeView>,
    ) -> Result<(), ErrorView> {
        match (import.ty, export.kind) {
            (ImportType::Function(_), ExternalKind::Function) => {
                if ty is Some && importer.import_type(import.ty) == ty {
                    Ok(())
                } else {
                    Err(
                        ErrorView::IncompatibleTypes {
                            importer: importer.name,
                            field: import.field_name(),
                            exporter: self.name,
                        },
                    )
                }
            },
            (ImportType::Table, ExternalKind::Table)
            | (ImportType::Memory, ExternalKind::Memory)
            | (ImportType::Global, ExternalKind::Global)
            | (ImportType::Module(_), ExternalKind::Module)
            | (ImportType::Instance(_), ExternalKind::Instance) => Err(
                ErrorView::UnsupportedImport(import.ty),
            ),
            _ => Err(
                ErrorView::KindMismatch {
                    ty: import.ty,
                    field: import.field_name(),
                    module: self.name,
                    kind: export.kind,
                },
            ),
        }
    }
}

impl<'a> Module<'a> {
    /// Whether some function of the interface has to be adapted.
    pub fn must_adapt(&self) -> (r: bool)
        ensures
            r == (self@.interface matches Some(definition) && definition.any_adapted()),
    {
        match &self.interface {
            Some(interface) => interface.must_adapt(),
            None => false,
        }
    }

    /// Whether the interface defines a resource.
    pub fn has_resources(&self) -> (r: bool)
        ensures
            r == (self@.interface matches Some(definition) && definition.any_own_resource()),
    {
        match &self.interface {
            Some(interface) => interface.has_resources(),
            None => false,
        }
    }

    /// Takes on the interface of a definition that stands apart from the
    /// module, given what parsing it has come to: the definition, or why it is
    /// refused. Says whether the interface has been taken on.
    ///
    /// If the module has an embedded interface definition, the other one is
    /// ignored.
    pub fn read_interface(&mut self, parsed: Result<Definition, String>) -> (r: Result<
        bool,
        Error,
    >)
        requires
            old(self).interface is None ==> (parsed matches Ok(definition) ==> definition.valid()),
        ensures
            match (old(self).interface, parsed) {
                (Some(_), _) => r == Ok::<bool, Error>(false) && *final(self) == *old(self),
                (None, Ok(definition)) => {
                    &&& r == Ok::<bool, Error>(true)
                    &&& final(self)@ == old(self)@.with_interface(definition)
                },
                (None, Err(reason)) => {
                    &&& r matches Err(error) && error@ == ErrorView::InterfaceDefinition(reason@)
                    &&& *final(self) == *old(self)
                },
            },
    {
        if self.interface.is_some() {
            return Ok(false);
        }
        match Interface::parse(parsed) {
            Ok(interface) => {
                self.interface = Some(interface);
                Ok(true)
            },
            Err(error) => Err(error),
        }
    }

    /// The function type at a position of the type section.
    fn type_at(&self, index: u32) -> (r: Option<&FuncType>)
        ensures
            match (r, type_at(self@.types, index)) {
                (Some(ty), Some(view)) => ty@ == view,
                (None, None) => true,
                _ => false,
            },
    {
        if (index as usize) < self.types.len() {
            match &self.types[index as usize] {
                TypeDef::Func(ty) => Some(ty),
                _ => None,
            }
        } else {
            None
        }
    }

    /// The type of the function with the given index, where imports come
    /// before the functions of the module.
    pub fn func_type(&self, index: u32) -> (r: Option<&FuncType>)
        ensures
            match (r, self@.function_type(index)) {
                (Some(ty), Some(view)) => ty@ == view,
                (None, None) => true,
                _ => false,
            },
    {
        let position = index as usize;
        let ty = if position < self.imports.len() {
            match self.imports[position].ty {
                ImportType::Function(ty) => ty,
                _ => return None,
            }
        } else if position - self.imports.len() < self.functions.len() {
            self.functions[position - self.imports.len()]
        } else {
            return None;
        };
        self.type_at(ty)
    }

    /// The type of a function that this module imports.
    pub fn import_func_type(&self, import: &Import<'_>) -> (r: Option<&FuncType>)
        ensures
            match (r, self@.import_type(import.ty)) {
                (Some(ty), Some(view)) => ty@ == view,
                (None, None) => true,
                _ => false,
            },
    {
        match import.ty {
            ImportType::Function(index) => self.type_at(index),
            _ => None,
        }
    }

    /// The first export with the given name.
    fn find_export(&self, field: Option<&str>) -> (r: Option<&Export<'a>>)
        ensures
            ({
                let name = match field {
                    Some(field) => Some(field@),
                    None => None,
                };
                match (r, find_export(self@.exports, name)) {
                    (Some(export), Some(view)) => export@ == view,
                    (None, None) => true,
                    _ => false,
                }
            }),
    {
        let ghost exports = self@.exports;
        let ghost name = match field {
            Some(field) => Some(field@),
            None => None,
        };
        assert(exports.skip(0) =~= exports);
        for i in 0..self.exports.len()
            invariant
                exports == views(self.exports@),
                name == match field {
                    Some(field) => Some(field@),
                    None => None,
                },
                find_export(exports, name) == find_export(exports.skip(i as int), name),
        {
            let export = &self.exports[i];
            assert(exports[i as int] == export@);
            assert(exports.skip(i as int).drop_first() =~= exports.skip(i + 1));
            if let Some(field) = field {
                if same_text(export.field, field) {
                    return Some(export);
                }
            }
        }
        None
    }

    /// Whether there are words for what resolving an import speaks of, so that
    /// [`Module::resolve_import`] can be called.
    pub fn is_resolvable(&self, import: &Import<'_>) -> (r: bool)
        ensures
            r == self@.resolvable(import@),
    {
        let event = match import.ty {
            ImportType::Event => true,
            _ => false,
        };
        let export = match self.find_export(import.field) {
            Some(export) => export,
            None => return !event,
        };
        if let Some(interface) = &self.interface {
            let field: &str = match import.field {
                Some(field) => field,
                None => "",
            };
            proof {
                reveal_strlit("");
                assert(field@ =~= import@.field_name());
            }
            if interface.lookup_info(field).is_none() {
                return true;
            }
        }
        match export.kind {
            ExternalKind::Event | ExternalKind::Type => false,
            _ => !event,
        }
    }

    /// Decides whether this module meets an import of another module.
    pub fn resolve_import(&self, import: &Import<'_>, module: &Module<'_>) -> (r: Result<
        (),
        Error,
    >)
        requires
            self@.resolvable(import@),
        ensures
            match (r, self@.resolution(import@, module@)) {
                (Ok(_), Ok(_)) => true,
                (Err(error), Err(view)) => error@ == view,
                _ => false,
            },
    {
        let field: &str = match import.field {
            Some(field) => field,
            None => "",
        };
        proof {
            reveal_strlit("");
            assert(field@ =~= import@.field_name());
        }
        let export = match self.find_export(import.field) {
            Some(export) => export,
            None => {
                return Err(
                    Error::MissingExport {
                        module: self.name.to_owned(),
                        ty: import.ty,
                        field: field.to_owned(),
                    },
                );
            },
        };

        // For adapted functions, resolve by the function's import type and not the actual wasm type
        let func_type: Option<&FuncType> = match &self.interface {
            Some(interface) => match interface.lookup_info(field) {
                Some(info) => Some(&info.import_type),
                None => {
                    return Err(
                        Error::MissingFunction {
                            module: self.name.to_owned(),
                            field: field.to_owned(),
                        },
                    );
                },
            },
            None => self.func_type(export.index),
        };

        match (import.ty, export.kind) {
            (ImportType::Function(_), ExternalKind::Function) => {
                let compatible = match (module.import_func_type(import), func_type) {
                    (Some(imported), Some(exported)) => exported.same(imported),
                    _ => false,
                };
                if compatible {
                    Ok(())
                } else {
                    Err(
                        Error::IncompatibleTypes {
                            importer: module.name.to_owned(),
                            field: field.to_owned(),
                            exporter: self.name.to_owned(),
                        },
                    )
                }
            },
            (ImportType::Table, ExternalKind::Table)
            | (ImportType::Memory, ExternalKind::Memory)
            | (ImportType::Global, ExternalKind::Global)
            | (ImportType::Module(_), ExternalKind::Module)
            | (ImportType::Instance(_), ExternalKind::Instance) => Err(
                Error::UnsupportedImport(import.ty),
            ),
            _ => Err(
                Error::KindMismatch {
                    ty: import.ty,
                    field: field.to_owned(),
                    module: self.name.to_owned(),
                    kind: export.kind,
                },
            ),
        }
    }

    /// Whether every section is short enough to be written, so that
    /// [`Module::encode`] can be called.
    pub fn is_encodable(&self) -> (r: bool)
        ensures
            r == self@.encodable(),
    {
        for i in 0..self.sections.len()
            invariant
                forall|j: int|
                    0 <= j < i ==> (#[trigger] self@.sections[j]).data.len() <= u32::MAX,
        {
            let section = &self.sections[i];
            assert(self@.sections[i as int] == section@);
            if section.data.len() > u32::MAX as usize {
                return false;
            }
        }
        true
    }

    /// Writes the sections of the module.
    pub fn encode(&self) -> (r: wasm_encoder::Module)
        requires
            self@.encodable(),
        ensures
            encoded_bytes(r) == preamble() + sections_bytes(self@.sections),
    {
        let mut module = new_module();
        let ghost sections = self@.sections;
        assert(sections.take(0) =~= Seq::empty());
        assert(encoded_bytes(module) =~= preamble() + sections_bytes(sections.take(0)));
        for i in 0..self.sections.len()
            invariant
                sections == views(self.sections@),
                self@.encodable(),
                sections == self@.sections,
                encoded_bytes(module) == preamble() + sections_bytes(sections.take(i as int)),
        {
            let section = &self.sections[i];
            assert(sections[i as int] == section@);
            assert(sections.take(i + 1).drop_last() =~= sections.take(i as int));
            write_section(&mut module, section);
            assert(encoded_bytes(module) =~= preamble() + sections_bytes(sections.take(i + 1)));
        }
        assert(sections.take(sections.len() as int) =~= sections);
        module
    }
}

} // verus!
