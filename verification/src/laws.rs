//! What holds across the parts of this crate.

use vstd::prelude::*;
use vstd::utf8::*;

use crate::binary::{next_payload, PayloadKind};
use crate::encoder::{headed, is_leb128, leb128, preamble, section_bytes, sections_bytes};
use crate::interface::{
    adapted, allocates, find_function, passes_list, signature_type, uses_memory, val_type,
};
use crate::module::{
    find_export, is_interface, load, truncated, ModuleView, Outcome, PendingView,
};
use crate::reader::{
    entries, entries_from, entry_section, framed, framed_entry, header_offset, readable,
    readable_from, sound, sound_entry, step, EntryView, Place, StepView,
};
use crate::room::{
    leading_u32, lemma_data_fits, lemma_leading, lemma_payload_fits, lemma_small_numbers_part,
    small_numbers,
};
use crate::wasm::{
    section_code, ExportView, FuncTypeView, ImportView, Range, RawSectionView, SectionId,
    TypeDefView,
};
use crate::witx::{Definition, WasmSignature, WasmType};

verus! {

/// The section that an entry stands for, with its contents.
pub open spec fn raw_section(bytes: Seq<u8>, entry: EntryView) -> RawSectionView {
    let (id, range) = entry_section(entry);
    RawSectionView {
        id: section_code(id),
        data: bytes.subrange(range.start as int, range.end as int),
    }
}

/// The sections that entries stand for, with their contents.
pub open spec fn raw_sections(bytes: Seq<u8>, list: Seq<EntryView>) -> Seq<RawSectionView> {
    list.map_values(|entry: EntryView| raw_section(bytes, entry))
}

/// The types that entries list.
pub open spec fn all_types(list: Seq<EntryView>) -> Seq<TypeDefView>
    decreases list.len(),
{
    if list.len() == 0 {
        Seq::empty()
    } else {
        (match list[0] {
            EntryView::Types(_, types) => types,
            _ => Seq::empty(),
        }) + all_types(list.drop_first())
    }
}

/// The imports that entries list.
pub open spec fn all_imports(list: Seq<EntryView>) -> Seq<ImportView>
    decreases list.len(),
{
    if list.len() == 0 {
        Seq::empty()
    } else {
        (match list[0] {
            EntryView::Imports(_, imports) => imports,
            _ => Seq::empty(),
        }) + all_imports(list.drop_first())
    }
}

/// The functions that entries list.
pub open spec fn all_functions(list: Seq<EntryView>) -> Seq<u32>
    decreases list.len(),
{
    if list.len() == 0 {
        Seq::empty()
    } else {
        (match list[0] {
            EntryView::Functions(_, functions) => functions,
            _ => Seq::empty(),
        }) + all_functions(list.drop_first())
    }
}

/// The exports that entries list.
pub open spec fn all_exports(list: Seq<EntryView>) -> Seq<ExportView>
    decreases list.len(),
{
    if list.len() == 0 {
        Seq::empty()
    } else {
        (match list[0] {
            EntryView::Exports(_, exports) => exports,
            _ => Seq::empty(),
        }) + all_exports(list.drop_first())
    }
}

/// What is loaded from entries is behind what was there before, and each entry
/// has contributed.
pub open spec fn extends(loaded: ModuleView, module: ModuleView, list: Seq<EntryView>) -> bool {
    &&& loaded.name == module.name
    &&& loaded.bytes == module.bytes
    &&& loaded.types == module.types + all_types(list)
    &&& loaded.imports == module.imports + all_imports(list)
    &&& loaded.functions == module.functions + all_functions(list)
    &&& loaded.exports == module.exports + all_exports(list)
    &&& loaded.sections == module.sections + raw_sections(module.bytes, list)
    &&& forall|i: int|
        0 <= i < list.len() ==> {
            &&& !((#[trigger] list[i]) is Failed)
            &&& entry_section(list[i]).1.within(module.bytes.len())
        }
}

/// What a whole list contributes, from what its first entry and the others do.
proof fn lemma_extends_step(
    loaded: ModuleView,
    module: ModuleView,
    list: Seq<EntryView>,
)
    requires
        list.len() > 0,
        !(list[0] is Failed),
        entry_section(list[0]).1.within(module.bytes.len()),
        extends(loaded, module.with_entry(list[0]), list.drop_first()),
    ensures
        extends(loaded, module, list),
{
    let rest = list.drop_first();
    let next = module.with_entry(list[0]);
    assert(raw_sections(module.bytes, list) =~= seq![raw_section(module.bytes, list[0])]
        + raw_sections(module.bytes, rest));
    assert(loaded.sections =~= module.sections + raw_sections(module.bytes, list));
    assert(loaded.types =~= module.types + all_types(list));
    assert(loaded.imports =~= module.imports + all_imports(list));
    assert(loaded.functions =~= module.functions + all_functions(list));
    assert(loaded.exports =~= module.exports + all_exports(list));
    assert forall|i: int| 0 <= i < list.len() implies {
        &&& !((#[trigger] list[i]) is Failed)
        &&& entry_section(list[i]).1.within(module.bytes.len())
    } by {
        if i > 0 {
            assert(list[i] == rest[i - 1]);
        }
    }
}

/// Every module that is loaded holds what all entries contribute, in their
/// order: the sections as they stand in the bytes, and what the sections list.
/// No entry is left out, and none of them is a failure.
///
/// None of the entries is the definition of an interface, unless the module had
/// no interface and waits for one.
pub proof fn law_everything_is_kept(module: ModuleView, list: Seq<EntryView>)
    ensures
        match load(module, list) {
            Outcome::Loaded(loaded) => {
                &&& extends(loaded, module, list)
                &&& loaded.interface == module.interface
                &&& forall|i: int| 0 <= i < list.len() ==> !is_interface(#[trigger] list[i])
            },
            Outcome::Waiting(pending) => {
                let count = list.len() - pending.rest.len() - 1;
                &&& 0 <= count
                &&& extends(pending.module, module, list.take(count))
                &&& pending.module.interface is None
                &&& is_interface(list[count])
                &&& entry_section(list[count]) == (SectionId::Custom, pending.range)
                &&& list[count] matches EntryView::Custom(_, _, data) && valid_utf8(data)
                    && pending.source == decode_utf8(data)
                &&& pending.rest == list.skip(count + 1)
                &&& forall|i: int| 0 <= i < count ==> !is_interface(#[trigger] list[i])
            },
            _ => true,
        },
    decreases list.len(),
{
    if list.len() == 0 {
        assert(extends(module, module, list)) by {
            assert(module.sections =~= module.sections + raw_sections(module.bytes, list));
        }
    } else {
        let rest = list.drop_first();
        let entry = list[0];
        if entry is Failed {
        } else if is_interface(entry) {
            if load(module, list) is Waiting {
                assert(list.take(0) =~= Seq::empty());
                assert(raw_sections(module.bytes, list.take(0)) =~= Seq::empty());
                assert(extends(module, module, list.take(0)));
                assert(rest =~= list.skip(1));
            }
        } else if entry_section(entry).1.within(module.bytes.len()) {
            let next = module.with_entry(entry);
            law_everything_is_kept(next, rest);
            match load(module, list) {
                Outcome::Loaded(loaded) => {
                    lemma_extends_step(loaded, module, list);
                    assert forall|i: int| 0 <= i < list.len() implies !is_interface(
                        #[trigger] list[i],
                    ) by {
                        if i > 0 {
                            assert(list[i] == rest[i - 1]);
                        }
                    }
                },
                Outcome::Waiting(pending) => {
                    let count = list.len() - pending.rest.len() - 1;
                    let front = list.take(count);
                    assert(front.drop_first() =~= rest.take(count - 1));
                    assert(front[0] == entry);
                    lemma_extends_step(pending.module, module, front);
                    assert(list[count] == rest[count - 1]);
                    assert(list.skip(count + 1) =~= rest.skip(count));
                    assert forall|i: int| 0 <= i < count implies !is_interface(
                        #[trigger] list[i],
                    ) by {
                        if i > 0 {
                            assert(list[i] == rest[i - 1]);
                        }
                    }
                },
                _ => {},
            }
        }
    }
}

/// What a module holds whose embedded interface was parsed: what all entries
/// contribute, the section with the definition of the interface among them, and
/// that interface. It is the only one: a module with a second definition of an
/// interface is never loaded.
pub proof fn law_interface_is_embedded_once(
    name: Seq<char>,
    bytes: Seq<u8>,
    list: Seq<EntryView>,
    pending: PendingView,
    definition: Definition,
    loaded: ModuleView,
)
    requires
        load(ModuleView::unread(name, bytes), list) == Outcome::Waiting(pending),
        pending.resumed(definition) == Outcome::Loaded(loaded),
    ensures
        extends(loaded, ModuleView::unread(name, bytes), list),
        loaded.interface == Some(definition),
        exists|k: int|
            0 <= k < list.len() && #[trigger] is_interface(list[k]) && forall|i: int|
                0 <= i < list.len() && i != k ==> !is_interface(#[trigger] list[i]),
{
    let unread = ModuleView::unread(name, bytes);
    law_everything_is_kept(unread, list);
    let count = list.len() - pending.rest.len() - 1;
    let front = list.take(count);
    let entry = list[count];
    let module = pending.module.with_interface(definition).with_section(
        SectionId::Custom,
        pending.range,
    );
    law_everything_is_kept(module, pending.rest);
    lemma_all_add(front, pending.rest, entry);
    assert(list =~= front.push(entry) + pending.rest);
    assert(raw_sections(bytes, list) =~= raw_sections(bytes, front).push(raw_section(bytes, entry))
        + raw_sections(bytes, pending.rest));
    assert(loaded.sections =~= unread.sections + raw_sections(bytes, list));
    assert(loaded.types =~= unread.types + all_types(list));
    assert(loaded.imports =~= unread.imports + all_imports(list));
    assert(loaded.functions =~= unread.functions + all_functions(list));
    assert(loaded.exports =~= unread.exports + all_exports(list));
    assert forall|i: int| 0 <= i < list.len() implies {
        &&& !((#[trigger] list[i]) is Failed)
        &&& entry_section(list[i]).1.within(bytes.len())
        &&& i != count ==> !is_interface(list[i])
    } by {
        if i < count {
            assert(list[i] == front[i]);
        } else if i > count {
            assert(list[i] == pending.rest[i - count - 1]);
        }
    }
    assert(is_interface(list[count]));
}

/// What two lists with a custom section between them contribute.
proof fn lemma_all_add(front: Seq<EntryView>, rest: Seq<EntryView>, entry: EntryView)
    requires
        entry is Custom,
    ensures
        all_types(front.push(entry) + rest) == all_types(front) + all_types(rest),
        all_imports(front.push(entry) + rest) == all_imports(front) + all_imports(rest),
        all_functions(front.push(entry) + rest) == all_functions(front) + all_functions(rest),
        all_exports(front.push(entry) + rest) == all_exports(front) + all_exports(rest),
    decreases front.len(),
{
    let whole = front.push(entry) + rest;
    if front.len() == 0 {
        assert(whole.drop_first() =~= rest);
        assert(whole[0] == entry);
    } else {
        assert(whole.drop_first() =~= front.drop_first().push(entry) + rest);
        assert(whole[0] == front[0]);
        lemma_all_add(front.drop_first(), rest, entry);
    }
    assert(all_types(whole) =~= all_types(front) + all_types(rest));
    assert(all_imports(whole) =~= all_imports(front) + all_imports(rest));
    assert(all_functions(whole) =~= all_functions(front) + all_functions(rest));
    assert(all_exports(whole) =~= all_exports(front) + all_exports(rest));
}

/// A failure ends the list of the entries of a binary, and there are words for
/// it.
pub proof fn law_failure_is_last(bytes: Seq<u8>, i: int)
    requires
        0 <= i < entries(bytes).len(),
    ensures
        entries(bytes)[i] matches EntryView::Failed(error) ==> i == entries(bytes).len() - 1
            && error.has_message(),
{
    lemma_failure_is_last(bytes, 0, i);
}

/// A failure ends the entries that start at a position, and there are words for
/// it.
proof fn lemma_failure_is_last(bytes: Seq<u8>, position: nat, i: int)
    requires
        0 <= i < entries_from(bytes, position).len(),
    ensures
        entries_from(bytes, position)[i] matches EntryView::Failed(error) ==> i == entries_from(
            bytes,
            position,
        ).len() - 1 && error.has_message(),
    decreases bytes.len() - position,
{
    if let StepView::Next(entry, count) = step(bytes, position) {
        if 0 < count && position + count <= bytes.len() {
            let more = entries_from(bytes, position + count);
            match entry {
                None => lemma_failure_is_last(bytes, position + count, i),
                Some(_) => {
                    if i > 0 {
                        lemma_failure_is_last(bytes, position + count, i - 1);
                        assert(entries_from(bytes, position)[i] == more[i - 1]);
                    }
                },
            }
        }
    }
}

/// There are words for every reason why a binary is refused.
pub proof fn law_refused_binaries_have_messages(name: Seq<char>, bytes: Seq<u8>)
    ensures
        load(ModuleView::unread(name, bytes), entries(bytes)) matches Outcome::Failed(error)
            ==> error.has_message(),
        load(ModuleView::unread(name, bytes), entries(bytes)) matches Outcome::Waiting(pending)
            ==> forall|definition: Definition|
            (#[trigger] pending.resumed(definition)) matches Outcome::Failed(error)
                ==> error.has_message(),
{
    let unread = ModuleView::unread(name, bytes);
    let list = entries(bytes);
    assert forall|i: int| 0 <= i < list.len() implies ((#[trigger] list[i]) matches EntryView::Failed(
        error,
    ) ==> error.has_message()) by {
        law_failure_is_last(bytes, i);
    }
    lemma_failures_have_messages(unread, list);
    if let Outcome::Waiting(pending) = load(unread, list) {
        law_everything_is_kept(unread, list);
        assert forall|definition: Definition| true implies ((
        #[trigger] pending.resumed(definition)) matches Outcome::Failed(error)
            ==> error.has_message()) by {
            lemma_failures_have_messages(
                pending.module.with_interface(definition).with_section(
                    SectionId::Custom,
                    pending.range,
                ),
                pending.rest,
            );
        }
    }
}

/// Loading fails with what an entry says, or with words of its own.
proof fn lemma_failures_have_messages(module: ModuleView, list: Seq<EntryView>)
    requires
        forall|i: int|
            0 <= i < list.len() ==> ((#[trigger] list[i]) matches EntryView::Failed(error)
                ==> error.has_message()),
    ensures
        load(module, list) matches Outcome::Failed(error) ==> error.has_message(),
    decreases list.len(),
{
    if list.len() > 0 {
        lemma_failures_have_messages(module.with_entry(list[0]), list.drop_first());
    }
}

/// A binary can be read in which no number, wherever it starts, is too large to
/// be added to the length of the binary.
pub proof fn law_small_numbers_leave_room(bytes: Seq<u8>)
    requires
        small_numbers(bytes, bytes.len()),
    ensures
        readable(bytes),
{
    lemma_readable(bytes, Place::start());
}

/// Where an offset can be larger than the length of a binary by as much as a
/// `u32` can say, as it can where it has 64 bits, every binary can be read.
pub proof fn law_large_offsets_leave_room(bytes: Seq<u8>)
    requires
        bytes.len() + u32::MAX <= usize::MAX,
    ensures
        readable(bytes),
{
    assert forall|i: int|
        #![trigger bytes.skip(i)]
        0 <= i <= bytes.len() implies (leading_u32(bytes.skip(i)) matches Some((n, _))
        ==> bytes.len() + n <= usize::MAX) by {
        lemma_leading(bytes.skip(i), 5);
    }
    law_small_numbers_leave_room(bytes);
}

/// Small numbers leave room from any place on.
proof fn lemma_readable(bytes: Seq<u8>, place: Place)
    requires
        small_numbers(bytes, bytes.len()),
        place.position <= bytes.len(),
    ensures
        readable_from(bytes, place),
    decreases bytes.len() - place.position,
{
    let before = bytes.take(place.position as int);
    let rest = bytes.skip(place.position as int);
    lemma_payload_fits(bytes, place.position as nat, place.bodies as nat, place.end as nat);
    if let Ok((kind, count)) = next_payload(before, rest) {
        if let PayloadKind::Section(SectionId::Data, range) = kind {
            if range.within(bytes.len()) {
                lemma_small_numbers_part(
                    bytes,
                    range.start as int,
                    range.end as int,
                    bytes.len(),
                );
                lemma_data_fits(
                    bytes.subrange(range.start as int, range.end as int),
                    bytes.len(),
                );
            }
        }
        if 0 < count && place.position + count <= bytes.len() && bytes.len() <= usize::MAX {
            lemma_readable(bytes, place.behind(kind, count));
        }
    }
}

/// Where loading comes to a section that reaches past the end of the binary, it
/// is the code section.
pub proof fn law_only_code_is_cut_short(list: Seq<EntryView>, len: nat)
    requires
        sound(list, len),
        truncated(list, len),
    ensures
        exists|i: int|
            0 <= i < list.len() && entry_section(#[trigger] list[i]).0 == SectionId::Code
                && !entry_section(list[i]).1.within(len),
    decreases list.len(),
{
    assert(sound_entry(list[0], len));
    if entry_section(list[0]).1.within(len) {
        let rest = list.drop_first();
        assert forall|i: int| 0 <= i < rest.len() implies sound_entry(#[trigger] rest[i], len) by {
            assert(rest[i] == list[i + 1]);
        }
        law_only_code_is_cut_short(rest, len);
        let i = choose|i: int|
            0 <= i < rest.len() && entry_section(#[trigger] rest[i]).0 == SectionId::Code
                && !entry_section(rest[i]).1.within(len);
        assert(list[i + 1] == rest[i]);
    }
}

/// An adapter that allocates memory also uses memory, and only functions that
/// have to be adapted ask for either.
pub proof fn law_needs_are_nested(definition: Definition)
    ensures
        definition.any_allocates() ==> definition.any_uses_memory(),
        definition.any_uses_memory() ==> definition.any_adapted(),
{
    let functions = definition.functions@;
    let types = definition.types@;
    if definition.any_allocates() {
        let i = choose|i: int| 0 <= i < functions.len() && allocates(types, #[trigger] functions[i]);
        assert(uses_memory(types, functions[i]));
    }
    if definition.any_uses_memory() {
        let i = choose|i: int|
            0 <= i < functions.len() && uses_memory(types, #[trigger] functions[i]);
        assert(adapted(functions[i]));
    }
}

/// A function that returns its results through memory, and one that is adapted
/// and passes a list, make their interface need memory, and the latter also the
/// means to allocate it.
pub proof fn law_one_function_is_enough(definition: Definition, i: int)
    requires
        0 <= i < definition.functions@.len(),
    ensures
        definition.functions@[i].import_signature.retptr is Some ==> definition.any_uses_memory(),
        adapted(definition.functions@[i]) && passes_list(definition.types@, definition.functions@[i])
            ==> definition.any_uses_memory() && definition.any_allocates(),
{
    let function = definition.functions@[i];
    if adapted(function) && passes_list(definition.types@, function) {
        assert(allocates(definition.types@, function));
        assert(uses_memory(definition.types@, function));
    }
    if function.import_signature.retptr is Some {
        assert(uses_memory(definition.types@, function));
    }
}

/// Two signatures amount to the same function type if and only if they have
/// the same parameters and results.
pub proof fn law_types_tell_signatures_apart(a: WasmSignature, b: WasmSignature)
    ensures
        signature_type(a) == signature_type(b) <==> a.params@ == b.params@ && a.results@
            == b.results@,
{
    if signature_type(a) == signature_type(b) {
        lemma_val_types_tell_apart(a.params@, b.params@);
        lemma_val_types_tell_apart(a.results@, b.results@);
    }
}

/// Lists of types are the same where the WebAssembly types are.
proof fn lemma_val_types_tell_apart(a: Seq<WasmType>, b: Seq<WasmType>)
    requires
        a.map_values(|ty: WasmType| val_type(ty)) == b.map_values(|ty: WasmType| val_type(ty)),
    ensures
        a == b,
{
    let x = a.map_values(|ty: WasmType| val_type(ty));
    let y = b.map_values(|ty: WasmType| val_type(ty));
    assert(x.len() == a.len());
    assert(y.len() == b.len());
    assert(a.len() == b.len());
    assert forall|i: int| 0 <= i < a.len() implies a[i] == b[i] by {
        assert(x[i] == val_type(a[i]));
        assert(y[i] == val_type(b[i]));
    }
    assert(a =~= b);
}

/// The export that an import is resolved to is the first one with its name; an
/// import without a name is resolved to none.
pub proof fn law_first_export(exports: Seq<ExportView>, field: Option<Seq<char>>)
    ensures
        match find_export(exports, field) {
            Some(export) => exists|i: int|
                0 <= i < exports.len() && #[trigger] exports[i] == export && field == Some(
                    export.field,
                ) && forall|j: int| 0 <= j < i ==> field != Some((#[trigger] exports[j]).field),
            None => forall|j: int|
                0 <= j < exports.len() ==> field != Some((#[trigger] exports[j]).field),
        },
    decreases exports.len(),
{
    if exports.len() > 0 {
        let rest = exports.drop_first();
        if field == Some(exports[0].field) {
            assert(exports[0] == find_export(exports, field)->0);
        } else {
            law_first_export(rest, field);
            match find_export(rest, field) {
                Some(export) => {
                    let i = choose|i: int|
                        0 <= i < rest.len() && #[trigger] rest[i] == export && field == Some(
                            export.field,
                        ) && forall|j: int| 0 <= j < i ==> field != Some(
                            (#[trigger] rest[j]).field,
                        );
                    assert(exports[i + 1] == export);
                    assert forall|j: int| 0 <= j < i + 1 implies field != Some(
                        (#[trigger] exports[j]).field,
                    ) by {
                        if j > 0 {
                            assert(exports[j] == rest[j - 1]);
                        }
                    }
                },
                None => {
                    assert forall|j: int| 0 <= j < exports.len() implies field != Some(
                        (#[trigger] exports[j]).field,
                    ) by {
                        if j > 0 {
                            assert(exports[j] == rest[j - 1]);
                        }
                    }
                },
            }
        }
    }
}

/// The type with which an export of a module is imported: for a module with an
/// interface the one that the interface gives it, and otherwise its own.
pub open spec fn offered_type(
    exporter: ModuleView,
    import: ImportView,
    export: ExportView,
) -> Option<FuncTypeView> {
    match exporter.interface {
        None => exporter.function_type(export.index),
        Some(definition) => match find_function(definition.functions@, import.field_name()) {
            Some(function) => Some(signature_type(function.import_signature)),
            None => None,
        },
    }
}

/// An import is met if and only if a function is asked for, a function of that
/// name is exported, and both have the same, known type.
pub proof fn law_only_equal_functions_match(
    exporter: ModuleView,
    import: ImportView,
    importer: ModuleView,
)
    ensures
        exporter.resolution(import, importer) is Ok <==> {
            &&& import.ty is Function
            &&& find_export(exporter.exports, import.field) matches Some(export) && {
                &&& export.kind is Function
                &&& importer.import_type(import.ty) is Some
                &&& importer.import_type(import.ty) == offered_type(exporter, import, export)
            }
        },
{
}

/// Where a module has an interface, neither its own types, imports, functions
/// nor its sections have a say in whether an import is met.
pub proof fn law_interface_decides(
    a: ModuleView,
    b: ModuleView,
    import: ImportView,
    importer: ModuleView,
)
    requires
        a.interface is Some,
        a.interface == b.interface,
        a.exports == b.exports,
        a.name == b.name,
    ensures
        a.resolution(import, importer) == b.resolution(import, importer),
        a.resolvable(import) == b.resolvable(import),
{
}

/// There are words for every reason why an import is not met.
pub proof fn law_unmet_imports_have_messages(
    exporter: ModuleView,
    import: ImportView,
    importer: ModuleView,
)
    requires
        exporter.resolvable(import),
    ensures
        exporter.resolution(import, importer) matches Err(error) ==> error.has_message(),
{
}

/// Whether a module is loaded from the entries of its binary, with the interface
/// that it contains, where it contains one.
pub open spec fn loads_as(
    name: Seq<char>,
    bytes: Seq<u8>,
    list: Seq<EntryView>,
    interface: Option<Definition>,
    loaded: ModuleView,
) -> bool {
    match (load(ModuleView::unread(name, bytes), list), interface) {
        (Outcome::Loaded(module), None) => module == loaded,
        (Outcome::Waiting(pending), Some(definition)) => pending.resumed(definition)
            == Outcome::Loaded(loaded),
        _ => false,
    }
}

/// A module that is loaded holds what all entries contribute, and the
/// interface.
pub proof fn lemma_loads_as(
    name: Seq<char>,
    bytes: Seq<u8>,
    list: Seq<EntryView>,
    interface: Option<Definition>,
    loaded: ModuleView,
)
    requires
        loads_as(name, bytes, list, interface, loaded),
    ensures
        extends(loaded, ModuleView::unread(name, bytes), list),
        loaded.interface == interface,
        loaded.sections == raw_sections(bytes, list),
{
    let unread = ModuleView::unread(name, bytes);
    law_everything_is_kept(unread, list);
    if let Outcome::Waiting(pending) = load(unread, list) {
        law_interface_is_embedded_once(name, bytes, list, pending, interface->0, loaded);
    }
    assert(loaded.sections =~= raw_sections(bytes, list));
}

/// What is written of a module that was loaded is the contents of the sections
/// of its binary, in their order, whether or not it had to wait for an
/// interface.
pub proof fn law_encoding_copies_sections(
    name: Seq<char>,
    bytes: Seq<u8>,
    list: Seq<EntryView>,
    interface: Option<Definition>,
    loaded: ModuleView,
)
    requires
        loads_as(name, bytes, list, interface, loaded),
    ensures
        loaded.name == name,
        loaded.bytes == bytes,
        preamble() + sections_bytes(loaded.sections) == preamble() + sections_bytes(
            raw_sections(bytes, list),
        ),
{
    lemma_loads_as(name, bytes, list, interface, loaded);
}

/// Whether the header of each section says the length of its contents in as few
/// bytes as it takes.
pub open spec fn shortest_headers(list: Seq<EntryView>) -> bool {
    forall|i: int|
        0 <= i < list.len() ==> {
            let range = entry_section(list[i]).1;
            range.start - #[trigger] header_offset(list, i) == 1 + leb128(
                (range.end - range.start) as nat,
            ).len()
        }
}

/// Writing a module undoes loading it: what is written is the binary that it was
/// loaded from, where the headers of its sections are as short as they can be.
pub proof fn law_encoding_undoes_loading(
    name: Seq<char>,
    bytes: Seq<u8>,
    list: Seq<EntryView>,
    interface: Option<Definition>,
    loaded: ModuleView,
)
    requires
        loads_as(name, bytes, list, interface, loaded),
        framed(bytes, list),
        shortest_headers(list),
    ensures
        preamble() + sections_bytes(loaded.sections) == bytes,
{
    lemma_loads_as(name, bytes, list, interface, loaded);
    let count = list.len() as int;
    if count > 0 {
        assert(list[count - 1] == list.last());
    }
    lemma_sections_make_up_bytes(bytes, list, count);
    assert(list.take(count) =~= list);
    assert(bytes.take(bytes.len() as int) =~= bytes);
}

/// The bytes up to the end of a section are those up to its header, and then
/// those that stand for the section.
proof fn lemma_section_ends(bytes: Seq<u8>, position: nat, code: u8, range: Range)
    requires
        position <= bytes.len(),
        range.within(bytes.len()),
        headed(bytes.skip(position as int), position, code, range),
        range.start - position == 1 + leb128((range.end - range.start) as nat).len(),
    ensures
        bytes.take(range.end as int) == bytes.take(position as int) + section_bytes(
            (RawSectionView {
                id: code,
                data: bytes.subrange(range.start as int, range.end as int),
            }),
        ),
{
    let data = bytes.subrange(range.start as int, range.end as int);
    let size = bytes.subrange(position as int + 1, range.start as int);
    assert(bytes.skip(position as int).subrange(1, range.start - position) =~= size);
    lemma_shortest_leb128(size, data.len());
    assert(bytes[position as int] == code);
    let header = seq![code] + size;
    assert(bytes.subrange(position as int, range.start as int) =~= header);
    assert(bytes.take(range.end as int) =~= bytes.take(position as int) + bytes.subrange(
        position as int,
        range.start as int,
    ) + data);
    assert(bytes.take(position as int) + header + data =~= bytes.take(position as int) + (header
        + data));
}

/// The preamble and the first sections make up the bytes before the next one.
proof fn lemma_sections_make_up_bytes(bytes: Seq<u8>, list: Seq<EntryView>, count: int)
    requires
        framed(bytes, list),
        shortest_headers(list),
        forall|i: int|
            0 <= i < list.len() ==> {
                &&& !((#[trigger] list[i]) is Failed)
                &&& entry_section(list[i]).1.within(bytes.len())
            },
        bytes.len() >= preamble().len(),
        bytes.take(preamble().len() as int) == preamble(),
        0 <= count <= list.len(),
    ensures
        preamble() + sections_bytes(raw_sections(bytes, list.take(count))) == bytes.take(
            header_offset(list, count) as int,
        ),
    decreases count,
{
    if count == 0 {
        assert(raw_sections(bytes, list.take(0)) =~= Seq::empty());
        assert(preamble() + sections_bytes(raw_sections(bytes, list.take(0))) =~= preamble());
    } else {
        let i = count - 1;
        lemma_sections_make_up_bytes(bytes, list, i);
        let (id, range) = entry_section(list[i]);
        let section = raw_section(bytes, list[i]);
        assert(framed_entry(bytes, header_offset(list, i), list[i]));
        lemma_section_ends(bytes, header_offset(list, i), section_code(id), range);
        let sections = raw_sections(bytes, list.take(count));
        assert(sections.drop_last() =~= raw_sections(bytes, list.take(i)));
        assert(sections.last() == section);
        assert(preamble() + sections_bytes(sections) =~= preamble() + sections_bytes(
            sections.drop_last(),
        ) + section_bytes(section));
    }
}

/// A number in the LEB128 notation that is as short as it can be.
proof fn lemma_shortest_leb128(bytes: Seq<u8>, n: nat)
    requires
        is_leb128(bytes, n),
        bytes.len() == leb128(n).len(),
    ensures
        bytes == leb128(n),
    decreases n,
{
    if n < 128 {
        assert(bytes =~= leb128(n));
    } else {
        assert(leb128(n).len() == 1 + leb128(n / 128).len());
        assert(leb128(n / 128).len() > 0);
        lemma_shortest_leb128(bytes.drop_first(), n / 128);
        assert(bytes =~= seq![bytes[0]] + bytes.drop_first());
    }
}

/// Whether two entries of two binaries say the same, and stand for sections with
/// the same contents, wherever these lie.
pub open spec fn same_entry(
    a_bytes: Seq<u8>,
    a: EntryView,
    b_bytes: Seq<u8>,
    b: EntryView,
) -> bool {
    &&& entry_section(b).1.within(b_bytes.len())
    &&& raw_section(a_bytes, a) == raw_section(b_bytes, b)
    &&& match (a, b) {
        (EntryView::Section(_, _), EntryView::Section(_, _)) => true,
        (EntryView::Types(_, x), EntryView::Types(_, y)) => x == y,
        (EntryView::Imports(_, x), EntryView::Imports(_, y)) => x == y,
        (EntryView::Functions(_, x), EntryView::Functions(_, y)) => x == y,
        (EntryView::Exports(_, x), EntryView::Exports(_, y)) => x == y,
        (EntryView::Custom(_, m, x), EntryView::Custom(_, n, y)) => m == n && x == y,
        _ => false,
    }
}

/// Whether the entries of a second binary are those of a first one, with one
/// more at position `k`.
pub open spec fn one_more(
    a_bytes: Seq<u8>,
    a: Seq<EntryView>,
    b_bytes: Seq<u8>,
    b: Seq<EntryView>,
    k: int,
) -> bool {
    &&& 0 <= k < b.len() == a.len() + 1
    &&& forall|i: int|
        0 <= i < a.len() ==> same_entry(
            a_bytes,
            #[trigger] a[i],
            b_bytes,
            b[if i < k {
                i
            } else {
                i + 1
            }],
        )
}

/// One more custom section, other than the definition of an interface and
/// wherever it is put, changes nothing of what is loaded but for the bytes and
/// the list of sections, which has that section at that place.
pub proof fn law_custom_section_adds_itself(
    name: Seq<char>,
    a_bytes: Seq<u8>,
    a: Seq<EntryView>,
    b_bytes: Seq<u8>,
    b: Seq<EntryView>,
    k: int,
    interface: Option<Definition>,
    loaded: ModuleView,
)
    requires
        loads_as(name, a_bytes, a, interface, loaded),
        one_more(a_bytes, a, b_bytes, b, k),
        b[k] is Custom,
        !is_interface(b[k]),
        entry_section(b[k]).1.within(b_bytes.len()),
    ensures
        loads_as(
            name,
            b_bytes,
            b,
            interface,
            (ModuleView {
                bytes: b_bytes,
                sections: loaded.sections.insert(k, raw_section(b_bytes, b[k])),
                ..loaded
            }),
        ),
        raw_section(b_bytes, b[k]).id == section_code(SectionId::Custom),
{
    let changed = ModuleView {
        bytes: b_bytes,
        sections: loaded.sections.insert(k, raw_section(b_bytes, b[k])),
        ..loaded
    };
    lemma_loads_as(name, a_bytes, a, interface, loaded);
    let unread = ModuleView::unread(name, b_bytes);
    law_everything_is_kept(ModuleView::unread(name, a_bytes), a);
    assert forall|j: int| 0 <= j < b.len() implies {
        &&& !((#[trigger] b[j]) is Failed)
        &&& entry_section(b[j]).1.within(b_bytes.len())
        &&& j < k ==> is_interface(b[j]) == is_interface(a[j])
        &&& j > k ==> is_interface(b[j]) == is_interface(a[j - 1])
    } by {
        if j < k {
            assert(same_entry(a_bytes, a[j], b_bytes, b[j]));
        } else if j > k {
            let i = j - 1;
            assert(same_entry(a_bytes, a[i], b_bytes, b[i + 1]));
        }
    }
    lemma_all_one_more(a_bytes, a, b_bytes, b, k);
    assert(raw_sections(b_bytes, b) =~= raw_sections(a_bytes, a).insert(
        k,
        raw_section(b_bytes, b[k]),
    )) by {
        assert forall|j: int| 0 <= j < b.len() implies raw_section(b_bytes, #[trigger] b[j])
            == raw_sections(a_bytes, a).insert(k, raw_section(b_bytes, b[k]))[j] by {
            if j < k {
                assert(same_entry(a_bytes, a[j], b_bytes, b[j]));
            } else if j > k {
                let i = j - 1;
                assert(same_entry(a_bytes, a[i], b_bytes, b[i + 1]));
            }
        }
    }
    match interface {
        None => {
            assert forall|j: int| 0 <= j < b.len() implies !is_interface(#[trigger] b[j]) by {
                if j < k {
                    assert(!is_interface(a[j]));
                } else if j > k {
                    assert(!is_interface(a[j - 1]));
                }
            }
            lemma_load_all(unread, b);
            let module = load(unread, b)->Loaded_0;
            lemma_loads_as(name, b_bytes, b, interface, module);
            assert(module =~= changed);
        },
        Some(definition) => {
            let pending = load(ModuleView::unread(name, a_bytes), a)->Waiting_0;
            law_interface_is_embedded_once(name, a_bytes, a, pending, definition, loaded);
            let count = a.len() - pending.rest.len() - 1;
            let at = if count < k {
                count
            } else {
                count + 1
            };
            assert(same_entry(a_bytes, a[count], b_bytes, b[at]));
            assert forall|j: int| 0 <= j < b.len() && j != at implies !is_interface(
                #[trigger] b[j],
            ) by {
                if j < k {
                    assert(!is_interface(a[j]));
                } else if j > k {
                    assert(!is_interface(a[j - 1]));
                }
            }
            lemma_load_waits(unread, b, at);
            let waiting = load(unread, b)->Waiting_0;
            law_everything_is_kept(unread, b);
            assert(b.len() - waiting.rest.len() - 1 == at);
            let resumed = waiting.module.with_interface(definition).with_section(
                SectionId::Custom,
                waiting.range,
            );
            assert forall|j: int| 0 <= j < waiting.rest.len() implies {
                &&& !((#[trigger] waiting.rest[j]) is Failed)
                &&& !is_interface(waiting.rest[j])
                &&& entry_section(waiting.rest[j]).1.within(b_bytes.len())
            } by {
                assert(waiting.rest[j] == b[at + 1 + j]);
            }
            lemma_load_all(resumed, waiting.rest);
            let module = waiting.resumed(definition)->Loaded_0;
            lemma_loads_as(name, b_bytes, b, interface, module);
            assert(module =~= changed);
        },
    }
}

/// A module is loaded from entries that are no failures, lie within the bytes
/// and define no interface.
proof fn lemma_load_all(module: ModuleView, list: Seq<EntryView>)
    requires
        forall|i: int|
            0 <= i < list.len() ==> {
                &&& !((#[trigger] list[i]) is Failed)
                &&& !is_interface(list[i])
                &&& entry_section(list[i]).1.within(module.bytes.len())
            },
    ensures
        load(module, list) is Loaded,
    decreases list.len(),
{
    if list.len() > 0 {
        let rest = list.drop_first();
        assert forall|i: int| 0 <= i < rest.len() implies {
            &&& !((#[trigger] rest[i]) is Failed)
            &&& !is_interface(rest[i])
            &&& entry_section(rest[i]).1.within(module.bytes.len())
        } by {
            assert(rest[i] == list[i + 1]);
        }
        lemma_load_all(module.with_entry(list[0]), rest);
    }
}

/// Loading waits at the first definition of an interface that is text.
proof fn lemma_load_waits(module: ModuleView, list: Seq<EntryView>, k: int)
    requires
        0 <= k < list.len(),
        module.interface is None,
        forall|i: int|
            0 <= i < k ==> {
                &&& !((#[trigger] list[i]) is Failed)
                &&& !is_interface(list[i])
                &&& entry_section(list[i]).1.within(module.bytes.len())
            },
        is_interface(list[k]),
        list[k] matches EntryView::Custom(_, _, data) && valid_utf8(data),
    ensures
        load(module, list) matches Outcome::Waiting(pending) && pending.rest.len() == list.len() - k
            - 1,
    decreases k,
{
    if k > 0 {
        let rest = list.drop_first();
        assert forall|i: int| 0 <= i < k - 1 implies {
            &&& !((#[trigger] rest[i]) is Failed)
            &&& !is_interface(rest[i])
            &&& entry_section(rest[i]).1.within(module.bytes.len())
        } by {
            assert(rest[i] == list[i + 1]);
        }
        assert(rest[k - 1] == list[k]);
        lemma_load_waits(module.with_entry(list[0]), rest, k - 1);
    }
}

/// One more custom section lists nothing.
proof fn lemma_all_one_more(
    a_bytes: Seq<u8>,
    a: Seq<EntryView>,
    b_bytes: Seq<u8>,
    b: Seq<EntryView>,
    k: int,
)
    requires
        one_more(a_bytes, a, b_bytes, b, k),
        b[k] is Custom,
    ensures
        all_types(b) == all_types(a),
        all_imports(b) == all_imports(a),
        all_functions(b) == all_functions(a),
        all_exports(b) == all_exports(a),
    decreases b.len(),
{
    let rest = b.drop_first();
    if k == 0 {
        lemma_all_same(a_bytes, a, b_bytes, rest);
        assert(all_types(b) =~= all_types(rest));
        assert(all_imports(b) =~= all_imports(rest));
        assert(all_functions(b) =~= all_functions(rest));
        assert(all_exports(b) =~= all_exports(rest));
    } else {
        let fewer = a.drop_first();
        assert(same_entry(a_bytes, a[0], b_bytes, b[0]));
        assert forall|i: int| 0 <= i < fewer.len() implies same_entry(
            a_bytes,
            #[trigger] fewer[i],
            b_bytes,
            rest[if i < k - 1 {
                i
            } else {
                i + 1
            }],
        ) by {
            assert(fewer[i] == a[i + 1]);
        }
        lemma_all_one_more(a_bytes, fewer, b_bytes, rest, k - 1);
    }
}

/// Entries that say the same list the same.
proof fn lemma_all_same(
    a_bytes: Seq<u8>,
    a: Seq<EntryView>,
    b_bytes: Seq<u8>,
    b: Seq<EntryView>,
)
    requires
        a.len() == b.len(),
        forall|i: int| 0 <= i < a.len() ==> same_entry(a_bytes, #[trigger] a[i], b_bytes, b[i]),
    ensures
        all_types(b) == all_types(a),
        all_imports(b) == all_imports(a),
        all_functions(b) == all_functions(a),
        all_exports(b) == all_exports(a),
    decreases a.len(),
{
    if a.len() > 0 {
        let fewer = a.drop_first();
        let rest = b.drop_first();
        assert(same_entry(a_bytes, a[0], b_bytes, b[0]));
        assert forall|i: int| 0 <= i < fewer.len() implies same_entry(
            a_bytes,
            #[trigger] fewer[i],
            b_bytes,
            rest[i],
        ) by {
            assert(fewer[i] == a[i + 1]);
        }
        lemma_all_same(a_bytes, fewer, b_bytes, rest);
    }
}

/// A number in the LEB128 notation ends where it ends, whatever follows it.
proof fn lemma_leb128_prefix(a: nat, x: Seq<u8>, b: nat, y: Seq<u8>)
    requires
        leb128(a) + x == leb128(b) + y,
    ensures
        a == b,
        x == y,
    decreases a,
{
    let left = leb128(a) + x;
    let right = leb128(b) + y;
    assert(left[0] == right[0]);
    assert(left[0] == if a < 128 { a as u8 } else { (128 + a % 128) as u8 });
    assert(right[0] == if b < 128 { b as u8 } else { (128 + b % 128) as u8 });
    assert(left.drop_first() == right.drop_first());
    if a < 128 {
        assert(left.drop_first() =~= x);
        assert(right.drop_first() =~= y);
    } else {
        assert(left.drop_first() =~= leb128(a / 128) + x);
        assert(right.drop_first() =~= leb128(b / 128) + y);
        lemma_leb128_prefix(a / 128, x, b / 128, y);
    }
}

/// A section ends where it ends, whatever follows it.
proof fn lemma_section_bytes_prefix(
    a: RawSectionView,
    x: Seq<u8>,
    b: RawSectionView,
    y: Seq<u8>,
)
    requires
        section_bytes(a) + x == section_bytes(b) + y,
    ensures
        a == b,
        x == y,
{
    let left = section_bytes(a) + x;
    let right = section_bytes(b) + y;
    assert(left[0] == a.id);
    assert(right[0] == b.id);
    assert(left.drop_first() =~= leb128(a.data.len()) + (a.data + x));
    assert(right.drop_first() =~= leb128(b.data.len()) + (b.data + y));
    lemma_leb128_prefix(a.data.len(), a.data + x, b.data.len(), b.data + y);
    let len = a.data.len() as int;
    assert((a.data + x).take(len) =~= a.data);
    assert((b.data + y).take(len) =~= b.data);
    assert((a.data + x).skip(len) =~= x);
    assert((b.data + y).skip(len) =~= y);
}

/// The bytes for sections start with those for the first one.
proof fn lemma_sections_bytes_first(sections: Seq<RawSectionView>)
    requires
        sections.len() > 0,
    ensures
        sections_bytes(sections) == section_bytes(sections[0]) + sections_bytes(
            sections.drop_first(),
        ),
    decreases sections.len(),
{
    let rest = sections.drop_first();
    if rest.len() == 0 {
        assert(sections.drop_last() =~= rest);
        assert(sections_bytes(sections) =~= section_bytes(sections[0]) + sections_bytes(rest));
    } else {
        lemma_sections_bytes_first(sections.drop_last());
        assert(sections.drop_last().drop_first() =~= rest.drop_last());
        assert(sections_bytes(sections) =~= section_bytes(sections[0]) + sections_bytes(rest));
    }
}

/// What is written of a module tells its sections: two modules from which the
/// same bytes are written have the same sections with the same contents.
pub proof fn law_encoding_tells_sections(a: Seq<RawSectionView>, b: Seq<RawSectionView>)
    requires
        preamble() + sections_bytes(a) == preamble() + sections_bytes(b),
    ensures
        a == b,
{
    let left = preamble() + sections_bytes(a);
    let right = preamble() + sections_bytes(b);
    assert(left.skip(8) =~= sections_bytes(a));
    assert(right.skip(8) =~= sections_bytes(b));
    lemma_sections_bytes_tell(a, b);
}

/// Sections that are written as the same bytes are the same.
proof fn lemma_sections_bytes_tell(a: Seq<RawSectionView>, b: Seq<RawSectionView>)
    requires
        sections_bytes(a) == sections_bytes(b),
    ensures
        a == b,
    decreases a.len(),
{
    if a.len() > 0 {
        lemma_sections_bytes_first(a);
    }
    if b.len() > 0 {
        lemma_sections_bytes_first(b);
    }
    if a.len() > 0 && b.len() > 0 {
        lemma_section_bytes_prefix(
            a[0],
            sections_bytes(a.drop_first()),
            b[0],
            sections_bytes(b.drop_first()),
        );
        lemma_sections_bytes_tell(a.drop_first(), b.drop_first());
        assert(a =~= seq![a[0]] + a.drop_first());
        assert(b =~= seq![b[0]] + b.drop_first());
    } else {
        assert(a =~= b);
    }
}

} // verus!
