//! What is read and loaded, in terms of the bytes and of what the parser and the
//! validator make of them.

use vstd::prelude::*;
use vstd::utf8::*;

use crate::binary::{
    body_validation, next_payload, section_exports, section_functions, section_imports,
    section_types, utf8_error, validation, Control, PayloadKind,
};
use crate::error::{Error, ErrorView, LinkedSection};
use crate::laws::{lemma_loads_as, loads_as};
use crate::module::{
    is_interface, load, loads_to, resumes_to, truncated, Loading, Module,
    ModuleView, Outcome, Pending, PendingView,
};
use crate::reader::{
    entries, entries_from, framed, framed_entry, header_offset, EntryView,
};
use crate::wasm::{
    section_code, ExportView, ImportView, Range, RawSectionView, SectionId, TypeDefView,
};
use crate::witx::Definition;

verus! {

/// The contents of a section.
pub open spec fn contents(bytes: Seq<u8>, range: Range) -> Seq<u8> {
    bytes.subrange(range.start as int, range.end as int)
}

/// Whether what an entry lists is, in full and in order, what the section readers
/// find in the contents of its section.
pub open spec fn lists_contents(bytes: Seq<u8>, entry: EntryView) -> bool {
    match entry {
        EntryView::Types(range, types) => section_types(contents(bytes, range), range.start) == Ok::<
            Seq<TypeDefView>,
            Seq<char>,
        >(types),
        EntryView::Imports(range, imports) => section_imports(contents(bytes, range), range.start)
            == Ok::<Seq<ImportView>, Seq<char>>(imports),
        EntryView::Functions(range, functions) => section_functions(
            contents(bytes, range),
            range.start,
        ) == Ok::<Seq<u32>, Seq<char>>(functions),
        EntryView::Exports(range, exports) => section_exports(contents(bytes, range), range.start)
            == Ok::<Seq<ExportView>, Seq<char>>(exports),
        EntryView::Section(id, _) => !(id is Type) && !(id is Import) && !(id is Function) && !(
        id is Export),
        _ => true,
    }
}

/// What the entries of a binary list is, in full and in order, what the section
/// readers find in the contents of their sections; and sections of the four kinds
/// that list something are entries that list it.
pub proof fn law_entries_list_contents(bytes: Seq<u8>, i: int)
    requires
        0 <= i < entries(bytes).len(),
    ensures
        entries(bytes)[i] matches EntryView::Types(range, types) ==> section_types(
            bytes.subrange(range.start as int, range.end as int),
            range.start,
        ) == Ok::<Seq<TypeDefView>, Seq<char>>(types),
        entries(bytes)[i] matches EntryView::Imports(range, imports) ==> section_imports(
            bytes.subrange(range.start as int, range.end as int),
            range.start,
        ) == Ok::<Seq<ImportView>, Seq<char>>(imports),
        entries(bytes)[i] matches EntryView::Functions(range, functions) ==> section_functions(
            bytes.subrange(range.start as int, range.end as int),
            range.start,
        ) == Ok::<Seq<u32>, Seq<char>>(functions),
        entries(bytes)[i] matches EntryView::Exports(range, exports) ==> section_exports(
            bytes.subrange(range.start as int, range.end as int),
            range.start,
        ) == Ok::<Seq<ExportView>, Seq<char>>(exports),
        entries(bytes)[i] matches EntryView::Section(id, _) ==> !(id is Type) && !(id is Import)
            && !(id is Function) && !(id is Export),
{
    lemma_entries_list_contents(bytes, 0, i);
}

/// What the entries from a position on list is what their sections hold.
proof fn lemma_entries_list_contents(bytes: Seq<u8>, position: nat, i: int)
    requires
        0 <= i < entries_from(bytes, position).len(),
    ensures
        lists_contents(bytes, entries_from(bytes, position)[i]),
    decreases bytes.len() - position,
{
    law_next_entry(bytes, position);
    let before = bytes.take(position as int);
    let rest = bytes.skip(position as int);
    if let Ok((kind, count)) = next_payload(before, rest) {
        if 0 < count && position + count <= bytes.len() {
            let list = entries_from(bytes, position);
            let more = entries_from(bytes, position + count);
            if list.len() == more.len() && list == more {
                lemma_entries_list_contents(bytes, position + count, i);
            } else if i > 0 {
                if list.len() == more.len() + 1 {
                    assert(list.drop_first() == more);
                    assert(list[i] == list.drop_first()[i - 1]);
                    lemma_entries_list_contents(bytes, position + count, i - 1);
                }
            }
        }
    }
}

/// Whether a payload is one that is refused, whatever it holds, and why.
pub open spec fn refused_for(control: Control, error: ErrorView) -> bool {
    ||| control is Alias && error == ErrorView::AlreadyLinked(LinkedSection::Alias)
    ||| control is Instance && error == ErrorView::AlreadyLinked(LinkedSection::Instance)
    ||| control is Module && error == ErrorView::AlreadyLinked(LinkedSection::Module)
    ||| control is Event && error == ErrorView::EventSection
    ||| control matches Control::Unknown(id) && error == ErrorView::UnknownSection(id)
}

/// Whether an entry says what a valid payload with a section is.
pub open spec fn entry_of(bytes: Seq<u8>, kind: PayloadKind, entry: EntryView) -> bool {
    match kind {
        PayloadKind::Section(SectionId::Type, range) => entry is Types && entry->Types_0 == range
            && lists_contents(bytes, entry),
        PayloadKind::Section(SectionId::Import, range) => entry is Imports && entry->Imports_0
            == range && lists_contents(bytes, entry),
        PayloadKind::Section(SectionId::Function, range) => entry is Functions
            && entry->Functions_0 == range && lists_contents(bytes, entry),
        PayloadKind::Section(SectionId::Export, range) => entry is Exports && entry->Exports_0
            == range && lists_contents(bytes, entry),
        PayloadKind::Section(id, range) => entry == EntryView::Section(id, range),
        PayloadKind::Code(range, _) => entry == EntryView::Section(SectionId::Code, range),
        PayloadKind::Custom(range, name, data) => entry == EntryView::Custom(range, name, data),
        PayloadKind::Control(_) => false,
    }
}

/// The text of the error of the reader of a section, where it gives one.
pub open spec fn reader_error(bytes: Seq<u8>, kind: PayloadKind, text: Seq<char>) -> bool {
    match kind {
        PayloadKind::Section(SectionId::Type, range) => section_types(
            contents(bytes, range),
            range.start,
        ) == Err::<Seq<TypeDefView>, Seq<char>>(text),
        PayloadKind::Section(SectionId::Import, range) => section_imports(
            contents(bytes, range),
            range.start,
        ) == Err::<Seq<ImportView>, Seq<char>>(text),
        PayloadKind::Section(SectionId::Function, range) => section_functions(
            contents(bytes, range),
            range.start,
        ) == Err::<Seq<u32>, Seq<char>>(text),
        PayloadKind::Section(SectionId::Export, range) => section_exports(
            contents(bytes, range),
            range.start,
        ) == Err::<Seq<ExportView>, Seq<char>>(text),
        _ => false,
    }
}

/// How the entries from a payload on come about: what cannot be parsed, is
/// refused as such, or is not valid ends them with the reason; a section that is
/// valid is listed before those that follow; headers and bodies of functions that
/// are valid are passed over, and the end of the binary ends them.
pub proof fn law_next_entry(bytes: Seq<u8>, position: nat)
    ensures
        ({
            let before = bytes.take(position as int);
            let rest = bytes.skip(position as int);
            let list = entries_from(bytes, position);
            match next_payload(before, rest) {
                Err(text) => list == seq![EntryView::Failed(ErrorView::Binary(text))],
                Ok((kind, count)) => {
                    let taken = rest.take(count as int);
                    let valid = validation(before, taken);
                    let more = entries_from(bytes, position + count);
                    &&& kind == PayloadKind::Control(Control::End) ==> list.len() == 0
                    &&& forall|error: ErrorView|
                        kind is Control && #[trigger] refused_for(kind->Control_0, error) ==> list
                            == seq![EntryView::Failed(error)]
                    &&& valid is Err && (kind is Section || kind is Code || kind
                        == PayloadKind::Control(Control::Header) || kind == PayloadKind::Control(
                        Control::Body,
                    )) ==> list == seq![EntryView::Failed(ErrorView::Binary(valid->Err_0))]
                    &&& valid is Ok && kind == PayloadKind::Control(Control::Body)
                        && body_validation(before, taken) is Err ==> list == seq![
                        EntryView::Failed(
                            ErrorView::Binary(body_validation(before, taken)->Err_0),
                        ),
                    ]
                    &&& forall|text: Seq<char>|
                        valid is Ok && #[trigger] reader_error(bytes, kind, text) ==> list == seq![
                            EntryView::Failed(ErrorView::Binary(text)),
                        ]
                    &&& 0 < count && position + count <= bytes.len() ==> {
                        &&& valid is Ok && (kind == PayloadKind::Control(Control::Header) || (kind
                            == PayloadKind::Control(Control::Body) && body_validation(
                            before,
                            taken,
                        ) is Ok)) ==> list == more
                        &&& kind is Custom || (valid is Ok && (kind is Section || kind is Code)
                            && forall|text: Seq<char>| !#[trigger] reader_error(bytes, kind, text))
                            ==> {
                            &&& list.len() == more.len() + 1
                            &&& list.drop_first() == more
                            &&& entry_of(bytes, kind, list[0])
                        }
                    }
                    // An entry is listed, or the reason why there is none.
                    &&& list.len() > 0 && !(list[0] is Failed) && kind is Section ==> entry_of(
                        bytes,
                        kind,
                        list[0],
                    )
                    &&& list.len() > 0 && !(list[0] is Failed) && (kind is Code || kind is Custom)
                        ==> entry_of(bytes, kind, list[0])
                    &&& kind is Control && kind != PayloadKind::Control(Control::Header) && kind
                        != PayloadKind::Control(Control::Body) && kind != PayloadKind::Control(
                        Control::End,
                    ) ==> list.len() == 1 && list[0] is Failed
                },
            }
        }),
{
    let before = bytes.take(position as int);
    let rest = bytes.skip(position as int);
    let list = entries_from(bytes, position);
    if let Ok((kind, count)) = next_payload(before, rest) {
        let more = entries_from(bytes, position + count);
        match kind {
            PayloadKind::Section(id, range) => {
                match id {
                    SectionId::Type => {
                        if let Err(text) = section_types(contents(bytes, range), range.start) {
                            assert(reader_error(bytes, kind, text));
                        }
                    },
                    SectionId::Import => {
                        if let Err(text) = section_imports(contents(bytes, range), range.start) {
                            assert(reader_error(bytes, kind, text));
                        }
                    },
                    SectionId::Function => {
                        if let Err(text) = section_functions(contents(bytes, range), range.start) {
                            assert(reader_error(bytes, kind, text));
                        }
                    },
                    SectionId::Export => {
                        if let Err(text) = section_exports(contents(bytes, range), range.start) {
                            assert(reader_error(bytes, kind, text));
                        }
                    },
                    _ => {},
                }
            },
            _ => {},
        }
        if list.len() == more.len() + 1 {
            assert(list.len() > 0 ==> list =~= seq![list[0]] + list.drop_first());
            assert((seq![list[0]] + more).drop_first() =~= more);
        }
    }
}

/// Nothing that is not valid is accepted: where the list of the entries of a
/// binary holds no failure, every one of its payloads is parsed, is none that is
/// refused as such, and has been validated, the bodies of functions included.
/// Custom sections need no validation.
///
/// The payloads start at the given offsets, each where the one before it ends.
pub proof fn law_accepted_binaries_are_valid(bytes: Seq<u8>, offsets: Seq<nat>, k: int)
    requires
        forall|i: int| 0 <= i < entries(bytes).len() ==> !((#[trigger] entries(bytes)[i]) is Failed),
        0 <= k < offsets.len(),
        offsets[0] == 0,
        forall|j: int|
            0 <= j < offsets.len() - 1 ==> follows(
                bytes,
                #[trigger] offsets[j],
                offsets[j + 1],
            ),
    ensures
        ({
            let before = bytes.take(offsets[k] as int);
            let rest = bytes.skip(offsets[k] as int);
            &&& next_payload(before, rest) is Ok
            &&& {
                let (kind, count) = next_payload(before, rest)->Ok_0;
                let taken = rest.take(count as int);
                &&& kind is Control ==> {
                    ||| kind->Control_0 is Header
                    ||| kind->Control_0 is Body
                    ||| kind->Control_0 is End
                }
                &&& kind is Custom || kind == PayloadKind::Control(Control::End) || validation(
                    before,
                    taken,
                ) is Ok
                &&& kind == PayloadKind::Control(Control::Body) ==> body_validation(
                    before,
                    taken,
                ) is Ok
            }
        }),
{
    lemma_suffix_accepted(bytes, offsets, k);
    law_next_entry(bytes, offsets[k]);
    let before = bytes.take(offsets[k] as int);
    let rest = bytes.skip(offsets[k] as int);
    if let Ok((PayloadKind::Control(control), _)) = next_payload(before, rest) {
        match control {
            Control::Alias => assert(refused_for(
                control,
                ErrorView::AlreadyLinked(LinkedSection::Alias),
            )),
            _ => {},
        }
    }
    let list = entries_from(bytes, offsets[k]);
    if list.len() > 0 {
        assert(!(list[0] is Failed));
    }
}

/// Whether a payload that is not the end ends where the next one starts.
pub open spec fn follows(bytes: Seq<u8>, position: nat, next: nat) -> bool {
    next_payload(bytes.take(position as int), bytes.skip(position as int)) matches Ok(
        (kind, count),
    ) && kind != PayloadKind::Control(Control::End) && 0 < count && next == position + count && next
        <= bytes.len()
}

/// The entries from a payload on hold no failure where all entries hold none.
proof fn lemma_suffix_accepted(bytes: Seq<u8>, offsets: Seq<nat>, k: int)
    requires
        forall|i: int| 0 <= i < entries(bytes).len() ==> !((#[trigger] entries(bytes)[i]) is Failed),
        0 <= k < offsets.len(),
        offsets[0] == 0,
        forall|j: int|
            0 <= j < offsets.len() - 1 ==> follows(
                bytes,
                #[trigger] offsets[j],
                offsets[j + 1],
            ),
    ensures
        forall|i: int|
            0 <= i < entries_from(bytes, offsets[k]).len() ==> !((#[trigger] entries_from(
                bytes,
                offsets[k],
            )[i]) is Failed),
    decreases k,
{
    if k > 0 {
        lemma_suffix_accepted(bytes, offsets, k - 1);
        let position = offsets[k - 1];
        let next = offsets[k];
        assert(follows(bytes, position, offsets[k - 1 + 1]));
        law_next_entry(bytes, position);
        let list = entries_from(bytes, position);
        let more = entries_from(bytes, next);
        let before = bytes.take(position as int);
        let rest = bytes.skip(position as int);
        let (kind, count) = next_payload(before, rest)->Ok_0;
        if list.len() > 0 {
            assert(!(list[0] is Failed));
        }
        if kind is Control {
            assert(list == more);
        } else {
            assert(list.len() == more.len() + 1 && list.drop_first() == more) by {
                if kind is Section {
                    assert forall|text: Seq<char>| !#[trigger] reader_error(bytes, kind, text) by {
                        if reader_error(bytes, kind, text) {
                            assert(list[0] is Failed);
                        }
                    }
                }
            }
            assert forall|i: int| 0 <= i < more.len() implies !((#[trigger] more[i]) is Failed) by {
                assert(more[i] == list.drop_first()[i]);
                assert(more[i] == list[i + 1]);
            }
        }
    } else {
        let list = entries_from(bytes, offsets[0]);
        assert(list == entries(bytes));
        assert forall|i: int| 0 <= i < list.len() implies !((#[trigger] list[i]) is Failed) by {
            assert(list[i] == entries(bytes)[i]);
        }
    }
}

/// Where the section of an entry lies.
pub open spec fn range_of(entry: EntryView) -> Option<Range> {
    match entry {
        EntryView::Section(_, range) => Some(range),
        EntryView::Types(range, _) => Some(range),
        EntryView::Imports(range, _) => Some(range),
        EntryView::Functions(range, _) => Some(range),
        EntryView::Exports(range, _) => Some(range),
        EntryView::Custom(range, _, _) => Some(range),
        EntryView::Failed(_) => None,
    }
}

/// Whether a byte marks sections of a kind in the binary format.
pub open spec fn marks(code: u8, id: SectionId) -> bool {
    ||| code == 0 && id is Custom
    ||| code == 1 && id is Type
    ||| code == 2 && id is Import
    ||| code == 3 && id is Function
    ||| code == 4 && id is Table
    ||| code == 5 && id is Memory
    ||| code == 6 && id is Global
    ||| code == 7 && id is Export
    ||| code == 8 && id is Start
    ||| code == 9 && id is Element
    ||| code == 10 && id is Code
    ||| code == 11 && id is Data
    ||| code == 12 && id is DataCount
}

/// Every kind of section has the byte that the binary format marks it with.
pub proof fn law_section_codes(id: SectionId, code: u8)
    ensures
        section_code(id) == code <==> marks(code, id),
{
}

/// Whether a section has the code and the contents of the section of an entry.
pub open spec fn is_section_of(bytes: Seq<u8>, entry: EntryView, section: RawSectionView) -> bool {
    &&& range_of(entry) matches Some(range) && section.data == bytes.subrange(
        range.start as int,
        range.end as int,
    )
    &&& match entry {
        EntryView::Section(id, _) => marks(section.id, id),
        EntryView::Types(_, _) => section.id == 1,
        EntryView::Imports(_, _) => section.id == 2,
        EntryView::Functions(_, _) => section.id == 3,
        EntryView::Exports(_, _) => section.id == 7,
        EntryView::Custom(_, _, _) => section.id == 0,
        EntryView::Failed(_) => false,
    }
}

/// A module that is loaded has one section for each entry, in their order, with
/// the code that marks it and the bytes that are its contents, and it has the
/// name, the bytes and the interface that it was given.
pub proof fn law_sections_are_kept(
    name: Seq<char>,
    bytes: Seq<u8>,
    list: Seq<EntryView>,
    interface: Option<Definition>,
    loaded: ModuleView,
    i: int,
)
    requires
        loads_as(name, bytes, list, interface, loaded),
    ensures
        loaded.name == name,
        loaded.bytes == bytes,
        loaded.interface == interface,
        loaded.sections.len() == list.len(),
        0 <= i < list.len() ==> is_section_of(bytes, list[i], loaded.sections[i]),
        0 <= i < list.len() ==> range_of(list[i])->0.start <= range_of(list[i])->0.end
            <= bytes.len(),
{
    lemma_loads_as(name, bytes, list, interface, loaded);
    if 0 <= i < list.len() {
        assert(!(list[i] is Failed));
        assert(loaded.sections[i] == crate::laws::raw_section(bytes, list[i]));
        if let EntryView::Section(id, _) = list[i] {
            law_section_codes(id, section_code(id));
        }
    }
}

/// Each section of a module that is loaded has the code that stands before it in
/// the binary.
pub proof fn law_codes_stand_before_sections(
    name: Seq<char>,
    bytes: Seq<u8>,
    list: Seq<EntryView>,
    interface: Option<Definition>,
    loaded: ModuleView,
    i: int,
)
    requires
        loads_as(name, bytes, list, interface, loaded),
        framed(bytes, list),
        0 <= i < list.len(),
    ensures
        i == 0 ==> loaded.sections[i].id == bytes[8],
        i > 0 ==> loaded.sections[i].id == bytes[range_of(list[i - 1])->0.end as int],
{
    lemma_loads_as(name, bytes, list, interface, loaded);
    assert(framed_entry(bytes, header_offset(list, i), list[i]));
    assert(!(list[i] is Failed));
    assert(loaded.sections[i] == crate::laws::raw_section(bytes, list[i]));
    let position = header_offset(list, i) as int;
    assert(bytes.skip(position)[0] == bytes[position]);
    if i > 0 {
        assert(!(list[i - 1] is Failed));
    }
}

/// What a module lists is what its entries list, one after the other and in full.
pub proof fn law_lists_are_joined(
    name: Seq<char>,
    bytes: Seq<u8>,
    list: Seq<EntryView>,
    interface: Option<Definition>,
    loaded: ModuleView,
)
    requires
        loads_as(name, bytes, list, interface, loaded),
    ensures
        loaded.types == list.map_values(
            |entry: EntryView|
                match entry {
                    EntryView::Types(_, types) => types,
                    _ => Seq::empty(),
                },
        ).flatten(),
        loaded.imports == list.map_values(
            |entry: EntryView|
                match entry {
                    EntryView::Imports(_, imports) => imports,
                    _ => Seq::empty(),
                },
        ).flatten(),
        loaded.functions == list.map_values(
            |entry: EntryView|
                match entry {
                    EntryView::Functions(_, functions) => functions,
                    _ => Seq::empty(),
                },
        ).flatten(),
        loaded.exports == list.map_values(
            |entry: EntryView|
                match entry {
                    EntryView::Exports(_, exports) => exports,
                    _ => Seq::empty(),
                },
        ).flatten(),
{
    lemma_loads_as(name, bytes, list, interface, loaded);
    lemma_lists_are_joined(list);
    assert(loaded.types =~= crate::laws::all_types(list));
    assert(loaded.imports =~= crate::laws::all_imports(list));
    assert(loaded.functions =~= crate::laws::all_functions(list));
    assert(loaded.exports =~= crate::laws::all_exports(list));
}

/// What entries list, one after the other.
proof fn lemma_lists_are_joined(list: Seq<EntryView>)
    ensures
        crate::laws::all_types(list) == list.map_values(
            |entry: EntryView|
                match entry {
                    EntryView::Types(_, types) => types,
                    _ => Seq::empty(),
                },
        ).flatten(),
        crate::laws::all_imports(list) == list.map_values(
            |entry: EntryView|
                match entry {
                    EntryView::Imports(_, imports) => imports,
                    _ => Seq::empty(),
                },
        ).flatten(),
        crate::laws::all_functions(list) == list.map_values(
            |entry: EntryView|
                match entry {
                    EntryView::Functions(_, functions) => functions,
                    _ => Seq::empty(),
                },
        ).flatten(),
        crate::laws::all_exports(list) == list.map_values(
            |entry: EntryView|
                match entry {
                    EntryView::Exports(_, exports) => exports,
                    _ => Seq::empty(),
                },
        ).flatten(),
    decreases list.len(),
{
    let types = |entry: EntryView|
        match entry {
            EntryView::Types(_, types) => types,
            _ => Seq::<TypeDefView>::empty(),
        };
    let imports = |entry: EntryView|
        match entry {
            EntryView::Imports(_, imports) => imports,
            _ => Seq::<ImportView>::empty(),
        };
    let functions = |entry: EntryView|
        match entry {
            EntryView::Functions(_, functions) => functions,
            _ => Seq::<u32>::empty(),
        };
    let exports = |entry: EntryView|
        match entry {
            EntryView::Exports(_, exports) => exports,
            _ => Seq::<ExportView>::empty(),
        };
    if list.len() > 0 {
        let rest = list.drop_first();
        lemma_lists_are_joined(rest);
        assert(list.map_values(types).drop_first() =~= rest.map_values(types));
        assert(list.map_values(imports).drop_first() =~= rest.map_values(imports));
        assert(list.map_values(functions).drop_first() =~= rest.map_values(functions));
        assert(list.map_values(exports).drop_first() =~= rest.map_values(exports));
    }
}

/// Lists of which all but one are empty, one after the other.
proof fn lemma_flatten_one<T>(lists: Seq<Seq<T>>, i: int)
    requires
        0 <= i < lists.len(),
        forall|j: int| 0 <= j < lists.len() && j != i ==> (#[trigger] lists[j]).len() == 0,
    ensures
        lists.flatten() == lists[i],
    decreases lists.len(),
{
    let rest = lists.drop_first();
    assert forall|j: int| 0 <= j < rest.len() implies #[trigger] rest[j] == lists[j + 1] by {
    }
    if i == 0 {
        lemma_flatten_none(rest);
    } else {
        assert(lists[0].len() == 0);
        lemma_flatten_one(rest, i - 1);
    }
    assert(lists.flatten() =~= lists[i]);
}

/// Empty lists, one after the other.
proof fn lemma_flatten_none<T>(lists: Seq<Seq<T>>)
    requires
        forall|j: int| 0 <= j < lists.len() ==> (#[trigger] lists[j]).len() == 0,
    ensures
        lists.flatten().len() == 0,
    decreases lists.len(),
{
    if lists.len() > 0 {
        let rest = lists.drop_first();
        assert(lists[0].len() == 0);
        assert forall|j: int| 0 <= j < rest.len() implies (#[trigger] rest[j]).len() == 0 by {
            assert(rest[j] == lists[j + 1]);
        }
        lemma_flatten_none(rest);
    }
}

/// The exports of a module that is loaded from a binary with one export section
/// are, in full and in order, what the reader of export sections finds in its
/// contents; and so for types, imports and functions.
pub proof fn law_modules_list_what_their_bytes_hold(
    name: Seq<char>,
    bytes: Seq<u8>,
    interface: Option<Definition>,
    loaded: ModuleView,
    i: int,
)
    requires
        loads_as(name, bytes, entries(bytes), interface, loaded),
        0 <= i < entries(bytes).len(),
    ensures
        entries(bytes)[i] matches EntryView::Types(range, _) ==> (forall|j: int|
            0 <= j < entries(bytes).len() && j != i ==> !((#[trigger] entries(bytes)[j]) is Types))
            ==> section_types(
            bytes.subrange(range.start as int, range.end as int),
            range.start,
        ) == Ok::<Seq<TypeDefView>, Seq<char>>(loaded.types),
        entries(bytes)[i] matches EntryView::Imports(range, _) ==> (forall|j: int|
            0 <= j < entries(bytes).len() && j != i ==> !((
            #[trigger] entries(bytes)[j]) is Imports)) ==> section_imports(
            bytes.subrange(range.start as int, range.end as int),
            range.start,
        ) == Ok::<Seq<ImportView>, Seq<char>>(loaded.imports),
        entries(bytes)[i] matches EntryView::Functions(range, _) ==> (forall|j: int|
            0 <= j < entries(bytes).len() && j != i ==> !((
            #[trigger] entries(bytes)[j]) is Functions)) ==> section_functions(
            bytes.subrange(range.start as int, range.end as int),
            range.start,
        ) == Ok::<Seq<u32>, Seq<char>>(loaded.functions),
        entries(bytes)[i] matches EntryView::Exports(range, _) ==> (forall|j: int|
            0 <= j < entries(bytes).len() && j != i ==> !((
            #[trigger] entries(bytes)[j]) is Exports)) ==> section_exports(
            bytes.subrange(range.start as int, range.end as int),
            range.start,
        ) == Ok::<Seq<ExportView>, Seq<char>>(loaded.exports),
{
    let list = entries(bytes);
    law_entries_list_contents(bytes, i);
    law_lists_are_joined(name, bytes, list, interface, loaded);
    match list[i] {
        EntryView::Types(_, _) => {
            let lists = list.map_values(
                |entry: EntryView|
                    match entry {
                        EntryView::Types(_, types) => types,
                        _ => Seq::<TypeDefView>::empty(),
                    },
            );
            if forall|j: int|
                0 <= j < list.len() && j != i ==> !((#[trigger] list[j]) is Types) {
                assert forall|j: int| 0 <= j < lists.len() && j != i implies (
                #[trigger] lists[j]).len() == 0 by {
                    assert(!(list[j] is Types));
                }
                lemma_flatten_one(lists, i);
            }
        },
        EntryView::Imports(_, _) => {
            let lists = list.map_values(
                |entry: EntryView|
                    match entry {
                        EntryView::Imports(_, imports) => imports,
                        _ => Seq::<ImportView>::empty(),
                    },
            );
            if forall|j: int|
                0 <= j < list.len() && j != i ==> !((#[trigger] list[j]) is Imports) {
                assert forall|j: int| 0 <= j < lists.len() && j != i implies (
                #[trigger] lists[j]).len() == 0 by {
                    assert(!(list[j] is Imports));
                }
                lemma_flatten_one(lists, i);
            }
        },
        EntryView::Functions(_, _) => {
            let lists = list.map_values(
                |entry: EntryView|
                    match entry {
                        EntryView::Functions(_, functions) => functions,
                        _ => Seq::<u32>::empty(),
                    },
            );
            if forall|j: int|
                0 <= j < list.len() && j != i ==> !((#[trigger] list[j]) is Functions) {
                assert forall|j: int| 0 <= j < lists.len() && j != i implies (
                #[trigger] lists[j]).len() == 0 by {
                    assert(!(list[j] is Functions));
                }
                lemma_flatten_one(lists, i);
            }
        },
        EntryView::Exports(_, _) => {
            let lists = list.map_values(
                |entry: EntryView|
                    match entry {
                        EntryView::Exports(_, exports) => exports,
                        _ => Seq::<ExportView>::empty(),
                    },
            );
            if forall|j: int|
                0 <= j < list.len() && j != i ==> !((#[trigger] list[j]) is Exports) {
                assert forall|j: int| 0 <= j < lists.len() && j != i implies (
                #[trigger] lists[j]).len() == 0 by {
                    assert(!(list[j] is Exports));
                }
                lemma_flatten_one(lists, i);
            }
        },
        _ => {},
    }
}

/// A custom section holds the definition of an interface if and only if it is
/// named `.interface`; no other section does.
pub proof fn law_interface_sections(entry: EntryView)
    ensures
        is_interface(entry) <==> (entry matches EntryView::Custom(_, name, _) && name =~= seq![
            '.',
            'i',
            'n',
            't',
            'e',
            'r',
            'f',
            'a',
            'c',
            'e',
        ]),
{
    reveal_strlit(".interface");
    assert(".interface"@ =~= seq!['.', 'i', 'n', 't', 'e', 'r', 'f', 'a', 'c', 'e']);
}

/// Whether an entry is loaded without further ado: it is no failure, no
/// definition of an interface, and its section lies within the first `len` bytes.
pub open spec fn ordinary(entry: EntryView, len: nat) -> bool {
    &&& range_of(entry) matches Some(range) && range.start <= range.end <= len
    &&& !is_interface(entry)
}

/// Where no entry stands in the way, a module is loaded.
pub proof fn law_nothing_in_the_way(module: ModuleView, list: Seq<EntryView>)
    requires
        forall|i: int| 0 <= i < list.len() ==> ordinary(#[trigger] list[i], module.bytes.len()),
    ensures
        load(module, list) is Loaded,
    decreases list.len(),
{
    if list.len() > 0 {
        assert(ordinary(list[0], module.bytes.len()));
        let rest = list.drop_first();
        assert forall|i: int| 0 <= i < rest.len() implies ordinary(
            #[trigger] rest[i],
            module.bytes.len(),
        ) by {
            assert(rest[i] == list[i + 1]);
        }
        law_nothing_in_the_way(module.with_entry(list[0]), rest);
    }
}

/// The first entry that stands in the way decides what loading comes to: a
/// failure is told; a definition of an interface is refused where there is one
/// already or where it is no text, and is otherwise waited for, with what stands
/// before it loaded and what stands behind it left; and a section that reaches
/// past the end of the binary cannot be loaded.
pub proof fn law_first_in_the_way(module: ModuleView, list: Seq<EntryView>, k: int)
    requires
        0 <= k < list.len(),
        forall|i: int| 0 <= i < k ==> ordinary(#[trigger] list[i], module.bytes.len()),
        !ordinary(list[k], module.bytes.len()),
    ensures
        match list[k] {
            EntryView::Failed(error) => load(module, list) == Outcome::Failed(error),
            EntryView::Custom(range, _, data) if is_interface(list[k]) => {
                if module.interface is Some {
                    load(module, list) == Outcome::Failed(ErrorView::MultipleInterfaces)
                } else if !valid_utf8(data) {
                    load(module, list) == Outcome::Failed(
                        ErrorView::InterfaceText(utf8_error(data)),
                    )
                } else {
                    load(module, list) matches Outcome::Waiting(pending) && {
                        &&& load(module, list.take(k)) == Outcome::Loaded(pending.module)
                        &&& pending.source == decode_utf8(data)
                        &&& pending.range == range
                        &&& pending.rest == list.skip(k + 1)
                    }
                }
            },
            _ => load(module, list) is Truncated,
        },
    decreases k,
{
    let rest = list.drop_first();
    if k > 0 {
        assert(ordinary(list[0], module.bytes.len()));
        assert forall|i: int| 0 <= i < k - 1 implies ordinary(
            #[trigger] rest[i],
            module.bytes.len(),
        ) by {
            assert(rest[i] == list[i + 1]);
        }
        assert(rest[k - 1] == list[k]);
        law_first_in_the_way(module.with_entry(list[0]), rest, k - 1);
        assert(list.take(k).drop_first() =~= rest.take(k - 1));
        assert(list.take(k)[0] == list[0]);
        assert(rest.skip(k - 1 + 1) =~= list.skip(k + 1));
    } else {
        assert(list.take(0) =~= Seq::<EntryView>::empty());
        assert(rest =~= list.skip(1));
    }
}

/// A module cannot be loaded from entries if and only if the first one that
/// stands in the way is a section that reaches past the end of the binary.
pub proof fn law_cut_short(list: Seq<EntryView>, len: nat)
    ensures
        truncated(list, len) <==> exists|k: int|
            0 <= k < list.len() && !is_interface(#[trigger] list[k]) && (range_of(list[k]) matches Some(
                range,
            ) && !(range.start <= range.end <= len)) && forall|i: int|
                0 <= i < k ==> ordinary(#[trigger] list[i], len),
    decreases list.len(),
{
    if list.len() > 0 {
        let rest = list.drop_first();
        law_cut_short(rest, len);
        if ordinary(list[0], len) {
            if truncated(rest, len) {
                let k = choose|k: int|
                    0 <= k < rest.len() && !is_interface(#[trigger] rest[k]) && (range_of(
                        rest[k],
                    ) matches Some(range) && !(range.start <= range.end <= len)) && forall|i: int|
                        0 <= i < k ==> ordinary(#[trigger] rest[i], len);
                assert(list[k + 1] == rest[k]);
                assert forall|i: int| 0 <= i < k + 1 implies ordinary(#[trigger] list[i], len) by {
                    if i > 0 {
                        assert(list[i] == rest[i - 1]);
                    }
                }
            }
            if exists|k: int|
                0 <= k < list.len() && !is_interface(#[trigger] list[k]) && (range_of(
                    list[k],
                ) matches Some(range) && !(range.start <= range.end <= len)) && forall|i: int|
                    0 <= i < k ==> ordinary(#[trigger] list[i], len) {
                let k = choose|k: int|
                    0 <= k < list.len() && !is_interface(#[trigger] list[k]) && (range_of(
                        list[k],
                    ) matches Some(range) && !(range.start <= range.end <= len)) && forall|i: int|
                        0 <= i < k ==> ordinary(#[trigger] list[i], len);
                assert(k > 0);
                assert(rest[k - 1] == list[k]);
                assert forall|i: int| 0 <= i < k - 1 implies ordinary(#[trigger] rest[i], len) by {
                    assert(rest[i] == list[i + 1]);
                }
            }
        } else {
            if truncated(list, len) {
                assert(!is_interface(list[0]));
            }
        }
    }
}

/// When loading goes on with the definition of an interface, it goes on from what
/// had been loaded, with that interface and with the section of the definition
/// behind the others.
pub proof fn law_loading_goes_on(pending: PendingView, definition: Definition)
    requires
        pending.range.start <= pending.range.end <= pending.module.bytes.len(),
    ensures
        pending.resumed(definition) == load(
            (ModuleView {
                interface: Some(definition),
                sections: pending.module.sections.push(
                    RawSectionView {
                        id: 0,
                        data: pending.module.bytes.subrange(
                            pending.range.start as int,
                            pending.range.end as int,
                        ),
                    },
                ),
                ..pending.module
            }),
            pending.rest,
        ),
{
}

/// A module of which nothing has been read holds its name, its bytes, and nothing
/// else.
pub proof fn law_unread_modules(name: Seq<char>, bytes: Seq<u8>)
    ensures
        ({
            let module = ModuleView::unread(name, bytes);
            &&& module.name == name
            &&& module.bytes == bytes
            &&& module.types.len() == 0
            &&& module.imports.len() == 0
            &&& module.exports.len() == 0
            &&& module.functions.len() == 0
            &&& module.sections.len() == 0
            &&& module.interface is None
        }),
{
}

/// Taking on an interface changes nothing else.
pub proof fn law_taking_on_an_interface(module: ModuleView, definition: Definition)
    ensures
        ({
            let taken = module.with_interface(definition);
            &&& taken.interface == Some(definition)
            &&& taken.name == module.name
            &&& taken.bytes == module.bytes
            &&& taken.types == module.types
            &&& taken.imports == module.imports
            &&& taken.exports == module.exports
            &&& taken.functions == module.functions
            &&& taken.sections == module.sections
        }),
{
}

/// A module can be written if and only if the length of every section is a `u32`.
pub proof fn law_encodable_modules(module: ModuleView)
    ensures
        module.encodable() <==> forall|i: int|
            0 <= i < module.sections.len() ==> (#[trigger] module.sections[i]).data.len()
                <= 0xffff_ffff,
{
}

/// What loading comes to is what is handed out: the module, the module that waits,
/// or the error.
pub proof fn law_outcomes_are_handed_out(r: Result<Loading<'_>, Error>, outcome: Outcome)
    requires
        loads_to(r, outcome),
    ensures
        outcome matches Outcome::Loaded(view) ==> (r matches Ok(Loading::Ready(module)) && module@
            == view),
        outcome matches Outcome::Waiting(view) ==> (r matches Ok(Loading::Waiting(pending))
            && pending@ == view),
        outcome matches Outcome::Failed(view) ==> (r matches Err(error) && error@ == view),
        !(outcome is Truncated),
{
}

/// What going on with loading comes to is what is handed out, and a definition
/// that is refused is told.
pub proof fn law_resumed_outcomes_are_handed_out(
    r: Result<Module<'_>, Error>,
    pending: PendingView,
    parsed: Result<Definition, String>,
)
    requires
        resumes_to(r, pending, parsed),
    ensures
        parsed matches Ok(definition) ==> match pending.resumed(definition) {
            Outcome::Loaded(view) => r matches Ok(module) && module@ == view,
            Outcome::Failed(view) => r matches Err(error) && error@ == view,
            _ => false,
        },
        parsed matches Err(reason) ==> (r matches Err(error) && error@
            == ErrorView::InterfaceDefinition(reason@)),
{
}

/// The view of a module shows all that it holds.
pub proof fn law_views_of_modules(module: Module<'_>, i: int)
    ensures
        module@.name == module.name@,
        module@.bytes == module.bytes@,
        module@.functions == module.functions@,
        module@.types.len() == module.types@.len(),
        module@.imports.len() == module.imports@.len(),
        module@.exports.len() == module.exports@.len(),
        module@.sections.len() == module.sections@.len(),
        0 <= i < module.types@.len() ==> module@.types[i] == module.types@[i]@,
        0 <= i < module.imports@.len() ==> module@.imports[i] == module.imports@[i]@,
        0 <= i < module.exports@.len() ==> module@.exports[i] == module.exports@[i]@,
        0 <= i < module.sections@.len() ==> module@.sections[i] == module.sections@[i]@,
        module.interface matches Some(interface) ==> module@.interface == Some(
            interface.definition(),
        ),
        module.interface is None ==> module@.interface is None,
{
}

/// The view of a module that waits shows all that it holds.
pub proof fn law_views_of_pending_modules(pending: Pending<'_>, i: int)
    ensures
        pending@.module == pending.module@,
        pending@.source == pending.source@,
        pending@.range == pending.range,
        pending@.rest.len() == pending.rest@.len(),
        0 <= i < pending.rest@.len() ==> pending@.rest[i] == pending.rest@[i]@,
{
}

} // verus!
