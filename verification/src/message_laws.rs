//! What errors say, and what the plain values of this crate show of themselves.

use vstd::prelude::*;

use crate::binary::views;
use crate::encoder::{is_leb128, leb128, preamble, section_bytes, sections_bytes};
use crate::error::{import_plural, Error, ErrorView, LinkedSection};
use crate::reader::{Entry, EntryView};
use crate::text::decimal;
use crate::wasm::{
    export_kind_text, import_kind_text, Export, ExternalKind, FuncType, Import, ImportType, Range,
    RawSection, RawSectionView, TypeDef, TypeDefView,
};

verus! {

/// The words for what imports ask for.
pub proof fn law_import_words(ty: ImportType)
    ensures
        ty is Function ==> import_kind_text(ty) == "function"@ && import_plural(ty)
            == "functions"@,
        ty is Table ==> import_kind_text(ty) == "table"@ && import_plural(ty) == "tables"@,
        ty is Memory ==> import_kind_text(ty) == "memory"@ && import_plural(ty) == "memories"@,
        ty is Global ==> import_kind_text(ty) == "global"@ && import_plural(ty) == "globals"@,
        ty is Module ==> import_kind_text(ty) == "module"@ && import_plural(ty) == "modules"@,
        ty is Instance ==> import_kind_text(ty) == "instance"@ && import_plural(ty)
            == "instances"@,
{
}

/// The words for what exports offer are those for what imports of the same kind
/// ask for.
pub proof fn law_export_words(kind: ExternalKind)
    ensures
        kind is Function ==> export_kind_text(kind) == "function"@,
        kind is Table ==> export_kind_text(kind) == "table"@,
        kind is Memory ==> export_kind_text(kind) == "memory"@,
        kind is Global ==> export_kind_text(kind) == "global"@,
        kind is Module ==> export_kind_text(kind) == "module"@,
        kind is Instance ==> export_kind_text(kind) == "instance"@,
{
}

/// What the errors of loading say: what they have been told, behind the words for
/// it.
pub proof fn law_messages_of_loading(text: Seq<char>, id: u8)
    ensures
        ErrorView::Binary(text).message() == text,
        ErrorView::AlreadyLinked(LinkedSection::Alias).message()
            == "module is already linked as it contains an alias section"@,
        ErrorView::AlreadyLinked(LinkedSection::Instance).message()
            == "module is already linked as it contains an instance section"@,
        ErrorView::AlreadyLinked(LinkedSection::Module).message()
            == "module is already linked as it contains a module section"@,
        ErrorView::EventSection.message() == "module contains unsupported event section"@,
        ErrorView::UnknownSection(id).message() == "unknown section with id `"@ + decimal(
            id as nat,
        ) + "`"@,
        ErrorView::MultipleInterfaces.message() == "module contains multiple interface sections"@,
        ErrorView::InterfaceText(text).message() == "invalid interface section: "@ + text,
        ErrorView::InterfaceDefinition(text).message() == "failed to parse interface definition: "@
            + text,
{
}

/// What the errors of resolving say: which module, which name, and the words for
/// what is asked for and offered.
pub proof fn law_messages_of_resolving(
    module: Seq<char>,
    other: Seq<char>,
    field: Seq<char>,
    ty: ImportType,
    kind: ExternalKind,
)
    ensures
        (ErrorView::MissingExport { module, ty, field }).message() == "module `"@ + module
            + "` does not export a "@ + import_kind_text(ty) + " named `"@ + field + "`"@,
        (ErrorView::MissingFunction { module, field }).message() == "module `"@ + module
            + "` does not export a function named `"@ + field + "` in its interface"@,
        (ErrorView::IncompatibleTypes { importer: module, field, exporter: other }).message()
            == "module `"@ + module + "` imports function `"@ + field + "` from module `"@ + other
            + "` but the types are incompatible"@,
        ErrorView::UnsupportedImport(ty).message() == "importing "@ + import_plural(ty)
            + " is not currently supported"@,
        (ErrorView::KindMismatch { ty, field, module, kind }).message() == "expected a "@
            + import_kind_text(ty) + " for export `"@ + field + "` from module `"@ + module
            + "` but found a "@ + export_kind_text(kind),
{
}

/// All errors have a message but those that speak of events, or of types that are
/// exported.
pub proof fn law_errors_with_messages(error: ErrorView)
    ensures
        error.has_message() <==> match error {
            ErrorView::MissingExport { ty: ImportType::Event, .. } => false,
            ErrorView::KindMismatch { ty: ImportType::Event, .. } => false,
            ErrorView::KindMismatch { kind: ExternalKind::Event, .. } => false,
            ErrorView::KindMismatch { kind: ExternalKind::Type, .. } => false,
            _ => true,
        },
{
}

/// The number that decimal digits stand for.
pub open spec fn decimal_value(digits: Seq<char>) -> int
    decreases digits.len(),
{
    if digits.len() == 0 {
        0
    } else {
        10 * decimal_value(digits.drop_last()) + (digits.last() as int - '0' as int)
    }
}

/// The decimal notation of a number is made of digits, has no zero in front but
/// for the number zero, and stands for that number.
pub proof fn law_decimal_notation(n: nat)
    ensures
        decimal(n).len() > 0,
        decimal_value(decimal(n)) == n,
        forall|i: int| 0 <= i < decimal(n).len() ==> '0' <= #[trigger] decimal(n)[i] <= '9',
        n > 0 ==> decimal(n)[0] != '0',
        n == 0 ==> decimal(n).len() == 1,
    decreases n,
{
    let digits = decimal(n);
    if n < 10 {
        assert(digits.drop_last() =~= Seq::<char>::empty());
        assert(decimal_value(digits.drop_last()) == 0);
    } else {
        law_decimal_notation(n / 10);
        assert(digits.drop_last() =~= decimal(n / 10));
        assert forall|i: int| 0 <= i < digits.len() implies '0' <= #[trigger] digits[i] <= '9' by {
            if i < digits.len() - 1 {
                assert(digits[i] == decimal(n / 10)[i]);
            }
        }
        assert(digits[0] == decimal(n / 10)[0]);
    }
}

/// A range lies within the first bytes if it ends there and does not end before
/// it starts.
pub proof fn law_ranges_within(range: Range, len: nat)
    ensures
        range.within(len) <==> range.start <= range.end && range.end <= len,
{
}

/// The name that an import asks for is the one that it has, and empty where it
/// has none.
pub proof fn law_names_of_imports(import: Import<'_>)
    ensures
        import.field matches Some(field) ==> import@.field_name() == field@ && import@.field
            == Some(field@),
        import.field is None ==> import@.field_name().len() == 0 && import@.field is None,
        import@.module == import.module@,
        import@.ty == import.ty,
{
}

/// The views of exports, sections and types show all that they hold.
pub proof fn law_views_of_parts(
    export: Export<'_>,
    section: RawSection<'_>,
    ty: FuncType,
    def: TypeDef,
)
    ensures
        export@.field == export.field@ && export@.kind == export.kind && export@.index
            == export.index,
        section@.id == section.id && section@.data == section.data@,
        ty@.params == ty.params@ && ty@.returns == ty.returns@,
        def matches TypeDef::Func(ty) ==> def@ == TypeDefView::Func(ty@),
        def is Instance <==> def@ is Instance,
        def is Module <==> def@ is Module,
{
}

/// The views of entries show all that they hold.
pub proof fn law_views_of_entries(entry: Entry<'_>)
    ensures
        entry matches Entry::Section(id, range) ==> entry@ == EntryView::Section(id, range),
        entry matches Entry::Types(range, types) ==> (entry@ matches EntryView::Types(place, list)
            && place == range && list.len() == types@.len() && forall|i: int|
            0 <= i < list.len() ==> #[trigger] list[i] == types@[i]@),
        entry matches Entry::Imports(range, imports) ==> (entry@ matches EntryView::Imports(
            place,
            list,
        ) && place == range && list.len() == imports@.len() && forall|i: int|
            0 <= i < list.len() ==> #[trigger] list[i] == imports@[i]@),
        entry matches Entry::Functions(range, functions) ==> entry@ == EntryView::Functions(
            range,
            functions@,
        ),
        entry matches Entry::Exports(range, exports) ==> (entry@ matches EntryView::Exports(
            place,
            list,
        ) && place == range && list.len() == exports@.len() && forall|i: int|
            0 <= i < list.len() ==> #[trigger] list[i] == exports@[i]@),
        entry matches Entry::Custom(range, name, data) ==> entry@ == EntryView::Custom(
            range,
            name@,
            data@,
        ),
        entry matches Entry::Failed(error) ==> entry@ == EntryView::Failed(error@),
{
}

/// The views of errors show all that they hold.
pub proof fn law_views_of_errors(error: Error)
    ensures
        error matches Error::Binary(text) ==> error@ == ErrorView::Binary(text@),
        error matches Error::AlreadyLinked(section) ==> error@ == ErrorView::AlreadyLinked(section),
        error is EventSection ==> error@ == ErrorView::EventSection,
        error matches Error::UnknownSection(id) ==> error@ == ErrorView::UnknownSection(id),
        error is MultipleInterfaces ==> error@ == ErrorView::MultipleInterfaces,
        error matches Error::InterfaceText(text) ==> error@ == ErrorView::InterfaceText(text@),
        error matches Error::InterfaceDefinition(text) ==> error@ == ErrorView::InterfaceDefinition(
            text@,
        ),
        error matches Error::MissingExport { module, ty, field } ==> error@ == (
        ErrorView::MissingExport { module: module@, ty, field: field@ }),
        error matches Error::MissingFunction { module, field } ==> error@ == (
        ErrorView::MissingFunction { module: module@, field: field@ }),
        error matches Error::IncompatibleTypes { importer, field, exporter } ==> error@ == (
        ErrorView::IncompatibleTypes {
            importer: importer@,
            field: field@,
            exporter: exporter@,
        }),
        error matches Error::UnsupportedImport(ty) ==> error@ == ErrorView::UnsupportedImport(ty),
        error matches Error::KindMismatch { ty, field, module, kind } ==> error@ == (
        ErrorView::KindMismatch { ty, field: field@, module: module@, kind }),
{
}

/// The views of the items of a list are those of all of its items, in their order.
pub proof fn law_views_of_lists<T: View>(items: Seq<T>, i: int)
    ensures
        views(items).len() == items.len(),
        0 <= i < items.len() ==> views(items)[i] == items[i]@,
{
}

/// The shortest LEB128 notation of a number is one, and none is shorter.
pub proof fn law_leb128_is_shortest(n: nat, bytes: Seq<u8>)
    ensures
        is_leb128(leb128(n), n),
        is_leb128(bytes, n) ==> leb128(n).len() <= bytes.len(),
    decreases n,
{
    if n < 128 {
    } else {
        law_leb128_is_shortest(n / 128, bytes.drop_first());
        assert(leb128(n).drop_first() =~= leb128(n / 128));
        assert(leb128(n / 128).len() > 0);
    }
}

/// A section is written as its code, its length and its contents, and sections
/// are written behind one another.
pub proof fn law_written_sections(a: Seq<RawSectionView>, b: Seq<RawSectionView>, i: int)
    ensures
        sections_bytes(a + b) == sections_bytes(a) + sections_bytes(b),
        0 <= i < a.len() ==> sections_bytes(seq![a[i]]) == seq![a[i].id] + leb128(a[i].data.len())
            + a[i].data,
        preamble() == seq![0x00u8, 0x61u8, 0x73u8, 0x6du8, 0x01u8, 0x00u8, 0x00u8, 0x00u8],
    decreases b.len(),
{
    if b.len() == 0 {
        assert(a + b =~= a);
        assert(sections_bytes(a) + sections_bytes(b) =~= sections_bytes(a));
    } else {
        law_written_sections(a, b.drop_last(), i);
        assert((a + b).drop_last() =~= a + b.drop_last());
        assert((a + b).last() == b.last());
        assert(sections_bytes(a + b) =~= sections_bytes(a) + sections_bytes(b));
    }
    if 0 <= i < a.len() {
        let one = seq![a[i]];
        assert(one.drop_last() =~= Seq::<RawSectionView>::empty());
        assert(one.last() == a[i]);
        assert(sections_bytes(one.drop_last()) =~= Seq::<u8>::empty());
        assert(sections_bytes(one) =~= section_bytes(a[i]));
    }
}

} // verus!
