//! Reading the binary format, by way of the `wasmparser` crate.
//!
//! A binary is handed to a `wasmparser::Parser`, which cuts it into payloads,
//! and each payload to a `wasmparser::Validator`, which hands the bodies of
//! functions on to a `wasmparser::FuncValidator`. The functions here make those
//! calls and turn what comes back into plain values. What they make of given
//! bytes has a name ([`next_payload`], [`validation`], [`body_validation`]);
//! nothing more is said of it than the clauses below.
//!
//! Lengths that a binary announces are added to offsets before they are held
//! against the bytes that there are. So there has to be room for them, as
//! [`crate::room`] says.

use vstd::prelude::*;
use vstd::utf8::*;

use wasmparser::{
    ExternalKind as E, ImportSectionEntryType as I, Payload as P, SectionReader, Type as T,
    TypeDef as D, TypeSectionReader,
};

use crate::encoder::{headed, preamble};
use crate::room::{data_fits, payload_fits};
use crate::wasm::{
    section_code, Export, ExportView, ExternalKind, FuncType, Import, ImportType, ImportView, Range,
    SectionId, TypeDef, TypeDefView, ValType,
};

verus! {

/// Payloads that hold no section to keep.
#[derive(Clone, Copy, Debug, PartialEq, Eq, Structural)]
pub enum Control {
    /// The header of the binary.
    Header,
    /// A function body of the code section.
    Body,
    /// An alias section.
    Alias,
    /// An instance section.
    Instance,
    /// An event section.
    Event,
    /// A module section, or a module that is nested in one.
    Module,
    /// A section with a code that is not known.
    Unknown(u8),
    /// The end of the binary.
    End,
}

/// What a payload tells.
#[verifier::ext_equal]
pub enum PayloadKind {
    /// A section to keep, other than the two that follow.
    Section(SectionId, Range),
    /// The code section, with the number of its bodies, which are handed out
    /// after it.
    Code(Range, u32),
    /// A custom section, with its name and what follows the name.
    Custom(Range, Seq<char>, Seq<u8>),
    /// Anything else.
    Control(Control),
}

/// A payload, and the bytes that it comes from.
#[verifier::ext_equal]
pub struct PayloadView {
    /// The bytes of the binary that come before.
    pub before: Seq<u8>,
    /// The bytes that were consumed for this payload.
    pub bytes: Seq<u8>,
    pub kind: PayloadKind,
}

/// `wasmparser::Parser`, known only by [`parsed_bytes`].
#[verifier::external_type_specification]
#[verifier::external_body]
pub struct ExParser(wasmparser::Parser);

/// `wasmparser::Validator`, known only by [`accepted_bytes`].
#[verifier::external_type_specification]
#[verifier::external_body]
pub struct ExValidator(wasmparser::Validator);

/// `wasmparser::Payload`, known only by [`payload_view`].
#[verifier::external_type_specification]
#[verifier::external_body]
pub struct ExPayload<'a>(wasmparser::Payload<'a>);

/// `wasmparser::ValidPayload`, known only by [`valid_view`].
#[verifier::external_type_specification]
#[verifier::external_body]
pub struct ExValidPayload<'a>(wasmparser::ValidPayload<'a>);

/// `wasmparser::FuncValidator`, known only by [`checked_view`].
#[verifier::external_type_specification]
#[verifier::external_body]
#[verifier::reject_recursive_types(T)]
pub struct ExFuncValidator<T>(wasmparser::FuncValidator<T>);

/// `wasmparser::ValidatorResources`, of which nothing is known.
#[verifier::external_type_specification]
#[verifier::external_body]
pub struct ExValidatorResources(wasmparser::ValidatorResources);

/// `wasmparser::FunctionBody`, known only by [`body_view`].
#[verifier::external_type_specification]
#[verifier::external_body]
pub struct ExFunctionBody<'a>(wasmparser::FunctionBody<'a>);

/// `wasmparser::BinaryReaderError`, known only by [`error_text`].
#[verifier::external_type_specification]
#[verifier::external_body]
pub struct ExBinaryReaderError(wasmparser::BinaryReaderError);

/// The bytes that a parser has consumed since it was made by
/// `Parser::new(0)`, where each call told it that no data follows.
pub uninterp spec fn parsed_bytes(parser: wasmparser::Parser) -> Option<Seq<u8>>;

/// Where the section ends that a parser is in, counted from the start of the
/// binary: the code section while its bodies are handed out, and otherwise the
/// bytes that have been consumed.
pub uninterp spec fn section_end(parser: wasmparser::Parser) -> nat;

/// How many bodies of the code section a parser has yet to hand out.
pub uninterp spec fn bodies_left(parser: wasmparser::Parser) -> nat;

/// The bytes of the payloads that a validator has accepted since it was made
/// by `Validator::new()`, where they were handed to it one after the other from
/// the first one on.
pub uninterp spec fn accepted_bytes(validator: wasmparser::Validator) -> Option<Seq<u8>>;

/// What a payload holds.
pub uninterp spec fn payload_view(payload: wasmparser::Payload) -> PayloadView;

/// The payload that a validator has accepted.
pub uninterp spec fn valid_view(valid: wasmparser::ValidPayload) -> PayloadView;

/// The payload for whose body a function validator was made, where it has not
/// been used.
pub uninterp spec fn checked_view(
    checker: wasmparser::FuncValidator<wasmparser::ValidatorResources>,
) -> PayloadView;

/// The payload that the body of a function comes from.
pub uninterp spec fn body_view(body: wasmparser::FunctionBody) -> PayloadView;

/// The text of an error.
pub uninterp spec fn error_text(error: wasmparser::BinaryReaderError) -> Seq<char>;

/// What `Parser::parse` makes of `rest`, the remainder of a binary, when the
/// bytes `before` have been consumed: the next payload and the number of bytes
/// that it takes, or the text of an error.
pub uninterp spec fn next_payload(before: Seq<u8>, rest: Seq<u8>) -> Result<
    (PayloadKind, nat),
    Seq<char>,
>;

/// What `Validator::payload` makes of the payload in `bytes`, when the payloads
/// in `before` have been accepted: nothing, or the text of an error.
pub uninterp spec fn validation(before: Seq<u8>, bytes: Seq<u8>) -> Result<(), Seq<char>>;

/// What `FuncValidator::validate` makes of the body in `bytes`, when the
/// payloads in `before` have been accepted: nothing, or the text of an error.
pub uninterp spec fn body_validation(before: Seq<u8>, bytes: Seq<u8>) -> Result<(), Seq<char>>;

/// The entries of the type section with the given contents, which start at
/// `offset` in their binary, or the text of an error.
pub uninterp spec fn section_types(contents: Seq<u8>, offset: usize) -> Result<
    Seq<TypeDefView>,
    Seq<char>,
>;

/// The entries of the import section with the given contents, which start at
/// `offset` in their binary, or the text of an error.
pub uninterp spec fn section_imports(contents: Seq<u8>, offset: usize) -> Result<
    Seq<ImportView>,
    Seq<char>,
>;

/// The entries of the function section with the given contents, which start at
/// `offset` in their binary, or the text of an error.
pub uninterp spec fn section_functions(contents: Seq<u8>, offset: usize) -> Result<
    Seq<u32>,
    Seq<char>,
>;

/// The entries of the export section with the given contents, which start at
/// `offset` in their binary, or the text of an error.
pub uninterp spec fn section_exports(contents: Seq<u8>, offset: usize) -> Result<
    Seq<ExportView>,
    Seq<char>,
>;

/// The text of the error that `std::str::from_utf8` gives for bytes that are
/// not UTF-8.
pub uninterp spec fn utf8_error(bytes: Seq<u8>) -> Seq<char>;

/// `wasmparser::Parser::new(0)`: a parser that has consumed nothing.
#[verifier::external_body]
pub(crate) fn new_parser() -> (r: wasmparser::Parser)
    ensures
        parsed_bytes(r) == Some(Seq::<u8>::empty()),
        section_end(r) == 0,
        bodies_left(r) == 0,
{
    wasmparser::Parser::new(0)
}

/// `wasmparser::Validator::new`: a validator that has accepted nothing.
#[verifier::external_body]
pub(crate) fn new_validator() -> (r: wasmparser::Validator)
    ensures
        accepted_bytes(r) == Some(Seq::<u8>::empty()),
{
    wasmparser::Validator::new()
}

/// `wasmparser::Parser::parse`, told that `data` is all that is left of the
/// binary. It then gives a payload or an error, never a request for more data,
/// and which one depends on the bytes alone.
///
/// The first payload is the header, of eight bytes, and no other one is. A
/// section starts with its header, and is at most as long as a `u32` can say. But
/// for the code section, whose bodies are handed out after it, it has been
/// consumed as a whole, so that its range ends where the parser stands. Another
/// section starts, and the binary ends, only where the one before has ended; the
/// binary ends only where no bytes are left. Every other payload takes up some
/// bytes.
///
/// The length that the payload announces is added to an offset, so there has to
/// be room for it. The parser panics otherwise.
#[verifier::external_body]
pub(crate) fn parse<'a>(parser: &mut wasmparser::Parser, data: &'a [u8]) -> (r: Result<
    Option<(wasmparser::Payload<'a>, usize)>,
    wasmparser::BinaryReaderError,
>)
    requires
        parsed_bytes(*old(parser)) is Some,
        parsed_bytes(*old(parser))->0.len() + data@.len() <= usize::MAX,
        payload_fits(
            parsed_bytes(*old(parser))->0.len(),
            data@,
            bodies_left(*old(parser)),
            section_end(*old(parser)),
        ),
    ensures
        ({
            let before = parsed_bytes(*old(parser))->0;
            match (r, next_payload(before, data@)) {
                (Ok(Some((payload, n))), Ok((kind, count))) => {
                    &&& n == count
                    &&& n <= data@.len()
                    &&& before.len() == 0 <==> kind == PayloadKind::Control(Control::Header)
                    &&& payload_view(payload) == (PayloadView {
                        before,
                        bytes: data@.take(n as int),
                        kind,
                    })
                    &&& match kind {
                        PayloadKind::Section(id, range) => {
                            &&& 0 < n
                            &&& range.end - range.start <= u32::MAX
                            &&& headed(data@, before.len(), section_code(id), range)
                            &&& range.end == before.len() + n
                            &&& section_end(*old(parser)) == before.len()
                            &&& section_end(*final(parser)) == range.end
                            &&& bodies_left(*final(parser)) == 0
                            &&& parsed_bytes(*final(parser)) == Some(before + data@.take(n as int))
                        },
                        PayloadKind::Code(range, bodies) => {
                            &&& 0 < n
                            &&& range.end - range.start <= u32::MAX
                            &&& headed(
                                data@,
                                before.len(),
                                section_code(SectionId::Code),
                                range,
                            )
                            &&& section_end(*old(parser)) == before.len()
                            &&& section_end(*final(parser)) == range.end
                            &&& bodies_left(*final(parser)) == bodies
                            &&& parsed_bytes(*final(parser)) == Some(before + data@.take(n as int))
                        },
                        PayloadKind::Custom(range, _, _) => {
                            &&& 0 < n
                            &&& range.end - range.start <= u32::MAX
                            &&& headed(
                                data@,
                                before.len(),
                                section_code(SectionId::Custom),
                                range,
                            )
                            &&& range.end == before.len() + n
                            &&& section_end(*old(parser)) == before.len()
                            &&& section_end(*final(parser)) == range.end
                            &&& bodies_left(*final(parser)) == 0
                            &&& parsed_bytes(*final(parser)) == Some(before + data@.take(n as int))
                        },
                        PayloadKind::Control(Control::Module) => 0 < n,
                        PayloadKind::Control(Control::Header) => {
                            &&& n == 8
                            &&& section_end(*final(parser)) == n
                            &&& bodies_left(*final(parser)) == 0
                            &&& parsed_bytes(*final(parser)) == Some(before + data@.take(n as int))
                        },
                        PayloadKind::Control(Control::Body) => {
                            &&& 0 < n
                            &&& section_end(*final(parser)) == section_end(*old(parser))
                            &&& bodies_left(*old(parser)) == bodies_left(*final(parser)) + 1
                            &&& parsed_bytes(*final(parser)) == Some(before + data@.take(n as int))
                        },
                        PayloadKind::Control(Control::End) => {
                            &&& data@.len() == 0
                            &&& section_end(*old(parser)) == before.len()
                        },
                        PayloadKind::Control(_) => {
                            &&& 0 < n
                            &&& parsed_bytes(*final(parser)) == Some(before + data@.take(n as int))
                        },
                    }
                },
                (Err(error), Err(text)) => error_text(error) == text,
                _ => false,
            }
        }),
{
    match parser.parse(data, true)? {
        wasmparser::Chunk::Parsed { consumed, payload } => Ok(Some((payload, consumed))),
        wasmparser::Chunk::NeedMoreData(_) => Ok(None),
    }
}

/// `wasmparser::Validator::payload`. The payloads before this one must have been
/// accepted by the same validator. Whether the payload is valid depends on the
/// bytes up to its end. Custom sections are always accepted, and a header only
/// where it is the preamble. The body of a function is accepted as a payload;
/// what it holds is for [`validate_body`] to check. The lengths that a data
/// section announces are added to offsets, so there has to be room for them. The
/// validator panics otherwise.
#[verifier::external_body]
pub(crate) fn validate<'a>(
    validator: &mut wasmparser::Validator,
    payload: &wasmparser::Payload<'a>,
) -> (r: Result<wasmparser::ValidPayload<'a>, wasmparser::BinaryReaderError>)
    requires
        accepted_bytes(*old(validator)) == Some(payload_view(*payload).before),
        payload_view(*payload).before.len() + payload_view(*payload).bytes.len() <= usize::MAX,
        match payload_view(*payload).kind {
            PayloadKind::Control(control) => control is Header || control is Body,
            PayloadKind::Section(SectionId::Data, range) => data_fits(
                (payload_view(*payload).before + payload_view(*payload).bytes).subrange(
                    range.start as int,
                    range.end as int,
                ),
            ),
            _ => true,
        },
    ensures
        match (r, validation(payload_view(*payload).before, payload_view(*payload).bytes)) {
            (Ok(valid), Ok(_)) => {
                &&& valid_view(valid) == payload_view(*payload)
                &&& accepted_bytes(*final(validator)) == Some(
                    payload_view(*payload).before + payload_view(*payload).bytes,
                )
            },
            (Err(error), Err(text)) => error_text(error) == text,
            _ => false,
        },
        payload_view(*payload).kind is Custom ==> r is Ok,
        payload_view(*payload).kind == PayloadKind::Control(Control::Header) && r is Ok
            ==> payload_view(*payload).bytes == preamble(),
{
    validator.payload(payload)
}

/// The validator for the body of a function and that body, which a
/// `wasmparser::ValidPayload` holds where it comes from a body.
#[verifier::external_body]
pub(crate) fn function_body<'a>(valid: wasmparser::ValidPayload<'a>) -> (r: Option<
    (
        wasmparser::FuncValidator<wasmparser::ValidatorResources>,
        wasmparser::FunctionBody<'a>,
    ),
>)
    ensures
        match r {
            Some((checker, body)) => {
                &&& valid_view(valid).kind == PayloadKind::Control(Control::Body)
                &&& checked_view(checker) == valid_view(valid)
                &&& body_view(body) == valid_view(valid)
            },
            None => valid_view(valid).kind != PayloadKind::Control(Control::Body),
        },
{
    match valid {
        wasmparser::ValidPayload::Func(checker, body) => Some((checker, body)),
        _ => None,
    }
}

/// `wasmparser::FuncValidator::validate`, with the body that the validator was
/// made for. Whether the body is valid depends on the bytes of the binary up to
/// its end.
#[verifier::external_body]
pub(crate) fn validate_body(
    checker: &mut wasmparser::FuncValidator<wasmparser::ValidatorResources>,
    body: &wasmparser::FunctionBody<'_>,
) -> (r: Result<(), wasmparser::BinaryReaderError>)
    requires
        checked_view(*old(checker)) == body_view(*body),
        body_view(*body).before.len() + body_view(*body).bytes.len() <= usize::MAX,
    ensures
        match (r, body_validation(body_view(*body).before, body_view(*body).bytes)) {
            (Ok(_), Ok(_)) => true,
            (Err(error), Err(text)) => error_text(error) == text,
            _ => false,
        },
{
    checker.validate(body)
}

/// Which section a `wasmparser::Payload` is, where it is one to keep other
/// than a custom section.
#[verifier::external_body]
pub(crate) fn section_id(payload: &wasmparser::Payload<'_>) -> (r: Option<SectionId>)
    ensures
        r == match payload_view(*payload).kind {
            PayloadKind::Section(id, _) => Some(id),
            PayloadKind::Code(_, _) => Some(SectionId::Code),
            _ => None,
        },
{
    match payload {
        wasmparser::Payload::TypeSection(_) => Some(SectionId::Type),
        wasmparser::Payload::ImportSection(_) => Some(SectionId::Import),
        wasmparser::Payload::FunctionSection(_) => Some(SectionId::Function),
        wasmparser::Payload::TableSection(_) => Some(SectionId::Table),
        wasmparser::Payload::MemorySection(_) => Some(SectionId::Memory),
        wasmparser::Payload::GlobalSection(_) => Some(SectionId::Global),
        wasmparser::Payload::ExportSection(_) => Some(SectionId::Export),
        wasmparser::Payload::StartSection { .. } => Some(SectionId::Start),
        wasmparser::Payload::ElementSection(_) => Some(SectionId::Element),
        wasmparser::Payload::DataCountSection { .. } => Some(SectionId::DataCount),
        wasmparser::Payload::DataSection(_) => Some(SectionId::Data),
        wasmparser::Payload::CodeSectionStart { .. } => Some(SectionId::Code),
        _ => None,
    }
}

/// Where the section of a `wasmparser::Payload` lies, where it is one to keep.
/// Sections with a reader of their own are asked for it by their `range`.
#[verifier::external_body]
pub(crate) fn section_range(payload: &wasmparser::Payload<'_>) -> (r: Option<Range>)
    ensures
        r == match payload_view(*payload).kind {
            PayloadKind::Section(_, range) => Some(range),
            PayloadKind::Code(range, _) => Some(range),
            PayloadKind::Custom(range, _, _) => Some(range),
            PayloadKind::Control(_) => None,
        },
{
    let range = match payload {
        P::TypeSection(s) => s.range(), P::ImportSection(s) => s.range(),
        P::FunctionSection(s) => s.range(), P::TableSection(s) => s.range(),
        P::MemorySection(s) => s.range(), P::GlobalSection(s) => s.range(),
        P::ExportSection(s) => s.range(), P::ElementSection(s) => s.range(),
        P::DataSection(s) => s.range(),
        P::StartSection { range, .. } | P::DataCountSection { range, .. } => *range,
        P::CodeSectionStart { range, .. } | P::CustomSection { range, .. } => *range,
        _ => return None,
    };
    Some(Range { start: range.start, end: range.end })
}

/// How many bodies follow a `wasmparser::Payload`, where it is the start of the
/// code section.
#[verifier::external_body]
pub(crate) fn body_count(payload: &wasmparser::Payload<'_>) -> (r: Option<u32>)
    ensures
        r == match payload_view(*payload).kind {
            PayloadKind::Code(_, bodies) => Some(bodies),
            _ => None,
        },
{
    match payload {
        wasmparser::Payload::CodeSectionStart { count, .. } => Some(*count),
        _ => None,
    }
}

/// The name of the custom section that a `wasmparser::Payload` is, and what
/// follows the name, where it is one.
#[verifier::external_body]
pub(crate) fn custom_section<'a>(payload: &wasmparser::Payload<'a>) -> (r: Option<
    (&'a str, &'a [u8]),
>)
    ensures
        match (r, payload_view(*payload).kind) {
            (Some((name, data)), PayloadKind::Custom(_, text, bytes)) => name@ == text && data@
                == bytes,
            (None, PayloadKind::Custom(_, _, _)) => false,
            (Some(_), _) => false,
            (None, _) => true,
        },
{
    match payload {
        wasmparser::Payload::CustomSection { name, data, .. } => Some((*name, *data)),
        _ => None,
    }
}

/// What a `wasmparser::Payload` is, where it is no section to keep.
#[verifier::external_body]
pub(crate) fn control(payload: &wasmparser::Payload<'_>) -> (r: Option<Control>)
    ensures
        r == match payload_view(*payload).kind {
            PayloadKind::Control(control) => Some(control),
            _ => None,
        },
{
    match payload {
        wasmparser::Payload::Version { .. } => Some(Control::Header),
        wasmparser::Payload::CodeSectionEntry(_) => Some(Control::Body),
        wasmparser::Payload::AliasSection(_) => Some(Control::Alias),
        wasmparser::Payload::InstanceSection(_) => Some(Control::Instance),
        wasmparser::Payload::EventSection(_) => Some(Control::Event),
        wasmparser::Payload::ModuleSectionStart { .. } => Some(Control::Module),
        wasmparser::Payload::ModuleSectionEntry { .. } => Some(Control::Module),
        wasmparser::Payload::UnknownSection { id, .. } => Some(Control::Unknown(*id)),
        wasmparser::Payload::End => Some(Control::End),
        _ => None,
    }
}

/// The text that a `wasmparser::BinaryReaderError` displays.
#[verifier::external_body]
pub(crate) fn error_message(error: wasmparser::BinaryReaderError) -> (r: String)
    ensures
        r@ == error_text(error),
{
    error.to_string()
}

/// The items of a list, each by its view.
pub open spec fn views<T: View>(items: Seq<T>) -> Seq<T::V> {
    items.map_values(|item: T| item@)
}

/// The entries that a `wasmparser::TypeSectionReader` over the given contents
/// hands out.
#[verifier::external_body]
pub(crate) fn read_types(contents: &[u8], offset: usize) -> (r: Result<
    Vec<TypeDef>,
    wasmparser::BinaryReaderError,
>)
    requires
        offset + contents@.len() <= usize::MAX,
    ensures
        match (r, section_types(contents@, offset)) {
            (Ok(types), Ok(entries)) => views(types@) == entries,
            (Err(error), Err(text)) => error_text(error) == text,
            _ => false,
        },
{
    let value = |ty: &T| match ty {
        T::I32 => ValType::I32, T::I64 => ValType::I64, T::F32 => ValType::F32,
        T::F64 => ValType::F64, T::V128 => ValType::V128, T::FuncRef => ValType::FuncRef,
        T::ExternRef => ValType::ExternRef, T::ExnRef => ValType::ExnRef,
        T::Func => ValType::Func, T::EmptyBlockType => ValType::EmptyBlockType
    };
    TypeSectionReader::new(contents, offset)?.into_iter().map(|ty| Ok(match ty? {
        D::Func(f) => TypeDef::Func(FuncType {
            params: f.params.iter().map(value).collect(),
            returns: f.returns.iter().map(value).collect()
        }),
        D::Instance(_) => TypeDef::Instance,
        D::Module(_) => TypeDef::Module
    })).collect()
}

/// The entries that a `wasmparser::ImportSectionReader` over the given contents
/// hands out.
#[verifier::external_body]
pub(crate) fn read_imports<'a>(contents: &'a [u8], offset: usize) -> (r: Result<
    Vec<Import<'a>>,
    wasmparser::BinaryReaderError,
>)
    requires
        offset + contents@.len() <= usize::MAX,
    ensures
        match (r, section_imports(contents@, offset)) {
            (Ok(imports), Ok(entries)) => views(imports@) == entries,
            (Err(error), Err(text)) => error_text(error) == text,
            _ => false,
        },
{
    wasmparser::ImportSectionReader::new(contents, offset)?.into_iter().map(|import| {
        let wasmparser::Import { module, field, ty } = import?;
        Ok(Import { module, field, ty: match ty {
            I::Function(index) => ImportType::Function(index),
            I::Table(_) => ImportType::Table,
            I::Memory(_) => ImportType::Memory,
            I::Event(_) => ImportType::Event,
            I::Global(_) => ImportType::Global,
            I::Module(index) => ImportType::Module(index),
            I::Instance(index) => ImportType::Instance(index),
        } })
    }).collect()
}

/// The entries that a `wasmparser::FunctionSectionReader` over the given
/// contents hands out.
#[verifier::external_body]
pub(crate) fn read_functions(contents: &[u8], offset: usize) -> (r: Result<
    Vec<u32>,
    wasmparser::BinaryReaderError,
>)
    requires
        offset + contents@.len() <= usize::MAX,
    ensures
        match (r, section_functions(contents@, offset)) {
            (Ok(functions), Ok(entries)) => functions@ == entries,
            (Err(error), Err(text)) => error_text(error) == text,
            _ => false,
        },
{
    wasmparser::FunctionSectionReader::new(contents, offset)?.into_iter().collect()
}

/// The entries that a `wasmparser::ExportSectionReader` over the given contents
/// hands out.
#[verifier::external_body]
pub(crate) fn read_exports<'a>(contents: &'a [u8], offset: usize) -> (r: Result<
    Vec<Export<'a>>,
    wasmparser::BinaryReaderError,
>)
    requires
        offset + contents@.len() <= usize::MAX,
    ensures
        match (r, section_exports(contents@, offset)) {
            (Ok(exports), Ok(entries)) => views(exports@) == entries,
            (Err(error), Err(text)) => error_text(error) == text,
            _ => false,
        },
{
    wasmparser::ExportSectionReader::new(contents, offset)?.into_iter().map(|export| {
        let wasmparser::Export { field, kind, index } = export?;
        Ok(Export { field, index, kind: match kind {
            E::Function => ExternalKind::Function,
            E::Table => ExternalKind::Table,
            E::Memory => ExternalKind::Memory,
            E::Event => ExternalKind::Event,
            E::Global => ExternalKind::Global,
            E::Type => ExternalKind::Type,
            E::Module => ExternalKind::Module,
            E::Instance => ExternalKind::Instance,
        } })
    }).collect()
}

/// `std::str::from_utf8`: the text that the bytes encode, where they are
/// UTF-8, and the text of its error where they are not.
#[verifier::external_body]
pub(crate) fn utf8_text(bytes: &[u8]) -> (r: Result<&str, String>)
    ensures
        match r {
            Ok(text) => valid_utf8(bytes@) && text@ == decode_utf8(bytes@),
            Err(error) => !valid_utf8(bytes@) && error@ == utf8_error(bytes@),
        },
{
    match std::str::from_utf8(bytes) {
        Ok(text) => Ok(text),
        Err(error) => Err(error.to_string()),
    }
}

} // verus!
