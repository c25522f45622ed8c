//! The sections of a binary, in the order in which they are met.

use std::collections::VecDeque;

use vstd::pervasive::unreached;
use vstd::prelude::*;
use vstd::slice::slice_subrange;

use crate::binary::{
    accepted_bytes, bodies_left, body_count, body_validation, control, custom_section, error_message, function_body,
    new_parser, new_validator, next_payload, parse, parsed_bytes, read_exports, read_functions,
    read_imports, read_types, section_end, section_exports, section_functions, section_id,
    section_imports, section_range, section_types, validate, validate_body, validation, views,
    Control, PayloadKind,
};
use crate::encoder::{headed, preamble};
use crate::error::{Error, ErrorView, LinkedSection};
use crate::room::{data_fits, data_has_room, payload_fits, payload_has_room};
use crate::wasm::{
    section_code, Export, ExportView, Import, ImportView, Range, SectionId, TypeDef, TypeDefView,
};

verus! {

/// A section of a binary, or the reason why no more of them can be read.
#[derive(Debug, PartialEq, Eq)]
pub enum Entry<'a> {
    /// A section that is kept as it is.
    Section(SectionId, Range),
    /// A type section and its entries.
    Types(Range, Vec<TypeDef>),
    /// An import section and its entries.
    Imports(Range, Vec<Import<'a>>),
    /// A function section and its entries.
    Functions(Range, Vec<u32>),
    /// An export section and its entries.
    Exports(Range, Vec<Export<'a>>),
    /// A custom section, with its name and what follows the name.
    Custom(Range, &'a str, &'a [u8]),
    /// The binary is refused.
    Failed(Error),
}

/// What an [`Entry`] says.
#[verifier::ext_equal]
pub enum EntryView {
    Section(SectionId, Range),
    Types(Range, Seq<TypeDefView>),
    Imports(Range, Seq<ImportView>),
    Functions(Range, Seq<u32>),
    Exports(Range, Seq<ExportView>),
    Custom(Range, Seq<char>, Seq<u8>),
    Failed(ErrorView),
}

impl<'a> View for Entry<'a> {
    type V = EntryView;

    open spec fn view(&self) -> EntryView {
        match self {
            Entry::Section(id, range) => EntryView::Section(*id, *range),
            Entry::Types(range, types) => EntryView::Types(*range, views(types@)),
            Entry::Imports(range, imports) => EntryView::Imports(*range, views(imports@)),
            Entry::Functions(range, functions) => EntryView::Functions(*range, functions@),
            Entry::Exports(range, exports) => EntryView::Exports(*range, views(exports@)),
            Entry::Custom(range, name, data) => EntryView::Custom(*range, name@, data@),
            Entry::Failed(error) => EntryView::Failed(error@),
        }
    }
}

/// The section that an entry stands for.
pub open spec fn entry_section(entry: EntryView) -> (SectionId, Range) {
    match entry {
        EntryView::Section(id, range) => (id, range),
        EntryView::Types(range, _) => (SectionId::Type, range),
        EntryView::Imports(range, _) => (SectionId::Import, range),
        EntryView::Functions(range, _) => (SectionId::Function, range),
        EntryView::Exports(range, _) => (SectionId::Export, range),
        EntryView::Custom(range, _, _) => (SectionId::Custom, range),
        EntryView::Failed(_) => (SectionId::Custom, Range { start: 0, end: 0 }),
    }
}

/// The entry for a section other than a custom one.
pub open spec fn section_entry(bytes: Seq<u8>, id: SectionId, range: Range) -> EntryView {
    let contents = bytes.subrange(range.start as int, range.end as int);
    match id {
        SectionId::Type => match section_types(contents, range.start) {
            Ok(types) => EntryView::Types(range, types),
            Err(text) => EntryView::Failed(ErrorView::Binary(text)),
        },
        SectionId::Import => match section_imports(contents, range.start) {
            Ok(imports) => EntryView::Imports(range, imports),
            Err(text) => EntryView::Failed(ErrorView::Binary(text)),
        },
        SectionId::Function => match section_functions(contents, range.start) {
            Ok(functions) => EntryView::Functions(range, functions),
            Err(text) => EntryView::Failed(ErrorView::Binary(text)),
        },
        SectionId::Export => match section_exports(contents, range.start) {
            Ok(exports) => EntryView::Exports(range, exports),
            Err(text) => EntryView::Failed(ErrorView::Binary(text)),
        },
        _ => EntryView::Section(id, range),
    }
}

/// Why a payload makes a binary be refused, where it does.
pub open spec fn refusal(control: Control) -> Option<ErrorView> {
    match control {
        Control::Alias => Some(ErrorView::AlreadyLinked(LinkedSection::Alias)),
        Control::Instance => Some(ErrorView::AlreadyLinked(LinkedSection::Instance)),
        Control::Module => Some(ErrorView::AlreadyLinked(LinkedSection::Module)),
        Control::Event => Some(ErrorView::EventSection),
        Control::Unknown(id) => Some(ErrorView::UnknownSection(id)),
        Control::Header | Control::Body | Control::End => None,
    }
}

/// What the next payload of a binary comes to.
#[verifier::ext_equal]
pub enum StepView {
    /// The binary ends.
    End,
    /// The binary is refused.
    Refused(ErrorView),
    /// There may be an entry, and so many bytes are done with.
    Next(Option<EntryView>, nat),
}

/// What the payload at `position` comes to.
///
/// Sections that only linked modules have are refused unseen; everything else
/// is validated, and the entries of a section are read after that. What the body
/// of a function holds is validated as well.
pub open spec fn step(bytes: Seq<u8>, position: nat) -> StepView {
    let before = bytes.take(position as int);
    let rest = bytes.skip(position as int);
    match next_payload(before, rest) {
        Err(text) => StepView::Refused(ErrorView::Binary(text)),
        Ok((kind, count)) => {
            let taken = rest.take(count as int);
            match (kind, validation(before, taken)) {
                (PayloadKind::Control(Control::End), _) => StepView::End,
                (PayloadKind::Control(control), valid) => match (refusal(control), valid) {
                    (Some(error), _) => StepView::Refused(error),
                    (None, Err(text)) => StepView::Refused(ErrorView::Binary(text)),
                    (None, Ok(_)) => match (control, body_validation(before, taken)) {
                        (Control::Body, Err(text)) => StepView::Refused(ErrorView::Binary(text)),
                        _ => StepView::Next(None, count),
                    },
                },
                (PayloadKind::Custom(range, name, data), _) => StepView::Next(
                    Some(EntryView::Custom(range, name, data)),
                    count,
                ),
                (PayloadKind::Section(_, _), Err(text)) => StepView::Refused(
                    ErrorView::Binary(text),
                ),
                (PayloadKind::Code(_, _), Err(text)) => StepView::Refused(ErrorView::Binary(text)),
                (PayloadKind::Code(range, _), Ok(_)) => StepView::Next(
                    Some(EntryView::Section(SectionId::Code, range)),
                    count,
                ),
                (PayloadKind::Section(id, range), Ok(_)) => match section_entry(bytes, id, range) {
                    EntryView::Failed(error) => StepView::Refused(error),
                    entry => StepView::Next(Some(entry), count),
                },
            }
        },
    }
}

/// The entries of a binary from the payload at `position` on. The list ends
/// with the binary, or with the first failure.
pub open spec fn entries_from(bytes: Seq<u8>, position: nat) -> Seq<EntryView>
    decreases bytes.len() - position,
{
    match step(bytes, position) {
        StepView::End => Seq::empty(),
        StepView::Refused(error) => seq![EntryView::Failed(error)],
        StepView::Next(entry, count) => {
            let more = if 0 < count && position + count <= bytes.len() {
                entries_from(bytes, position + count)
            } else {
                Seq::empty()
            };
            match entry {
                Some(entry) => seq![entry] + more,
                None => more,
            }
        },
    }
}

/// The entries of a binary.
pub open spec fn entries(bytes: Seq<u8>) -> Seq<EntryView> {
    entries_from(bytes, 0)
}

/// Whether an entry is the reason why a binary is refused, or stands for a
/// section whose length is a `u32` and which, but for the code section, ends
/// within the first `len` bytes.
pub open spec fn sound_entry(entry: EntryView, len: nat) -> bool {
    match entry {
        EntryView::Failed(_) => true,
        _ => {
            let (id, range) = entry_section(entry);
            &&& range.end - range.start <= u32::MAX
            &&& id != SectionId::Code ==> range.within(len)
        },
    }
}

/// Whether all entries are sound.
pub open spec fn sound(list: Seq<EntryView>, len: nat) -> bool {
    forall|i: int| 0 <= i < list.len() ==> sound_entry(#[trigger] list[i], len)
}

/// Where the section of the entry at `i` starts with its header: where the
/// section of the entry before it ends, or behind the preamble.
pub open spec fn header_offset(list: Seq<EntryView>, i: int) -> nat {
    if i == 0 {
        preamble().len()
    } else {
        entry_section(list[i - 1]).1.end as nat
    }
}

/// Whether an entry is the reason why a binary is refused, or stands for a
/// section with a header at `position`.
pub open spec fn framed_entry(bytes: Seq<u8>, position: nat, entry: EntryView) -> bool {
    match entry {
        EntryView::Failed(_) => true,
        _ => {
            let (id, range) = entry_section(entry);
            &&& position <= bytes.len()
            &&& headed(bytes.skip(position as int), position, section_code(id), range)
        },
    }
}

/// Whether the preamble and the sections, each behind its header, make up the
/// bytes of a binary, up to where it is refused.
pub open spec fn framed(bytes: Seq<u8>, list: Seq<EntryView>) -> bool {
    &&& forall|i: int|
        0 <= i < list.len() ==> framed_entry(bytes, #[trigger] header_offset(list, i), list[i])
    &&& list.len() > 0 && list.last() is Failed || {
        &&& bytes.len() >= preamble().len()
        &&& bytes.take(preamble().len() as int) == preamble()
        &&& header_offset(list, list.len() as int) == bytes.len()
    }
}

/// The entry for a section other than a custom one.
fn read_section<'a>(bytes: &'a [u8], id: SectionId, range: Range) -> (r: Entry<'a>)
    requires
        id != SectionId::Code ==> range.within(bytes@.len()),
    ensures
        r@ == section_entry(bytes@, id, range),
{
    match id {
        SectionId::Type => {
            let contents = slice_subrange(bytes, range.start, range.end);
            match read_types(contents, range.start) {
                Ok(types) => Entry::Types(range, types),
                Err(error) => Entry::Failed(Error::Binary(error_message(error))),
            }
        },
        SectionId::Import => {
            let contents = slice_subrange(bytes, range.start, range.end);
            match read_imports(contents, range.start) {
                Ok(imports) => Entry::Imports(range, imports),
                Err(error) => Entry::Failed(Error::Binary(error_message(error))),
            }
        },
        SectionId::Function => {
            let contents = slice_subrange(bytes, range.start, range.end);
            match read_functions(contents, range.start) {
                Ok(functions) => Entry::Functions(range, functions),
                Err(error) => Entry::Failed(Error::Binary(error_message(error))),
            }
        },
        SectionId::Export => {
            let contents = slice_subrange(bytes, range.start, range.end);
            match read_exports(contents, range.start) {
                Ok(exports) => Entry::Exports(range, exports),
                Err(error) => Entry::Failed(Error::Binary(error_message(error))),
            }
        },
        _ => Entry::Section(id, range),
    }
}

/// Why a payload makes a binary be refused, where it does.
fn refused(control: Control) -> (r: Option<Error>)
    ensures
        match (r, refusal(control)) {
            (Some(error), Some(view)) => error@ == view,
            (None, None) => true,
            _ => false,
        },
{
    match control {
        Control::Alias => Some(Error::AlreadyLinked(LinkedSection::Alias)),
        Control::Instance => Some(Error::AlreadyLinked(LinkedSection::Instance)),
        Control::Module => Some(Error::AlreadyLinked(LinkedSection::Module)),
        Control::Event => Some(Error::EventSection),
        Control::Unknown(id) => Some(Error::UnknownSection(id)),
        Control::Header | Control::Body | Control::End => None,
    }
}

/// A list of entries with one more behind it.
proof fn lemma_views_push<'a>(list: Seq<Entry<'a>>, entry: Entry<'a>)
    ensures
        views(list.push(entry)) == views(list).push(entry@),
{
    assert(views(list.push(entry)) =~= views(list).push(entry@));
}

/// A list of framed entries with one more behind it.
proof fn lemma_framed_push(bytes: Seq<u8>, list: Seq<EntryView>, entry: EntryView)
    requires
        forall|i: int|
            0 <= i < list.len() ==> framed_entry(bytes, #[trigger] header_offset(list, i), list[i]),
        framed_entry(bytes, header_offset(list, list.len() as int), entry),
    ensures
        forall|i: int|
            0 <= i < list.len() + 1 ==> framed_entry(
                bytes,
                #[trigger] header_offset(list.push(entry), i),
                list.push(entry)[i],
            ),
{
    let longer = list.push(entry);
    assert forall|i: int| 0 <= i < list.len() + 1 implies framed_entry(
        bytes,
        #[trigger] header_offset(longer, i),
        longer[i],
    ) by {
        assert(header_offset(longer, i) == header_offset(list, i));
        if i < list.len() {
            assert(longer[i] == list[i]);
        }
    }
}

/// How far a binary has been read.
#[derive(Clone, Copy, Debug, PartialEq, Eq)]
pub struct Place {
    /// The bytes that have been read.
    pub position: usize,
    /// The bodies of the code section that are yet to be read.
    pub bodies: u32,
    /// Where the section ends that is being read.
    pub end: usize,
}

impl Place {
    /// The start of a binary.
    pub open spec fn start() -> Place {
        Place { position: 0, bodies: 0, end: 0 }
    }

    /// The place behind a payload that takes `count` bytes.
    pub open spec fn behind(self, kind: PayloadKind, count: nat) -> Place {
        let position = (self.position + count) as usize;
        match kind {
            PayloadKind::Code(range, bodies) => Place { position, bodies, end: range.end },
            PayloadKind::Control(Control::Body) => Place {
                position,
                bodies: (self.bodies - 1) as u32,
                end: self.end,
            },
            _ => Place { position, bodies: 0, end: position },
        }
    }
}

/// Whether the lengths that the payload at a place announces leave room.
pub open spec fn has_room(bytes: Seq<u8>, place: Place) -> bool {
    let before = bytes.take(place.position as int);
    let rest = bytes.skip(place.position as int);
    &&& payload_fits(place.position as nat, rest, place.bodies as nat, place.end as nat)
    &&& match next_payload(before, rest) {
        Ok((PayloadKind::Section(SectionId::Data, range), _)) => range.within(bytes.len())
            ==> data_fits(bytes.subrange(range.start as int, range.end as int)),
        _ => true,
    }
}

/// Whether the lengths that a binary announces from a place on leave room, up to
/// where it is refused.
pub open spec fn readable_from(bytes: Seq<u8>, place: Place) -> bool
    decreases bytes.len() - place.position,
{
    let before = bytes.take(place.position as int);
    let rest = bytes.skip(place.position as int);
    &&& has_room(bytes, place)
    &&& match (step(bytes, place.position as nat), next_payload(before, rest)) {
        (StepView::Next(_, count), Ok((kind, _))) => {
            0 < count && place.position + count <= bytes.len() && bytes.len() <= usize::MAX
                ==> readable_from(bytes, place.behind(kind, count))
        },
        _ => true,
    }
}

/// Whether the lengths that a binary announces leave room, up to where it is
/// refused. All do, where an offset can be larger than the length of the binary
/// by as much as a `u32` can say.
pub open spec fn readable(bytes: Seq<u8>) -> bool {
    readable_from(bytes, Place::start())
}

/// What the next payload of a binary comes to.
enum Step<'a> {
    End,
    Refused(Error),
    Next(Option<Entry<'a>>, Place),
}

impl<'a> Step<'a> {
    spec fn comes_to(self, position: nat, view: StepView) -> bool {
        match (self, view) {
            (Step::End, StepView::End) => true,
            (Step::Refused(error), StepView::Refused(reason)) => error@ == reason,
            (Step::Next(Some(entry), place), StepView::Next(Some(listed), count)) => entry@
                == listed && place.position == position + count,
            (Step::Next(None, place), StepView::Next(None, count)) => place.position == position
                + count,
            _ => false,
        }
    }
}

/// Whether a parser and a validator have come to a place.
spec fn stand_at(
    parser: wasmparser::Parser,
    validator: wasmparser::Validator,
    bytes: Seq<u8>,
    place: Place,
) -> bool {
    &&& place.position <= bytes.len()
    &&& parsed_bytes(parser) == Some(bytes.take(place.position as int))
    &&& accepted_bytes(validator) == Some(bytes.take(place.position as int))
    &&& bodies_left(parser) == place.bodies
    &&& section_end(parser) == place.end
}

/// Reads the payload at a place, where there is room for the lengths that it
/// announces.
fn read_payload<'a>(
    bytes: &'a [u8],
    place: Place,
    parser: &mut wasmparser::Parser,
    validator: &mut wasmparser::Validator,
) -> (r: Option<Step<'a>>)
    requires
        stand_at(*old(parser), *old(validator), bytes@, place),
    ensures
        r is Some <==> has_room(bytes@, place),
        r matches Some(step) ==> {
            &&& step.comes_to(place.position as nat, self::step(bytes@, place.position as nat))
            &&& match step {
                Step::End => 0 < place.position == bytes@.len() && place.end == place.position,
                Step::Refused(_) => true,
                Step::Next(entry, next) => {
                    &&& place.position < next.position
                    &&& next_payload(
                        bytes@.take(place.position as int),
                        bytes@.skip(place.position as int),
                    ) matches Ok((kind, count)) && next == place.behind(kind, count)
                    &&& stand_at(*final(parser), *final(validator), bytes@, next)
                    &&& match entry {
                        None if place.position == 0 => {
                            &&& next.position == preamble().len()
                            &&& bytes@.take(preamble().len() as int) == preamble()
                            &&& next.end == next.position
                        },
                        None => next.end == place.end,
                        Some(entry) => {
                            &&& 0 < place.position == place.end
                            &&& next.end == entry_section(entry@).1.end
                            &&& sound_entry(entry@, bytes@.len())
                            &&& framed_entry(bytes@, place.position as nat, entry@)
                        },
                    }
                },
            }
        },
{
    let position = place.position;
    let ghost before = bytes@.take(position as int);
    let data = slice_subrange(bytes, position, bytes.len());
    assert(data@ =~= bytes@.skip(position as int));
    if !payload_has_room(bytes, position, place.bodies, place.end) {
        return None;
    }
    let (payload, count) = match parse(parser, data) {
        Ok(parsed) => parsed.unwrap(),
        Err(error) => return Some(Step::Refused(Error::Binary(error_message(error)))),
    };
    let ghost taken = data@.take(count as int);
    assert(before + taken =~= bytes@.take(position + count));
    let mut next = Place { position: position + count, bodies: 0, end: position + count };
    if let Some(control) = control(&payload) {
        if control == Control::End {
            return Some(Step::End);
        }
        if let Some(error) = refused(control) {
            return Some(Step::Refused(error));
        }
        if control == Control::Body {
            next.bodies = place.bodies - 1;
            next.end = place.end;
        }
    }
    let section = (section_range(&payload), section_id(&payload), custom_section(&payload));
    if let (Some(range), Some(SectionId::Data), _) = section {
        let contents = slice_subrange(bytes, range.start, range.end);
        assert(bytes@.take(position + count).subrange(range.start as int, range.end as int)
            =~= contents@);
        if !data_has_room(contents) {
            return None;
        }
    }
    let valid = match validate(validator, &payload) {
        Ok(valid) => valid,
        Err(error) => return Some(Step::Refused(Error::Binary(error_message(error)))),
    };
    if let Some((checker, body)) = function_body(valid) {
        let mut checker = checker;
        if let Err(error) = validate_body(&mut checker, &body) {
            return Some(Step::Refused(Error::Binary(error_message(error))));
        }
    }
    assert(position == 0 ==> bytes@.take(count as int) =~= taken);
    if let (Some(bodies), Some(range)) = (body_count(&payload), section.0) {
        next.bodies = bodies;
        next.end = range.end;
    }
    Some(
        match section {
            (Some(range), Some(id), _) => match read_section(bytes, id, range) {
                Entry::Failed(error) => Step::Refused(error),
                entry => Step::Next(Some(entry), next),
            },
            (Some(range), None, Some((name, data))) => Step::Next(
                Some(Entry::Custom(range, name, data)),
                next,
            ),
            _ => Step::Next(None, next),
        },
    )
}

/// Reads the entries of a binary, where there is room for the lengths that it
/// announces, and gives nothing where there is not.
pub fn read_entries_checked<'a>(bytes: &'a [u8]) -> (r: Option<VecDeque<Entry<'a>>>)
    ensures
        r is Some <==> readable(bytes@),
        r matches Some(list) ==> {
            &&& views(list@) == entries(bytes@)
            &&& sound(entries(bytes@), bytes@.len())
            &&& framed(bytes@, entries(bytes@))
        },
{
    let mut parser = new_parser();
    let mut validator = new_validator();
    let mut list: VecDeque<Entry<'a>> = VecDeque::new();
    let mut place = Place { position: 0, bodies: 0, end: 0 };
    let len = bytes.len();
    assert(bytes@.take(0) =~= Seq::<u8>::empty());
    assert(views(list@) + entries(bytes@) =~= entries(bytes@));
    loop
        invariant
            len == bytes@.len(),
            stand_at(parser, validator, bytes@, place),
            readable(bytes@) == readable_from(bytes@, place),
            views(list@) + entries_from(bytes@, place.position as nat) == entries(bytes@),
            sound(views(list@), bytes@.len()),
            forall|i: int|
                0 <= i < list@.len() ==> framed_entry(
                    bytes@,
                    #[trigger] header_offset(views(list@), i),
                    views(list@)[i],
                ),
            place.position == 0 ==> list@.len() == 0,
            place.position > 0 ==> {
                &&& preamble().len() <= place.position
                &&& bytes@.take(preamble().len() as int) == preamble()
                &&& place.end == header_offset(views(list@), list@.len() as int)
            },
        decreases bytes@.len() - place.position,
    {
        match read_payload(bytes, place, &mut parser, &mut validator) {
            None => return None,
            Some(Step::End) => {
                assert(views(list@) =~= entries(bytes@));
                return Some(list);
            },
            Some(Step::Refused(error)) => {
                let entry = Entry::Failed(error);
                proof {
                    lemma_views_push(list@, entry);
                    lemma_framed_push(bytes@, views(list@), entry@);
                }
                list.push_back(entry);
                assert(views(list@) =~= entries(bytes@));
                return Some(list);
            },
            Some(Step::Next(entry, next)) => {
                if let Some(entry) = entry {
                    proof {
                        lemma_views_push(list@, entry);
                        lemma_framed_push(bytes@, views(list@), entry@);
                    }
                    list.push_back(entry);
                }
                place = next;
                assert(views(list@) + entries_from(bytes@, place.position as nat) =~= entries(
                    bytes@,
                ));
            },
        }
    }
}

/// Reads the entries of a binary.
pub fn read_entries<'a>(bytes: &'a [u8]) -> (r: VecDeque<Entry<'a>>)
    requires
        readable(bytes@),
    ensures
        views(r@) == entries(bytes@),
        sound(entries(bytes@), bytes@.len()),
        framed(bytes@, entries(bytes@)),
{
    match read_entries_checked(bytes) {
        Some(list) => list,
        None => unreached(),
    }
}

} // verus!
