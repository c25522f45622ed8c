use std::collections::VecDeque;

use wasmlink::error::{Error, LinkedSection};
use wasmlink::module::{is_truncated, Loading, Module};
use wasmlink::reader::{read_entries, Entry};
use wasmlink::room::{data_has_room, payload_has_room};
use wasmlink::wasm::{
    Export, ExternalKind, FuncType, Import, ImportType, Range, RawSection, SectionId, TypeDef,
    ValType,
};
use wasmlink::witx::{Definition, SizeAlign};

/// A section with contents that are shorter than 128 bytes.
fn section(id: u8, contents: &[u8]) -> Vec<u8> {
    assert!(contents.len() < 128);
    let mut bytes = vec![id, contents.len() as u8];
    bytes.extend_from_slice(contents);
    bytes
}

fn binary(sections: &[Vec<u8>]) -> Vec<u8> {
    let mut bytes = vec![0x00, 0x61, 0x73, 0x6d, 0x01, 0x00, 0x00, 0x00];
    for section in sections {
        bytes.extend_from_slice(section);
    }
    bytes
}

fn custom(name: &str, data: &[u8]) -> Vec<u8> {
    let mut contents = vec![name.len() as u8];
    contents.extend_from_slice(name.as_bytes());
    contents.extend_from_slice(data);
    section(0, &contents)
}

/// `(i32, i64) -> f32` and `() -> ()`.
const TYPES: &[u8] = &[2, 0x60, 2, 0x7f, 0x7e, 1, 0x7d, 0x60, 0, 0];

/// A function `env.f` of the first type, and a memory `env.m`.
const IMPORTS: &[u8] = &[
    2, 3, b'e', b'n', b'v', 1, b'f', 0, 0, 3, b'e', b'n', b'v', 1, b'm', 2, 0, 1,
];

/// A function of the first type and one of the second.
const FUNCTIONS: &[u8] = &[2, 0, 1];

const TABLE: &[u8] = &[1, 0x70, 0, 1];
const GLOBAL: &[u8] = &[1, 0x7f, 0, 0x41, 7, 0x0b];

/// The second function as `g`, and the memory as `mem`.
const EXPORTS: &[u8] = &[2, 1, b'g', 0, 1, 3, b'm', b'e', b'm', 2, 0];

const START: &[u8] = &[2];
const ELEMENT: &[u8] = &[1, 0, 0x41, 0, 0x0b, 1, 0];
const DATA_COUNT: &[u8] = &[1];
const CODE: &[u8] = &[2, 7, 0, 0x43, 0, 0, 0, 0, 0x0b, 2, 0, 0x0b];
const DATA: &[u8] = &[1, 0, 0x41, 0, 0x0b, 2, b'h', b'i'];

fn everything() -> Vec<u8> {
    binary(&[
        custom("note", &[1, 2, 3]),
        section(1, TYPES),
        section(2, IMPORTS),
        section(3, FUNCTIONS),
        section(4, TABLE),
        section(6, GLOBAL),
        section(7, EXPORTS),
        section(8, START),
        section(9, ELEMENT),
        section(12, DATA_COUNT),
        section(10, CODE),
        section(11, DATA),
    ])
}

fn load<'a>(bytes: &'a [u8]) -> Module<'a> {
    match Module::new_checked("m", bytes) {
        Some(Ok(Loading::Ready(module))) => module,
        other => panic!("{:?}", other),
    }
}

fn refused(bytes: &[u8]) -> Error {
    match Module::new_checked("m", bytes) {
        Some(Err(error)) => error,
        other => panic!("{:?}", other),
    }
}

fn empty_definition() -> Definition {
    Definition {
        types: vec![],
        functions: vec![],
        resources: vec![],
        sizes: SizeAlign { map: vec![] },
    }
}

#[test]
fn an_empty_module_has_nothing() {
    let bytes = binary(&[]);
    let module = load(&bytes);
    assert_eq!(module.name, "m");
    assert_eq!(module.bytes, &bytes[..]);
    assert!(module.types.is_empty());
    assert!(module.imports.is_empty());
    assert!(module.exports.is_empty());
    assert!(module.functions.is_empty());
    assert!(module.sections.is_empty());
    assert!(module.interface.is_none());
    assert!(!module.must_adapt());
    assert!(!module.has_resources());
}

#[test]
fn every_section_is_kept_in_order() {
    let bytes = everything();
    let module = load(&bytes);
    let mut note = vec![4];
    note.extend_from_slice(b"note");
    note.extend_from_slice(&[1, 2, 3]);
    assert_eq!(
        module.sections,
        vec![
            RawSection { id: 0, data: &note },
            RawSection { id: 1, data: TYPES },
            RawSection { id: 2, data: IMPORTS },
            RawSection { id: 3, data: FUNCTIONS },
            RawSection { id: 4, data: TABLE },
            RawSection { id: 6, data: GLOBAL },
            RawSection { id: 7, data: EXPORTS },
            RawSection { id: 8, data: START },
            RawSection { id: 9, data: ELEMENT },
            RawSection { id: 12, data: DATA_COUNT },
            RawSection { id: 10, data: CODE },
            RawSection { id: 11, data: DATA },
        ]
    );
}

#[test]
fn what_the_sections_list_is_kept() {
    let bytes = everything();
    let module = load(&bytes);
    assert_eq!(
        module.types,
        vec![
            TypeDef::Func(FuncType {
                params: vec![ValType::I32, ValType::I64],
                returns: vec![ValType::F32],
            }),
            TypeDef::Func(FuncType { params: vec![], returns: vec![] }),
        ]
    );
    assert_eq!(
        module.imports,
        vec![
            Import { module: "env", field: Some("f"), ty: ImportType::Function(0) },
            Import { module: "env", field: Some("m"), ty: ImportType::Memory },
        ]
    );
    assert_eq!(module.functions, vec![0, 1]);
    assert_eq!(
        module.exports,
        vec![
            Export { field: "g", kind: ExternalKind::Function, index: 1 },
            Export { field: "mem", kind: ExternalKind::Memory, index: 0 },
        ]
    );
}

#[test]
fn a_memory_section_is_kept() {
    let memory = [1, 0, 1];
    let bytes = binary(&[section(5, &memory)]);
    assert_eq!(load(&bytes).sections, vec![RawSection { id: 5, data: &memory }]);
}

#[test]
fn value_types_are_told_apart() {
    let types = [1, 0x60, 6, 0x7f, 0x7e, 0x7d, 0x7c, 0x70, 0x6f, 0];
    let bytes = binary(&[section(1, &types)]);
    let params = vec![
        ValType::I32,
        ValType::I64,
        ValType::F32,
        ValType::F64,
        ValType::FuncRef,
        ValType::ExternRef,
    ];
    assert_eq!(load(&bytes).types, vec![TypeDef::Func(FuncType { params, returns: vec![] })]);
}

#[test]
fn kinds_of_imports_and_exports_are_told_apart() {
    let imports = [
        2, 1, b'e', 1, b't', 1, 0x70, 0, 1, 1, b'e', 1, b'g', 3, 0x7f, 0,
    ];
    let exports = [2, 1, b'a', 1, 0, 1, b'b', 3, 0];
    let bytes = binary(&[section(2, &imports), section(7, &exports)]);
    let module = load(&bytes);
    assert_eq!(
        module.imports,
        vec![
            Import { module: "e", field: Some("t"), ty: ImportType::Table },
            Import { module: "e", field: Some("g"), ty: ImportType::Global },
        ]
    );
    assert_eq!(
        module.exports,
        vec![
            Export { field: "a", kind: ExternalKind::Table, index: 0 },
            Export { field: "b", kind: ExternalKind::Global, index: 0 },
        ]
    );
}

#[test]
fn entries_say_where_sections_lie() {
    let bytes = binary(&[section(3, &[0]), custom("ab", b"xyz"), section(5, &[1, 0, 1])]);
    let entries: Vec<Entry> = read_entries(&bytes).into_iter().collect();
    assert_eq!(
        entries,
        vec![
            Entry::Functions(Range { start: 10, end: 11 }, vec![]),
            Entry::Custom(Range { start: 13, end: 19 }, "ab", b"xyz"),
            Entry::Section(SectionId::Memory, Range { start: 21, end: 24 }),
        ]
    );
}

/// Why bytes are not a valid binary; empty where they are one.
fn wasmparser_error(bytes: &[u8]) -> String {
    match wasmparser::Validator::new().validate_all(bytes) {
        Ok(_) => String::new(),
        Err(error) => error.to_string(),
    }
}

#[test]
fn bytes_that_are_no_binary_are_refused() {
    let error = refused(b"hello world");
    assert_eq!(error, Error::Binary(wasmparser_error(b"hello world")));
    assert_eq!(error.message(), "Bad magic number (at offset 0)");
    assert!(matches!(refused(b""), Error::Binary(_)));
}

#[test]
fn a_section_that_is_cut_short_is_refused() {
    let mut bytes = binary(&[section(1, TYPES)]);
    bytes.pop();
    assert_eq!(refused(&bytes), Error::Binary(wasmparser_error(&bytes)));
}

#[test]
fn invalid_sections_are_refused() {
    // The function has a type that does not exist.
    let bytes = binary(&[section(1, TYPES), section(3, &[1, 5])]);
    let expected = wasmparser_error(&bytes);
    assert!(expected.contains("unknown type"), "{}", expected);
    assert_eq!(refused(&bytes), Error::Binary(expected));
}

#[test]
fn sections_out_of_order_are_refused() {
    let bytes = binary(&[section(3, &[0]), section(1, &[0])]);
    assert_eq!(refused(&bytes), Error::Binary(wasmparser_error(&bytes)));
}

#[test]
fn invalid_function_bodies_are_refused() {
    // The body leaves nothing on the stack where a result is due.
    let types = [1, 0x60, 0, 1, 0x7f];
    let bytes = binary(&[
        section(1, &types),
        section(3, &[1, 0]),
        section(10, &[1, 2, 0, 0x0b]),
    ]);
    let expected = wasmparser_error(&bytes);
    assert!(!expected.is_empty());
    assert_eq!(refused(&bytes), Error::Binary(expected));
}

#[test]
fn functions_without_code_are_not_looked_for() {
    let bytes = binary(&[section(1, TYPES), section(3, FUNCTIONS)]);
    assert_eq!(load(&bytes).functions, vec![0, 1]);
}

#[test]
fn linked_modules_are_refused() {
    assert_eq!(
        refused(&binary(&[section(16, &[0])])),
        Error::AlreadyLinked(LinkedSection::Alias)
    );
    assert_eq!(
        refused(&binary(&[section(15, &[0])])),
        Error::AlreadyLinked(LinkedSection::Instance)
    );
    assert_eq!(
        refused(&binary(&[section(14, &[0])])),
        Error::AlreadyLinked(LinkedSection::Module)
    );
}

#[test]
fn event_sections_are_refused() {
    assert_eq!(refused(&binary(&[section(13, &[0])])), Error::EventSection);
}

#[test]
fn unknown_sections_are_refused() {
    assert_eq!(refused(&binary(&[section(17, &[1, 2])])), Error::UnknownSection(17));
    assert_eq!(refused(&binary(&[section(127, &[])])), Error::UnknownSection(127));
    assert_eq!(
        refused(&binary(&[section(200, &[])])),
        Error::Binary("Invalid var_u7 (at offset 8)".to_string())
    );
}

#[test]
fn the_first_failure_counts() {
    let bytes = binary(&[section(13, &[0]), section(17, &[])]);
    assert_eq!(refused(&bytes), Error::EventSection);
    let entries: Vec<Entry> = read_entries(&bytes).into_iter().collect();
    assert_eq!(entries, vec![Entry::Failed(Error::EventSection)]);
}

#[test]
fn a_code_section_past_the_end_is_not_loaded() {
    // The code section announces more bytes than there are.
    let mut bytes = binary(&[section(1, TYPES), section(3, &[1, 1])]);
    bytes.extend_from_slice(&[10, 100, 1, 2, 0, 0x0b]);
    assert!(Module::new_checked("m", &bytes).is_none());
    let entries = read_entries(&bytes);
    assert!(is_truncated(&entries, bytes.len()));
    let whole = everything();
    assert!(!is_truncated(&read_entries(&whole), whole.len()));
}

#[test]
fn modules_load_from_entries() {
    let bytes = [7, 8, 9];
    let mut entries = VecDeque::new();
    entries.push_back(Entry::Functions(Range { start: 0, end: 1 }, vec![4]));
    entries.push_back(Entry::Functions(Range { start: 1, end: 3 }, vec![5, 6]));
    match Module::from_entries("x", &bytes, entries) {
        Ok(Loading::Ready(module)) => {
            assert_eq!(module.name, "x");
            assert_eq!(module.functions, vec![4, 5, 6]);
            assert_eq!(
                module.sections,
                vec![RawSection { id: 3, data: &[7] }, RawSection { id: 3, data: &[8, 9] }]
            );
        }
        other => panic!("{:?}", other),
    }
}

#[test]
fn loading_waits_for_an_interface() {
    let bytes = binary(&[
        custom("note", &[]),
        custom(".interface", b"f: function()"),
        section(1, TYPES),
        custom(".interfaces", b"another name"),
    ]);
    let pending = match Module::new_checked("m", &bytes) {
        Some(Ok(Loading::Waiting(pending))) => pending,
        other => panic!("{:?}", other),
    };
    assert_eq!(pending.source, "f: function()");
    assert_eq!(pending.module.sections.len(), 1);
    let module = pending.resume_checked(Ok(empty_definition())).unwrap().unwrap();
    assert_eq!(module.interface.as_ref().unwrap().inner(), &empty_definition());
    assert_eq!(module.types.len(), 2);
    let ids: Vec<u8> = module.sections.iter().map(|section| section.id).collect();
    assert_eq!(ids, vec![0, 0, 1, 0]);
    assert_eq!(&module.sections[1].data[..11], b"\x0a.interface");
    assert_eq!(&module.sections[1].data[11..], b"f: function()");
}

#[test]
fn a_refused_interface_is_told() {
    let bytes = binary(&[custom(".interface", b"?")]);
    let pending = match Module::new("m", &bytes) {
        Ok(Loading::Waiting(pending)) => pending,
        other => panic!("{:?}", other),
    };
    let error = pending.resume(Err("unexpected `?`".to_string())).unwrap_err();
    assert_eq!(error, Error::InterfaceDefinition("unexpected `?`".to_string()));
}

#[test]
fn a_second_interface_is_refused() {
    let bytes = binary(&[custom(".interface", b"a"), custom(".interface", b"b")]);
    let pending = match Module::new("m", &bytes) {
        Ok(Loading::Waiting(pending)) => pending,
        other => panic!("{:?}", other),
    };
    assert_eq!(pending.source, "a");
    assert_eq!(
        pending.resume(Ok(empty_definition())).unwrap_err(),
        Error::MultipleInterfaces
    );
}

#[test]
fn a_failure_after_the_interface_is_told_when_loading_goes_on() {
    let bytes = binary(&[custom(".interface", b"a"), section(13, &[0])]);
    let pending = match Module::new("m", &bytes) {
        Ok(Loading::Waiting(pending)) => pending,
        other => panic!("{:?}", other),
    };
    assert_eq!(pending.resume(Ok(empty_definition())).unwrap_err(), Error::EventSection);
}

#[test]
fn a_code_section_past_the_end_behind_an_interface_is_not_loaded() {
    let mut bytes = binary(&[
        custom(".interface", b"a"),
        section(1, TYPES),
        section(3, &[1, 1]),
    ]);
    bytes.extend_from_slice(&[10, 100, 1, 2, 0, 0x0b]);
    let refused = match Module::new_checked("m", &bytes) {
        Some(Ok(Loading::Waiting(pending))) => pending.resume_checked(Err("no".to_string())),
        other => panic!("{:?}", other),
    };
    assert_eq!(
        refused.unwrap().unwrap_err(),
        Error::InterfaceDefinition("no".to_string())
    );
    let cut = match Module::new_checked("m", &bytes) {
        Some(Ok(Loading::Waiting(pending))) => pending.resume_checked(Ok(empty_definition())),
        other => panic!("{:?}", other),
    };
    assert!(cut.is_none());
}

#[test]
fn an_interface_that_is_no_text_is_refused() {
    let bytes = binary(&[custom(".interface", &[b'a', 0xff])]);
    assert_eq!(
        refused(&bytes),
        Error::InterfaceText("invalid utf-8 sequence of 1 bytes from index 1".to_string())
    );
}

#[test]
fn interface_text_may_hold_any_character() {
    let bytes = binary(&[custom(".interface", "naïve ≠ 🦀".as_bytes())]);
    match Module::new("m", &bytes) {
        Ok(Loading::Waiting(pending)) => assert_eq!(pending.source, "naïve ≠ 🦀"),
        other => panic!("{:?}", other),
    }
}

#[test]
fn an_interface_that_stands_apart_is_taken_on_once() {
    let bytes = binary(&[]);
    let mut module = load(&bytes);
    assert_eq!(
        module.read_interface(Err("no".to_string())),
        Err(Error::InterfaceDefinition("no".to_string()))
    );
    assert!(module.interface.is_none());
    assert_eq!(module.read_interface(Ok(empty_definition())), Ok(true));
    assert!(module.interface.is_some());
    assert_eq!(module.read_interface(Ok(empty_definition())), Ok(false));
    assert_eq!(module.read_interface(Err("no".to_string())), Ok(false));
}

#[test]
fn an_embedded_interface_takes_precedence() {
    let bytes = binary(&[custom(".interface", b"a")]);
    let pending = match Module::new("m", &bytes) {
        Ok(Loading::Waiting(pending)) => pending,
        other => panic!("{:?}", other),
    };
    let mut module = pending.resume(Ok(empty_definition())).unwrap();
    let mut other = empty_definition();
    other.sizes.map.push((4, 4));
    assert_eq!(module.read_interface(Ok(other)), Ok(false));
    assert_eq!(module.interface.as_ref().unwrap().inner(), &empty_definition());
}

#[test]
fn a_binary_in_its_shortest_form_is_encoded_as_it_was() {
    let bytes = everything();
    assert_eq!(load(&bytes).encode().finish(), bytes);
}

#[test]
fn longer_headers_are_shortened() {
    let mut bytes = binary(&[]);
    bytes.extend_from_slice(&[5, 0x83, 0x80, 0x00, 1, 0, 1]);
    let module = load(&bytes);
    assert_eq!(module.sections, vec![RawSection { id: 5, data: &[1, 0, 1] }]);
    assert_eq!(module.encode().finish(), binary(&[section(5, &[1, 0, 1])]));
    // No contents, and a length that takes one byte too many.
    let mut bytes = binary(&[section(5, &[1, 0, 1])]);
    bytes.extend_from_slice(&[0, 0x81, 0x00, 0]);
    assert_eq!(
        load(&bytes).encode().finish(),
        binary(&[section(5, &[1, 0, 1]), section(0, &[0])])
    );
}

#[test]
fn an_embedded_interface_is_encoded_as_it_was() {
    let bytes = binary(&[section(1, TYPES), custom(".interface", b"a"), section(3, FUNCTIONS)]);
    let module = match Module::new_checked("m", &bytes) {
        Some(Ok(Loading::Waiting(pending))) => {
            pending.resume_checked(Ok(empty_definition())).unwrap().unwrap()
        }
        other => panic!("{:?}", other),
    };
    assert_eq!(module.encode().finish(), bytes);
}

#[test]
fn one_more_custom_section_adds_itself() {
    let sections = [
        section(1, TYPES),
        section(2, IMPORTS),
        section(3, FUNCTIONS),
        section(7, EXPORTS),
        section(10, CODE),
    ];
    let plain = binary(&sections);
    let before = load(&plain);
    for k in 0..=sections.len() {
        let mut more = sections.to_vec();
        more.insert(k, custom("note", &[9]));
        let bytes = binary(&more);
        let after = load(&bytes);
        assert_eq!(after.types, before.types);
        assert_eq!(after.imports, before.imports);
        assert_eq!(after.functions, before.functions);
        assert_eq!(after.exports, before.exports);
        assert!(after.interface.is_none());
        let mut expected = before.sections.clone();
        expected.insert(k, RawSection { id: 0, data: b"\x04note\x09" });
        assert_eq!(after.sections, expected);
    }
}

#[test]
fn the_header_must_name_the_first_version() {
    let mut bytes = binary(&[]);
    bytes[4] = 2;
    assert_eq!(refused(&bytes), Error::Binary(wasmparser_error(&bytes)));
    // The parser lets this version pass; the validator does not.
    bytes[4] = 0x0d;
    assert_eq!(
        refused(&bytes),
        Error::Binary("bad wasm file version (at offset 0)".to_string())
    );
}

#[test]
fn data_segments_of_every_form_are_kept() {
    // An active segment, a passive one, and an active one that names its memory.
    let data = [
        3, 0, 0x41, 0x7f, 0x0b, 1, 0xff, 1, 5, 0xff, 0xff, 0xff, 0xff, 0x0f, 2, 0, 0x41, 1, 0x0b, 0,
    ];
    let bytes = binary(&[section(5, &[1, 0, 1]), section(11, &data)]);
    assert_eq!(load(&bytes).sections[1], RawSection { id: 11, data: &data });
    assert!(data_has_room(&data));
}

#[test]
fn announced_lengths_are_held_against_the_bytes() {
    // A section, the body of a function and a data segment of nearly four gibibytes.
    let huge = [0xff, 0xff, 0xff, 0xff, 0x0f];
    let mut bytes = binary(&[]);
    bytes.push(1);
    bytes.extend_from_slice(&huge);
    assert_eq!(payload_has_room(&bytes, 8, 0, 8), usize::BITS == 64);
    if usize::BITS == 64 {
        assert_eq!(refused(&bytes), Error::Binary(wasmparser_error(&bytes)));
    }

    let mut bytes = binary(&[section(1, TYPES), section(3, &[1, 1])]);
    bytes.extend_from_slice(&[10, 6, 1]);
    let body = bytes.len();
    bytes.extend_from_slice(&huge);
    assert_eq!(payload_has_room(&bytes, body, 1, body + 5), usize::BITS == 64);
    assert!(payload_has_room(&bytes, body, 0, body + 5));
    if usize::BITS == 64 {
        assert_eq!(refused(&bytes), Error::Binary(wasmparser_error(&bytes)));
    }

    let data = [1, 1, 0xff, 0xff, 0xff, 0xff, 0x0f];
    assert_eq!(data_has_room(&data), usize::BITS == 64);
    if usize::BITS == 64 {
        let bytes = binary(&[section(5, &[1, 0, 1]), section(11, &data)]);
        let expected = wasmparser_error(&bytes);
        assert!(expected.starts_with("Data segment extends past end"), "{}", expected);
        assert_eq!(refused(&bytes), Error::Binary(expected));
    }
}
