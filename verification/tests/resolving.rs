use wasmlink::error::{Error, LinkedSection};
use wasmlink::module::Module;
use wasmlink::wasm::{
    export_kind, import_kind, Export, ExternalKind, FuncType, Import, ImportType, RawSection,
    TypeDef, ValType,
};
use wasmlink::witx::{Definition, Function, SizeAlign, WasmSignature, WasmType};

fn func(params: &[ValType], returns: &[ValType]) -> TypeDef {
    TypeDef::Func(FuncType { params: params.to_vec(), returns: returns.to_vec() })
}

fn blank<'a>(name: &'a str) -> Module<'a> {
    Module {
        name,
        bytes: &[],
        types: vec![],
        imports: vec![],
        exports: vec![],
        functions: vec![],
        sections: vec![],
        interface: None,
    }
}

/// A module with a function `f` from an `i32` to an `i64`, and one export of
/// every other kind that can be spoken of.
fn exporter<'a>() -> Module<'a> {
    let mut module = blank("lib");
    module.types = vec![
        func(&[ValType::F32], &[]),
        func(&[ValType::I32], &[ValType::I64]),
        TypeDef::Instance,
    ];
    module.imports = vec![
        Import { module: "env", field: Some("i"), ty: ImportType::Function(0) },
        Import { module: "env", field: Some("m"), ty: ImportType::Memory },
    ];
    module.functions = vec![1, 2, 9];
    module.exports = vec![
        Export { field: "f", kind: ExternalKind::Function, index: 2 },
        Export { field: "t", kind: ExternalKind::Table, index: 0 },
        Export { field: "m", kind: ExternalKind::Memory, index: 0 },
        Export { field: "g", kind: ExternalKind::Global, index: 0 },
        Export { field: "mod", kind: ExternalKind::Module, index: 0 },
        Export { field: "inst", kind: ExternalKind::Instance, index: 0 },
        Export { field: "untyped", kind: ExternalKind::Function, index: 77 },
        Export { field: "f", kind: ExternalKind::Table, index: 0 },
    ];
    module
}

/// A module with types of its own.
fn importer<'a>() -> Module<'a> {
    let mut module = blank("main");
    module.types = vec![
        func(&[ValType::I32], &[ValType::I64]),
        func(&[ValType::I64], &[ValType::I32]),
        TypeDef::Module,
    ];
    module
}

fn import<'a>(field: &'a str, ty: ImportType) -> Import<'a> {
    Import { module: "lib", field: Some(field), ty }
}

fn resolve(field: &str, ty: ImportType) -> Result<(), Error> {
    exporter().resolve_import(&import(field, ty), &importer())
}

fn message(field: &str, ty: ImportType) -> String {
    resolve(field, ty).unwrap_err().message()
}

fn adapted_definition() -> Definition {
    Definition {
        types: vec![],
        functions: vec![Function {
            name: "f".to_string(),
            params: vec![],
            results: vec![],
            import_signature: WasmSignature {
                params: vec![WasmType::I64],
                results: vec![WasmType::I32],
                retptr: Some(vec![WasmType::I32]),
            },
            export_signature: WasmSignature { params: vec![], results: vec![], retptr: None },
        }],
        resources: vec![],
        sizes: SizeAlign { map: vec![] },
    }
}

#[test]
fn equal_functions_match() {
    assert_eq!(resolve("f", ImportType::Function(0)), Ok(()));
}

#[test]
fn functions_of_different_types_do_not_match() {
    assert_eq!(
        resolve("f", ImportType::Function(1)),
        Err(Error::IncompatibleTypes {
            importer: "main".to_string(),
            field: "f".to_string(),
            exporter: "lib".to_string(),
        })
    );
    assert_eq!(
        message("f", ImportType::Function(1)),
        "module `main` imports function `f` from module `lib` but the types are incompatible"
    );
}

#[test]
fn functions_without_a_known_type_do_not_match() {
    // The importer's index is out of range, or names no function type.
    assert!(resolve("f", ImportType::Function(8)).is_err());
    assert!(resolve("f", ImportType::Function(2)).is_err());
    // The exporter has no type for the function.
    assert!(resolve("untyped", ImportType::Function(0)).is_err());
    // Neither has one.
    assert_eq!(
        resolve("untyped", ImportType::Function(8)),
        Err(Error::IncompatibleTypes {
            importer: "main".to_string(),
            field: "untyped".to_string(),
            exporter: "lib".to_string(),
        })
    );
}

#[test]
fn missing_exports_are_told() {
    assert_eq!(
        resolve("x", ImportType::Global),
        Err(Error::MissingExport {
            module: "lib".to_string(),
            ty: ImportType::Global,
            field: "x".to_string(),
        })
    );
    assert_eq!(
        message("x", ImportType::Function(0)),
        "module `lib` does not export a function named `x`"
    );
    assert_eq!(message("x", ImportType::Table), "module `lib` does not export a table named `x`");
    assert_eq!(
        message("x", ImportType::Instance(0)),
        "module `lib` does not export a instance named `x`"
    );
}

#[test]
fn imports_without_a_name_are_not_met() {
    let import = Import { module: "lib", field: None, ty: ImportType::Module(0) };
    let mut module = exporter();
    module.exports.push(Export { field: "", kind: ExternalKind::Module, index: 0 });
    let error = module.resolve_import(&import, &importer()).unwrap_err();
    assert_eq!(error.message(), "module `lib` does not export a module named ``");
}

#[test]
fn only_functions_can_be_imported() {
    let cases = [
        ("t", ImportType::Table, "importing tables is not currently supported"),
        ("m", ImportType::Memory, "importing memories is not currently supported"),
        ("g", ImportType::Global, "importing globals is not currently supported"),
        ("mod", ImportType::Module(0), "importing modules is not currently supported"),
        ("inst", ImportType::Instance(0), "importing instances is not currently supported"),
    ];
    for (field, ty, text) in cases {
        assert_eq!(resolve(field, ty), Err(Error::UnsupportedImport(ty)));
        assert_eq!(message(field, ty), text);
    }
}

#[test]
fn kinds_must_agree() {
    assert_eq!(
        resolve("t", ImportType::Function(0)),
        Err(Error::KindMismatch {
            ty: ImportType::Function(0),
            field: "t".to_string(),
            module: "lib".to_string(),
            kind: ExternalKind::Table,
        })
    );
    assert_eq!(
        message("t", ImportType::Function(0)),
        "expected a function for export `t` from module `lib` but found a table"
    );
    assert_eq!(
        message("f", ImportType::Memory),
        "expected a memory for export `f` from module `lib` but found a function"
    );
}

#[test]
fn the_first_export_of_a_name_counts() {
    // The second export named `f` is a table.
    assert_eq!(
        message("f", ImportType::Table),
        "expected a table for export `f` from module `lib` but found a function"
    );
}

#[test]
fn an_interface_decides_on_types() {
    let mut module = exporter();
    assert_eq!(module.read_interface(Ok(adapted_definition())), Ok(true));
    assert!(module.must_adapt());
    let f = |index| import("f", ImportType::Function(index));
    assert!(module.resolve_import(&f(0), &importer()).is_err());
    assert_eq!(module.resolve_import(&f(1), &importer()), Ok(()));

    // The types that the module has of its own have no say.
    module.types.clear();
    module.functions.clear();
    assert_eq!(module.resolve_import(&f(1), &importer()), Ok(()));
}

#[test]
fn functions_must_be_in_the_interface() {
    let mut module = exporter();
    assert_eq!(module.read_interface(Ok(adapted_definition())), Ok(true));
    let error = module
        .resolve_import(&import("untyped", ImportType::Function(0)), &importer())
        .unwrap_err();
    assert_eq!(
        error,
        Error::MissingFunction { module: "lib".to_string(), field: "untyped".to_string() }
    );
    assert_eq!(
        error.message(),
        "module `lib` does not export a function named `untyped` in its interface"
    );
}

#[test]
fn exports_come_before_the_interface() {
    let mut module = exporter();
    module.exports.clear();
    assert_eq!(module.read_interface(Ok(adapted_definition())), Ok(true));
    assert_eq!(
        module
            .resolve_import(&import("f", ImportType::Function(1)), &importer())
            .unwrap_err()
            .message(),
        "module `lib` does not export a function named `f`"
    );
}

#[test]
fn function_indices_count_imports_first() {
    let module = exporter();
    let first = FuncType { params: vec![ValType::F32], returns: vec![] };
    let second = FuncType { params: vec![ValType::I32], returns: vec![ValType::I64] };
    assert_eq!(module.func_type(0), Some(&first));
    // The second import is a memory.
    assert_eq!(module.func_type(1), None);
    assert_eq!(module.func_type(2), Some(&second));
    // The type of the second function is no function type, and the third is not there.
    assert_eq!(module.func_type(3), None);
    assert_eq!(module.func_type(4), None);
    assert_eq!(module.func_type(5), None);
    assert_eq!(module.func_type(u32::MAX), None);
}

#[test]
fn imported_functions_have_types() {
    let module = exporter();
    let ty = FuncType { params: vec![ValType::I32], returns: vec![ValType::I64] };
    assert_eq!(module.import_func_type(&import("a", ImportType::Function(1))), Some(&ty));
    assert_eq!(module.import_func_type(&import("a", ImportType::Function(2))), None);
    assert_eq!(module.import_func_type(&import("a", ImportType::Function(3))), None);
    assert_eq!(module.import_func_type(&import("a", ImportType::Module(1))), None);
    assert_eq!(module.import_func_type(&import("a", ImportType::Memory)), None);
}

#[test]
fn kinds_have_words() {
    assert_eq!(import_kind(ImportType::Function(3)), "function");
    assert_eq!(import_kind(ImportType::Table), "table");
    assert_eq!(import_kind(ImportType::Memory), "memory");
    assert_eq!(import_kind(ImportType::Global), "global");
    assert_eq!(import_kind(ImportType::Module(3)), "module");
    assert_eq!(import_kind(ImportType::Instance(3)), "instance");
    assert_eq!(export_kind(ExternalKind::Function), "function");
    assert_eq!(export_kind(ExternalKind::Table), "table");
    assert_eq!(export_kind(ExternalKind::Memory), "memory");
    assert_eq!(export_kind(ExternalKind::Global), "global");
    assert_eq!(export_kind(ExternalKind::Module), "module");
    assert_eq!(export_kind(ExternalKind::Instance), "instance");
}

#[test]
fn refusals_have_messages() {
    assert_eq!(Error::Binary("text".to_string()).message(), "text");
    assert_eq!(
        Error::AlreadyLinked(LinkedSection::Alias).message(),
        "module is already linked as it contains an alias section"
    );
    assert_eq!(
        Error::AlreadyLinked(LinkedSection::Instance).message(),
        "module is already linked as it contains an instance section"
    );
    assert_eq!(
        Error::AlreadyLinked(LinkedSection::Module).message(),
        "module is already linked as it contains a module section"
    );
    assert_eq!(Error::EventSection.message(), "module contains unsupported event section");
    assert_eq!(Error::UnknownSection(7).message(), "unknown section with id `7`");
    assert_eq!(Error::UnknownSection(0).message(), "unknown section with id `0`");
    assert_eq!(Error::UnknownSection(255).message(), "unknown section with id `255`");
    assert_eq!(
        Error::MultipleInterfaces.message(),
        "module contains multiple interface sections"
    );
    assert_eq!(
        Error::InterfaceText("no text".to_string()).message(),
        "invalid interface section: no text"
    );
}

#[test]
fn an_empty_module_is_encoded_as_its_header() {
    assert_eq!(blank("x").encode().finish(), vec![0, 0x61, 0x73, 0x6d, 1, 0, 0, 0]);
}

#[test]
fn sections_are_encoded_in_order() {
    let long: Vec<u8> = (0..300).map(|i| i as u8).collect();
    let mut module = blank("x");
    module.sections.push(RawSection { id: 5, data: &[1, 0, 1] });
    module.sections.push(RawSection { id: 0, data: &long });
    module.sections.push(RawSection { id: 11, data: &[] });

    let mut expected = vec![0, 0x61, 0x73, 0x6d, 1, 0, 0, 0];
    expected.extend_from_slice(&[5, 3, 1, 0, 1]);
    expected.extend_from_slice(&[0, 0xac, 0x02]);
    expected.extend_from_slice(&long);
    expected.extend_from_slice(&[11, 0]);
    assert_eq!(module.encode().finish(), expected);
}

#[test]
fn different_sections_are_encoded_differently() {
    let mut split = blank("x");
    split.sections.push(RawSection { id: 0, data: &[1, 0] });
    split.sections.push(RawSection { id: 0, data: &[] });
    let mut whole = blank("x");
    whole.sections.push(RawSection { id: 0, data: &[1, 0, 0, 0] });
    assert_ne!(split.encode().finish(), whole.encode().finish());
}

#[test]
fn events_cannot_be_resolved() {
    let mut module = exporter();
    module.exports.push(Export { field: "e", kind: ExternalKind::Event, index: 0 });
    module.exports.push(Export { field: "ty", kind: ExternalKind::Type, index: 0 });
    assert!(module.is_resolvable(&import("f", ImportType::Function(0))));
    assert!(module.is_resolvable(&import("t", ImportType::Function(0))));
    assert!(module.is_resolvable(&import("x", ImportType::Memory)));
    assert!(!module.is_resolvable(&import("x", ImportType::Event)));
    assert!(!module.is_resolvable(&import("f", ImportType::Event)));
    assert!(!module.is_resolvable(&import("e", ImportType::Event)));
    assert!(!module.is_resolvable(&import("e", ImportType::Function(0))));
    assert!(!module.is_resolvable(&import("ty", ImportType::Function(0))));

    // What the interface does not have is told before any kinds are compared.
    assert_eq!(module.read_interface(Ok(adapted_definition())), Ok(true));
    let event = import("e", ImportType::Event);
    assert!(module.is_resolvable(&event));
    assert_eq!(
        module.resolve_import(&event, &importer()),
        Err(Error::MissingFunction { module: "lib".to_string(), field: "e".to_string() })
    );
    assert!(!module.is_resolvable(&import("f", ImportType::Event)));
}

#[test]
fn short_sections_can_be_encoded() {
    let mut module = blank("x");
    assert!(module.is_encodable());
    module.sections.push(RawSection { id: 5, data: &[1, 0, 1] });
    assert!(module.is_encodable());
}
