use wasmlink::error::Error;
use wasmlink::interface::Interface;
use wasmlink::wasm::{FuncType, ValType};
use wasmlink::witx::{
    has_list, Definition, Function, Param, Resource, SizeAlign, Type, TypeDefKind, WasmSignature,
    WasmType,
};

fn param(ty: Type, all_bits_valid: bool) -> Param {
    Param { name: "p".to_string(), ty, all_bits_valid }
}

fn signature(params: &[WasmType], results: &[WasmType], retptr: bool) -> WasmSignature {
    let retptr = if retptr { Some(vec![WasmType::I64]) } else { None };
    WasmSignature { params: params.to_vec(), results: results.to_vec(), retptr }
}

fn function(name: &str, params: Vec<Param>, results: Vec<Param>, retptr: bool) -> Function {
    Function {
        name: name.to_string(),
        params,
        results,
        import_signature: signature(&[WasmType::I32, WasmType::I64], &[WasmType::F32], retptr),
        export_signature: signature(&[WasmType::F64], &[], false),
    }
}

fn definition(types: Vec<TypeDefKind>, functions: Vec<Function>) -> Definition {
    Definition {
        types,
        functions,
        resources: vec![],
        sizes: SizeAlign { map: vec![(8, 4)] },
    }
}

fn parse(types: Vec<TypeDefKind>, functions: Vec<Function>) -> Interface {
    let definition = definition(types, functions);
    assert!(definition.is_valid());
    Interface::parse(Ok(definition)).unwrap()
}

/// What an interface needs: to be adapted, memory, and to allocate it.
fn needs(interface: &Interface) -> (bool, bool, bool) {
    (interface.must_adapt(), interface.needs_memory(), interface.needs_realloc_free())
}

#[test]
fn a_list_is_found_at_any_depth() {
    let interface = definition(
        vec![
            TypeDefKind::List(Type::Basic),
            TypeDefKind::Type(Type::Id(0)),
            TypeDefKind::Record(vec![Type::Basic, Type::Id(1)]),
            TypeDefKind::Variant(vec![None, Some(Type::Basic), Some(Type::Id(2))]),
            TypeDefKind::Record(vec![Type::Basic, Type::Basic]),
            TypeDefKind::Variant(vec![None, Some(Type::Id(4))]),
            TypeDefKind::Other,
            TypeDefKind::Type(Type::Id(6)),
        ],
        vec![],
    );
    assert!(interface.is_valid());
    assert!(!has_list(&interface, Type::Basic));
    for id in 0..4 {
        assert!(has_list(&interface, Type::Id(id)));
    }
    for id in 4..8 {
        assert!(!has_list(&interface, Type::Id(id)));
    }
}

#[test]
fn types_that_refer_forward_are_followed() {
    let interface = definition(
        vec![
            TypeDefKind::Type(Type::Id(1)),
            TypeDefKind::Record(vec![Type::Id(2)]),
            TypeDefKind::List(Type::Id(3)),
            TypeDefKind::Other,
        ],
        vec![],
    );
    assert!(has_list(&interface, Type::Id(0)));
    assert!(!has_list(&interface, Type::Id(3)));
}

#[test]
fn types_must_be_defined() {
    assert!(!definition(vec![TypeDefKind::Type(Type::Id(1))], vec![]).is_valid());
    assert!(!definition(vec![TypeDefKind::List(Type::Id(7))], vec![]).is_valid());
    assert!(!definition(vec![TypeDefKind::Record(vec![Type::Id(1)])], vec![]).is_valid());
    assert!(!definition(vec![TypeDefKind::Variant(vec![Some(Type::Id(1))])], vec![]).is_valid());
    let unknown = function("f", vec![param(Type::Id(0), true)], vec![], false);
    assert!(!definition(vec![], vec![unknown]).is_valid());
    let unknown = function("f", vec![], vec![param(Type::Id(1), true)], false);
    assert!(!definition(vec![TypeDefKind::Other], vec![unknown]).is_valid());
    assert!(definition(vec![], vec![]).is_valid());
}

#[test]
fn plain_functions_need_nothing() {
    let plain = function("f", vec![param(Type::Basic, true)], vec![param(Type::Basic, true)], false);
    assert_eq!(needs(&parse(vec![], vec![plain])), (false, false, false));
    assert_eq!(needs(&parse(vec![], vec![])), (false, false, false));
}

#[test]
fn parameters_with_invalid_bits_are_adapted() {
    let f = function("f", vec![param(Type::Basic, true), param(Type::Basic, false)], vec![], false);
    assert_eq!(needs(&parse(vec![], vec![f])), (true, false, false));
}

#[test]
fn results_with_invalid_bits_are_adapted() {
    let f = function("f", vec![], vec![param(Type::Basic, false)], false);
    assert_eq!(needs(&parse(vec![], vec![f])), (true, false, false));
}

#[test]
fn return_pointers_need_memory() {
    let f = function("f", vec![], vec![param(Type::Basic, true)], true);
    assert_eq!(needs(&parse(vec![], vec![f])), (true, true, false));
}

#[test]
fn lists_need_allocation() {
    let list = || vec![TypeDefKind::List(Type::Basic)];
    let f = function("f", vec![param(Type::Id(0), false)], vec![], false);
    assert_eq!(needs(&parse(list(), vec![f])), (true, true, true));
    let f = function("f", vec![param(Type::Basic, false)], vec![param(Type::Id(0), true)], false);
    assert_eq!(needs(&parse(list(), vec![f])), (true, true, true));
}

#[test]
fn lists_of_functions_that_are_not_adapted_need_nothing() {
    let f = function("f", vec![param(Type::Id(0), true)], vec![], false);
    let types = vec![TypeDefKind::List(Type::Basic)];
    assert_eq!(needs(&parse(types, vec![f])), (false, false, false));
}

#[test]
fn one_function_decides_for_the_interface() {
    let types = vec![TypeDefKind::List(Type::Basic)];
    let functions = vec![
        function("a", vec![], vec![], false),
        function("b", vec![param(Type::Id(0), false)], vec![], false),
        function("c", vec![param(Type::Basic, false)], vec![], false),
        function("d", vec![], vec![], false),
    ];
    let interface = parse(types, functions);
    assert_eq!(needs(&interface), (true, true, true));
    let adapted: Vec<(String, bool)> = interface
        .iter()
        .into_iter()
        .map(|(function, info)| (function.name.clone(), info.must_adapt))
        .collect();
    assert_eq!(
        adapted,
        vec![
            ("a".to_string(), false),
            ("b".to_string(), true),
            ("c".to_string(), true),
            ("d".to_string(), false),
        ]
    );
}

#[test]
fn functions_are_looked_up_by_name() {
    let mut second = function("g", vec![], vec![], true);
    second.import_signature = signature(&[WasmType::F64, WasmType::I32], &[], true);
    let functions = vec![
        function("f", vec![], vec![], false),
        second,
        function("g", vec![], vec![], false),
    ];
    let interface = parse(vec![], functions);

    let f = interface.lookup_info("f").unwrap();
    assert_eq!(
        f.import_type,
        FuncType { params: vec![ValType::I32, ValType::I64], returns: vec![ValType::F32] }
    );
    assert_eq!(f.export_type, FuncType { params: vec![ValType::F64], returns: vec![] });
    assert_eq!(
        f.import_signature,
        signature(&[WasmType::I32, WasmType::I64], &[WasmType::F32], false)
    );
    assert!(!f.must_adapt);

    // The first of two functions with one name is found.
    let g = interface.lookup_info("g").unwrap();
    assert_eq!(
        g.import_type,
        FuncType { params: vec![ValType::F64, ValType::I32], returns: vec![] }
    );
    assert_eq!(
        g.import_signature,
        signature(&[WasmType::F64, WasmType::I32], &[], true)
    );
    assert_eq!(g.import_signature.retptr, Some(vec![WasmType::I64]));
    assert!(g.must_adapt);

    assert!(interface.lookup_info("h").is_none());
    assert!(interface.lookup_info("").is_none());
    assert!(interface.lookup_info("ff").is_none());
}

#[test]
fn function_types_tell_signatures_apart() {
    let mut other = function("g", vec![], vec![], false);
    other.import_signature = signature(&[WasmType::I64, WasmType::I32], &[WasmType::F32], false);
    let mut same = function("h", vec![], vec![], true);
    same.import_signature = signature(&[WasmType::I32, WasmType::I64], &[WasmType::F32], true);
    let interface = parse(vec![], vec![function("f", vec![], vec![], false), other, same]);
    let f = interface.lookup_info("f").unwrap();
    assert!(!f.import_type.same(&interface.lookup_info("g").unwrap().import_type));
    assert!(f.import_type.same(&interface.lookup_info("h").unwrap().import_type));
    assert!(!f.import_type.same(&f.export_type));

    let (i32, i64) = (WasmType::I32, WasmType::I64);
    let ty = Interface::sig_to_type(&signature(&[i32, i64], &[i32], false));
    assert_eq!(
        ty,
        FuncType { params: vec![ValType::I32, ValType::I64], returns: vec![ValType::I32] }
    );
    assert_eq!(ty, Interface::sig_to_type(&signature(&[i32, i64], &[i32], true)));
    assert_ne!(ty, Interface::sig_to_type(&signature(&[i64, i32], &[i32], false)));
    assert_ne!(ty, Interface::sig_to_type(&signature(&[i32, i64, i32], &[], false)));
    assert_ne!(ty, Interface::sig_to_type(&signature(&[i32], &[i64, i32], false)));
}

#[test]
fn resources_of_other_modules_do_not_count() {
    let mut foreign = definition(vec![], vec![]);
    foreign.resources.push(Resource {
        name: "r".to_string(),
        foreign_module: Some("other".to_string()),
    });
    assert!(!Interface::parse(Ok(foreign)).unwrap().has_resources());

    let mut both = definition(vec![], vec![]);
    both.resources.push(Resource {
        name: "r".to_string(),
        foreign_module: Some("other".to_string()),
    });
    both.resources.push(Resource { name: "s".to_string(), foreign_module: None });
    assert!(Interface::parse(Ok(both)).unwrap().has_resources());

    assert!(!parse(vec![], vec![]).has_resources());
}

#[test]
fn the_definition_is_kept() {
    let interface = parse(vec![TypeDefKind::Other], vec![]);
    assert_eq!(interface.inner(), &definition(vec![TypeDefKind::Other], vec![]));
    assert_eq!(interface.sizes(), &SizeAlign { map: vec![(8, 4)] });
}

#[test]
fn a_definition_that_does_not_parse_is_refused() {
    match Interface::parse(Err("line 3".to_string())) {
        Err(error) => {
            assert_eq!(error, Error::InterfaceDefinition("line 3".to_string()));
            assert_eq!(error.message(), "failed to parse interface definition: line 3");
        }
        Ok(_) => panic!("accepted"),
    }
}
