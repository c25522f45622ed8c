//! What an interface says of its functions, in terms of its definition alone.

use vstd::prelude::*;

use crate::interface::{
    adapted, allocates, any_list, find_function, same_signature, signature_type, uses_memory,
    FunctionInfo,
};
use crate::wasm::ValType;
use crate::witx::{contains_list, Definition, Function, Type, TypeDefKind, WasmSignature, WasmType};

verus! {

/// A function is adapted if and only if its results are returned through
/// memory, or not every pattern of bits is a value of some parameter or of some
/// result.
pub proof fn law_adapted_functions(function: Function)
    ensures
        adapted(function) <==> {
            ||| function.import_signature.retptr is Some
            ||| exists|i: int|
                0 <= i < function.params@.len() && !(#[trigger] function.params@[i]).all_bits_valid
            ||| exists|i: int|
                0 <= i < function.results@.len() && !(
                #[trigger] function.results@[i]).all_bits_valid
        },
{
}

/// A single parameter or result for which not every pattern of bits is a value
/// makes its function be adapted, whatever the others are.
pub proof fn law_one_value_is_enough(function: Function, i: int)
    ensures
        0 <= i < function.params@.len() && !function.params@[i].all_bits_valid ==> adapted(
            function,
        ),
        0 <= i < function.results@.len() && !function.results@[i].all_bits_valid ==> adapted(
            function,
        ),
        function.import_signature.retptr is Some ==> adapted(function),
{
}

/// What is known of a function is known of the function itself: whether it is
/// adapted, the signature with which it is imported, and both of its types, part
/// by part.
pub proof fn law_infos_describe_functions(info: FunctionInfo, function: Function, i: int)
    requires
        info.describes(function),
    ensures
        info.must_adapt <==> {
            ||| function.import_signature.retptr is Some
            ||| exists|j: int|
                0 <= j < function.params@.len() && !(#[trigger] function.params@[j]).all_bits_valid
            ||| exists|j: int|
                0 <= j < function.results@.len() && !(
                #[trigger] function.results@[j]).all_bits_valid
        },
        info.import_signature.params@ == function.import_signature.params@,
        info.import_signature.results@ == function.import_signature.results@,
        info.import_signature.retptr is Some <==> function.import_signature.retptr is Some,
        info.import_signature.retptr is Some ==> info.import_signature.retptr->0@
            == function.import_signature.retptr->0@,
        info.import_type.params@.len() == function.import_signature.params@.len(),
        info.import_type.returns@.len() == function.import_signature.results@.len(),
        info.export_type.params@.len() == function.export_signature.params@.len(),
        info.export_type.returns@.len() == function.export_signature.results@.len(),
        0 <= i < info.import_type.params@.len() ==> stands_for(
            info.import_type.params@[i],
            function.import_signature.params@[i],
        ),
        0 <= i < info.import_type.returns@.len() ==> stands_for(
            info.import_type.returns@[i],
            function.import_signature.results@[i],
        ),
        0 <= i < info.export_type.params@.len() ==> stands_for(
            info.export_type.params@[i],
            function.export_signature.params@[i],
        ),
        0 <= i < info.export_type.returns@.len() ==> stands_for(
            info.export_type.returns@[i],
            function.export_signature.results@[i],
        ),
{
    law_adapted_functions(function);
    law_function_types(function.import_signature, i);
    law_function_types(function.export_signature, i);
}

/// Whether two names are for the same WebAssembly type.
pub open spec fn stands_for(ty: ValType, part: WasmType) -> bool {
    ||| ty is I32 && part is I32
    ||| ty is I64 && part is I64
    ||| ty is F32 && part is F32
    ||| ty is F64 && part is F64
}

/// The type that a signature amounts to has the parts of the signature, one by
/// one.
pub proof fn law_function_types(signature: WasmSignature, i: int)
    ensures
        signature_type(signature).params.len() == signature.params@.len(),
        signature_type(signature).returns.len() == signature.results@.len(),
        0 <= i < signature.params@.len() ==> stands_for(
            signature_type(signature).params[i],
            signature.params@[i],
        ),
        0 <= i < signature.results@.len() ==> stands_for(
            signature_type(signature).returns[i],
            signature.results@[i],
        ),
{
}

/// Two signatures are the same if and only if all of their parts are, those
/// that are returned through memory included.
pub proof fn law_same_signatures(a: WasmSignature, b: WasmSignature)
    ensures
        same_signature(a, b) <==> {
            &&& a.params@ == b.params@
            &&& a.results@ == b.results@
            &&& a.retptr is Some <==> b.retptr is Some
            &&& a.retptr is Some ==> a.retptr->0@ == b.retptr->0@
        },
{
}

/// An interface is adapted if and only if some function has to be.
pub proof fn law_adapted_interfaces(definition: Definition)
    ensures
        definition.any_adapted() <==> exists|k: int|
            {
                let function = #[trigger] definition.functions@[k];
                &&& 0 <= k < definition.functions@.len()
                &&& {
                    ||| function.import_signature.retptr is Some
                    ||| exists|i: int|
                        0 <= i < function.params@.len() && !(
                        #[trigger] function.params@[i]).all_bits_valid
                    ||| exists|i: int|
                        0 <= i < function.results@.len() && !(
                        #[trigger] function.results@[i]).all_bits_valid
                }
            },
{
    let functions = definition.functions@;
    assert forall|k: int| 0 <= k < functions.len() implies (adapted(#[trigger] functions[k]) <==> {
        ||| functions[k].import_signature.retptr is Some
        ||| exists|i: int|
            0 <= i < functions[k].params@.len() && !(
            #[trigger] functions[k].params@[i]).all_bits_valid
        ||| exists|i: int|
            0 <= i < functions[k].results@.len() && !(
            #[trigger] functions[k].results@[i]).all_bits_valid
    }) by {
        law_adapted_functions(functions[k]);
    }
    if definition.any_adapted() {
        let k = choose|k: int| 0 <= k < functions.len() && adapted(#[trigger] functions[k]);
        let function = functions[k];
        law_adapted_functions(function);
    }
}

/// A list that an adapted function passes, as any of its parameters or results,
/// makes the interface need memory and the means to allocate it.
pub proof fn law_lists_need_allocation(definition: Definition, k: int, i: int)
    requires
        0 <= k < definition.functions@.len(),
        definition.functions@[k].import_signature.retptr is Some || (exists|j: int|
            0 <= j < definition.functions@[k].params@.len() && !(
            #[trigger] definition.functions@[k].params@[j]).all_bits_valid) || (exists|j: int|
            0 <= j < definition.functions@[k].results@.len() && !(
            #[trigger] definition.functions@[k].results@[j]).all_bits_valid),
        ({
            let function = definition.functions@[k];
            ||| 0 <= i < function.params@.len() && contains_list(
                definition.types@,
                function.params@[i].ty,
            )
            ||| 0 <= i < function.results@.len() && contains_list(
                definition.types@,
                function.results@[i].ty,
            )
        }),
    ensures
        definition.any_allocates(),
        definition.any_uses_memory(),
        definition.any_adapted(),
{
    let function = definition.functions@[k];
    law_adapted_functions(function);
    assert(adapted(function));
    assert(any_list(definition.types@, function.params@) || any_list(
        definition.types@,
        function.results@,
    ));
    assert(allocates(definition.types@, function));
    assert(uses_memory(definition.types@, function));
}

/// Where an interface needs the means to allocate memory, some function has to
/// be adapted and passes a list.
pub proof fn law_allocation_needs_lists(definition: Definition) -> (r: (int, int))
    requires
        definition.any_allocates(),
    ensures
        0 <= r.0 < definition.functions@.len(),
        ({
            let function = definition.functions@[r.0];
            &&& {
                ||| function.import_signature.retptr is Some
                ||| exists|j: int|
                    0 <= j < function.params@.len() && !(
                    #[trigger] function.params@[j]).all_bits_valid
                ||| exists|j: int|
                    0 <= j < function.results@.len() && !(
                    #[trigger] function.results@[j]).all_bits_valid
            }
            &&& {
                ||| 0 <= r.1 < function.params@.len() && contains_list(
                    definition.types@,
                    function.params@[r.1].ty,
                )
                ||| 0 <= r.1 < function.results@.len() && contains_list(
                    definition.types@,
                    function.results@[r.1].ty,
                )
            }
        }),
{
    let functions = definition.functions@;
    let types = definition.types@;
    let k = choose|k: int| 0 <= k < functions.len() && allocates(types, #[trigger] functions[k]);
    let function = functions[k];
    law_adapted_functions(function);
    let i = if any_list(types, function.params@) {
        choose|i: int|
            0 <= i < function.params@.len() && contains_list(types, (#[trigger] function.params@[i]).ty)
    } else {
        choose|i: int|
            0 <= i < function.results@.len() && contains_list(
                types,
                (#[trigger] function.results@[i]).ty,
            )
    };
    (k, i)
}

/// An interface needs memory if and only if it needs the means to allocate it, or
/// the results of some function are returned through memory.
pub proof fn law_memory_needs(definition: Definition)
    ensures
        definition.any_uses_memory() <==> {
            ||| definition.any_allocates()
            ||| exists|k: int|
                0 <= k < definition.functions@.len() && (
                #[trigger] definition.functions@[k]).import_signature.retptr is Some
        },
{
    let functions = definition.functions@;
    let types = definition.types@;
    if definition.any_uses_memory() {
        let k = choose|k: int|
            0 <= k < functions.len() && uses_memory(types, #[trigger] functions[k]);
        if functions[k].import_signature.retptr is None {
            assert(allocates(types, functions[k]));
        }
    }
    if definition.any_allocates() {
        let k = choose|k: int|
            0 <= k < functions.len() && allocates(types, #[trigger] functions[k]);
        assert(uses_memory(types, functions[k]));
    }
    if exists|k: int|
        0 <= k < functions.len() && (#[trigger] functions[k]).import_signature.retptr is Some {
        let k = choose|k: int|
            0 <= k < functions.len() && (#[trigger] functions[k]).import_signature.retptr is Some;
        law_adapted_functions(functions[k]);
        assert(uses_memory(types, functions[k]));
    }
}

/// A resource counts if and only if it is taken from no other module.
pub proof fn law_own_resources(definition: Definition)
    ensures
        definition.any_own_resource() <==> exists|i: int|
            0 <= i < definition.resources@.len() && (
            #[trigger] definition.resources@[i]).foreign_module is None,
{
}

/// A list is found in itself, through other names for it, and in every record
/// and variant that holds it; nowhere else.
pub proof fn law_where_lists_are(types: Seq<TypeDefKind>, id: usize, i: int)
    requires
        crate::witx::types_in_range(types),
        id < types.len(),
    ensures
        !contains_list(types, Type::Basic),
        types[id as int] is List ==> contains_list(types, Type::Id(id)),
        types[id as int] is Other ==> !contains_list(types, Type::Id(id)),
        types[id as int] matches TypeDefKind::Type(ty) ==> contains_list(types, Type::Id(id))
            == contains_list(types, ty),
        types[id as int] matches TypeDefKind::Record(fields) ==> 0 <= i < fields@.len()
            && contains_list(types, fields@[i]) ==> contains_list(types, Type::Id(id)),
        types[id as int] matches TypeDefKind::Record(fields) ==> (forall|j: int|
            0 <= j < fields@.len() ==> !contains_list(types, #[trigger] fields@[j]))
            ==> !contains_list(types, Type::Id(id)),
        types[id as int] matches TypeDefKind::Variant(cases) ==> 0 <= i < cases@.len() && (
        cases@[i] matches Some(ty) && contains_list(types, ty)) ==> contains_list(
            types,
            Type::Id(id),
        ),
        types[id as int] matches TypeDefKind::Variant(cases) ==> (forall|j: int|
            0 <= j < cases@.len() ==> ((#[trigger] cases@[j]) matches Some(ty) ==> !contains_list(
                types,
                ty,
            ))) ==> !contains_list(types, Type::Id(id)),
{
    crate::witx::law_contains_list(types, Type::Basic);
    assert(crate::witx::kind_in_range(types[id as int], types.len()));
    crate::witx::law_contains_list(types, Type::Id(id));
}

/// A function that is looked up by name is the first one of that name; where
/// none is found, there is none of that name.
pub proof fn law_first_function(functions: Seq<Function>, name: Seq<char>)
    ensures
        match find_function(functions, name) {
            Some(function) => exists|i: int|
                0 <= i < functions.len() && #[trigger] functions[i] == function && function.name@
                    == name && forall|j: int| 0 <= j < i ==> (#[trigger] functions[j]).name@ != name,
            None => forall|j: int| 0 <= j < functions.len() ==> (#[trigger] functions[j]).name@ != name,
        },
    decreases functions.len(),
{
    if functions.len() > 0 {
        let rest = functions.drop_first();
        if functions[0].name@ == name {
            assert(functions[0] == find_function(functions, name)->0);
        } else {
            law_first_function(rest, name);
            match find_function(rest, name) {
                Some(function) => {
                    let i = choose|i: int|
                        0 <= i < rest.len() && #[trigger] rest[i] == function && function.name@
                            == name && forall|j: int|
                            0 <= j < i ==> (#[trigger] rest[j]).name@ != name;
                    assert(functions[i + 1] == function);
                    assert forall|j: int| 0 <= j < i + 1 implies (#[trigger] functions[j]).name@
                        != name by {
                        if j > 0 {
                            assert(functions[j] == rest[j - 1]);
                        }
                    }
                },
                None => {
                    assert forall|j: int| 0 <= j < functions.len() implies (
                    #[trigger] functions[j]).name@ != name by {
                        if j > 0 {
                            assert(functions[j] == rest[j - 1]);
                        }
                    }
                },
            }
        }
    }
}

/// A definition is valid if and only if every type that is mentioned is defined.
pub proof fn law_valid_definitions(definition: Definition)
    ensures
        definition.valid() <==> {
            &&& forall|k: int|
                0 <= k < definition.types@.len() ==> match #[trigger] definition.types@[k] {
                    TypeDefKind::Type(Type::Id(id)) => id < definition.types@.len(),
                    TypeDefKind::List(Type::Id(id)) => id < definition.types@.len(),
                    TypeDefKind::Record(fields) => forall|i: int|
                        0 <= i < fields@.len() ==> ((#[trigger] fields@[i]) matches Type::Id(id)
                            ==> id < definition.types@.len()),
                    TypeDefKind::Variant(cases) => forall|i: int|
                        0 <= i < cases@.len() ==> ((#[trigger] cases@[i]) matches Some(Type::Id(id))
                            ==> id < definition.types@.len()),
                    _ => true,
                }
            &&& forall|k: int, i: int|
                0 <= k < definition.functions@.len() && 0 <= i < definition.functions@[k].params@.len()
                    ==> ((#[trigger] definition.functions@[k].params@[i]).ty matches Type::Id(id)
                    ==> id < definition.types@.len())
            &&& forall|k: int, i: int|
                0 <= k < definition.functions@.len() && 0 <= i
                    < definition.functions@[k].results@.len() ==> ((
                #[trigger] definition.functions@[k].results@[i]).ty matches Type::Id(id) ==> id
                    < definition.types@.len())
        },
{
}

} // verus!
