//! What an interface asks of a module that implements it.

use vstd::prelude::*;

use crate::error::{Error, ErrorView};
use crate::text::same_text;
use crate::wasm::{FuncType, FuncTypeView, ValType};
use crate::witx::{
    contains_list, has_list, params_in_range, types_in_range, Definition, Function, Param, Resource,
    SizeAlign, TypeDefKind, WasmSignature, WasmType,
};

verus! {

/// The WebAssembly type that a part of a signature has.
pub open spec fn val_type(ty: WasmType) -> ValType {
    match ty {
        WasmType::I32 => ValType::I32,
        WasmType::I64 => ValType::I64,
        WasmType::F32 => ValType::F32,
        WasmType::F64 => ValType::F64,
    }
}

/// The function type that a signature amounts to.
pub open spec fn signature_type(signature: WasmSignature) -> FuncTypeView {
    FuncTypeView {
        params: signature.params@.map_values(|ty: WasmType| val_type(ty)),
        returns: signature.results@.map_values(|ty: WasmType| val_type(ty)),
    }
}

/// Whether some parameter or result has a type for which not every pattern of
/// bits is a value.
pub open spec fn any_invalid_bits(params: Seq<Param>) -> bool {
    exists|i: int| 0 <= i < params.len() && !(#[trigger] params[i]).all_bits_valid
}

/// Whether some parameter or result is a list or holds one.
pub open spec fn any_list(types: Seq<TypeDefKind>, params: Seq<Param>) -> bool {
    exists|i: int| 0 <= i < params.len() && contains_list(types, (#[trigger] params[i]).ty)
}

/// Whether calls of a function have to go through an adapter: its results are
/// returned through memory, or a parameter or a result needs adapting.
pub open spec fn adapted(function: Function) -> bool {
    ||| function.import_signature.retptr is Some
    ||| any_invalid_bits(function.params@)
    ||| any_invalid_bits(function.results@)
}

/// Whether a function passes lists.
pub open spec fn passes_list(types: Seq<TypeDefKind>, function: Function) -> bool {
    any_list(types, function.params@) || any_list(types, function.results@)
}

/// Whether the adapter of a function has to allocate memory in the module.
pub open spec fn allocates(types: Seq<TypeDefKind>, function: Function) -> bool {
    adapted(function) && passes_list(types, function)
}

/// Whether the adapter of a function reads or writes the memory of the module.
pub open spec fn uses_memory(types: Seq<TypeDefKind>, function: Function) -> bool {
    adapted(function) && (function.import_signature.retptr is Some || passes_list(types, function))
}

impl Definition {
    /// Whether some function has to be adapted.
    pub open spec fn any_adapted(self) -> bool {
        exists|i: int| 0 <= i < self.functions@.len() && adapted(#[trigger] self.functions@[i])
    }

    /// Whether the adapter of some function has to allocate memory.
    pub open spec fn any_allocates(self) -> bool {
        exists|i: int|
            0 <= i < self.functions@.len() && allocates(
                self.types@,
                #[trigger] self.functions@[i],
            )
    }

    /// Whether the adapter of some function reads or writes memory.
    pub open spec fn any_uses_memory(self) -> bool {
        exists|i: int|
            0 <= i < self.functions@.len() && uses_memory(
                self.types@,
                #[trigger] self.functions@[i],
            )
    }

    /// Whether the interface defines a resource itself.
    pub open spec fn any_own_resource(self) -> bool {
        exists|i: int|
            0 <= i < self.resources@.len() && (#[trigger] self.resources@[i]).foreign_module is None
    }
}

/// The first function with the given name.
pub open spec fn find_function(functions: Seq<Function>, name: Seq<char>) -> Option<Function>
    decreases functions.len(),
{
    if functions.len() == 0 {
        None
    } else if functions[0].name@ == name {
        Some(functions[0])
    } else {
        find_function(functions.drop_first(), name)
    }
}

/// Whether two signatures are the same.
pub open spec fn same_signature(a: WasmSignature, b: WasmSignature) -> bool {
    &&& a.params@ == b.params@
    &&& a.results@ == b.results@
    &&& match (a.retptr, b.retptr) {
        (Some(a), Some(b)) => a@ == b@,
        (None, None) => true,
        _ => false,
    }
}

/// What linking needs to know of a function.
#[derive(Debug, PartialEq, Eq)]
pub struct FunctionInfo {
    pub import_signature: WasmSignature,
    pub import_type: FuncType,
    pub export_type: FuncType,
    pub must_adapt: bool,
}

impl FunctionInfo {
    /// Whether this is what linking needs to know of the given function.
    pub open spec fn describes(&self, function: Function) -> bool {
        &&& same_signature(self.import_signature, function.import_signature)
        &&& self.import_type@ == signature_type(function.import_signature)
        &&& self.export_type@ == signature_type(function.export_signature)
        &&& self.must_adapt == adapted(function)
    }
}

/// The WebAssembly type that a part of a signature has.
fn from_witx_type(ty: WasmType) -> (r: ValType)
    ensures
        r == val_type(ty),
{
    match ty {
        WasmType::I32 => ValType::I32,
        WasmType::I64 => ValType::I64,
        WasmType::F32 => ValType::F32,
        WasmType::F64 => ValType::F64,
    }
}

/// The WebAssembly types that the parts of a signature have.
fn from_witx_types(types: &Vec<WasmType>) -> (r: Vec<ValType>)
    ensures
        r@ == types@.map_values(|ty: WasmType| val_type(ty)),
{
    let mut r: Vec<ValType> = Vec::new();
    for i in 0..types.len()
        invariant
            r@ == types@.take(i as int).map_values(|ty: WasmType| val_type(ty)),
    {
        r.push(from_witx_type(types[i]));
        assert(r@ =~= types@.take(i + 1).map_values(|ty: WasmType| val_type(ty)));
    }
    assert(types@.take(types@.len() as int) =~= types@);
    r
}

/// A copy of a signature.
fn copy_signature(signature: &WasmSignature) -> (r: WasmSignature)
    ensures
        same_signature(r, *signature),
{
    let params = signature.params.clone();
    let results = signature.results.clone();
    assert(params@ =~= signature.params@);
    let retptr = match &signature.retptr {
        Some(types) => {
            let copy = types.clone();
            assert(copy@ =~= types@);
            Some(copy)
        },
        None => None,
    };
    assert(results@ =~= signature.results@);
    WasmSignature { params, results, retptr }
}

/// Whether some parameter or result has a type for which not every pattern of
/// bits is a value.
fn has_invalid_bits(params: &Vec<Param>) -> (r: bool)
    ensures
        r == any_invalid_bits(params@),
{
    for i in 0..params.len()
        invariant
            forall|j: int| 0 <= j < i ==> (#[trigger] params@[j]).all_bits_valid,
    {
        if !params[i].all_bits_valid {
            assert(!params@[i as int].all_bits_valid);
            return true;
        }
    }
    false
}

/// Whether some parameter or result is a list or holds one.
fn has_list_param(interface: &Definition, params: &Vec<Param>) -> (r: bool)
    requires
        types_in_range(interface.types@),
        params_in_range(params@, interface.types@.len()),
    ensures
        r == any_list(interface.types@, params@),
{
    for i in 0..params.len()
        invariant
            types_in_range(interface.types@),
            params_in_range(params@, interface.types@.len()),
            forall|j: int|
                0 <= j < i ==> !contains_list(interface.types@, (#[trigger] params@[j]).ty),
    {
        assert(params_in_range(params@, interface.types@.len()));
        let param = &params[i];
        assert(*param == params@[i as int]);
        if has_list(interface, param.ty) {
            return true;
        }
    }
    false
}

/// Whether the interface defines a resource itself.
fn has_own_resource(resources: &Vec<Resource>) -> (r: bool)
    ensures
        r == (exists|i: int|
            0 <= i < resources@.len() && (#[trigger] resources@[i]).foreign_module is None),
{
    for i in 0..resources.len()
        invariant
            forall|j: int| 0 <= j < i ==> (#[trigger] resources@[j]).foreign_module is Some,
    {
        if resources[i].foreign_module.is_none() {
            assert(resources@[i as int].foreign_module is None);
            return true;
        }
    }
    false
}

/// An interface, with what linking needs to know of it.
#[derive(Debug)]
pub struct Interface {
    inner: Definition,
    func_infos: Vec<FunctionInfo>,
    must_adapt: bool,
    needs_memory: bool,
    needs_realloc_free: bool,
    has_resources: bool,
}

impl Interface {
    /// The definition of the interface.
    pub closed spec fn definition(self) -> Definition {
        self.inner
    }

    /// Everything that is kept follows from the definition.
    #[verifier::type_invariant]
    spec fn wf(self) -> bool {
        &&& self.inner.valid()
        &&& self.func_infos@.len() == self.inner.functions@.len()
        &&& forall|i: int|
            #![trigger self.func_infos@[i]]
            0 <= i < self.func_infos@.len() ==> self.func_infos@[i].describes(
                self.inner.functions@[i],
            )
        &&& self.must_adapt == self.inner.any_adapted()
        &&& self.needs_memory == self.inner.any_uses_memory()
        &&& self.needs_realloc_free == self.inner.any_allocates()
        &&& self.has_resources == self.inner.any_own_resource()
    }

    /// Works out what linking needs to know of an interface, given what parsing
    /// its definition has come to: the definition, or why it is refused.
    pub fn parse(parsed: Result<Definition, String>) -> (r: Result<Self, Error>)
        requires
            parsed matches Ok(definition) ==> definition.valid(),
        ensures
            match parsed {
                Ok(definition) => r matches Ok(interface) && interface.definition() == definition,
                Err(reason) => r matches Err(error) && error@ == ErrorView::InterfaceDefinition(
                    reason@,
                ),
            },
    {
        let inner = match parsed {
            Ok(definition) => definition,
            Err(reason) => return Err(Error::InterfaceDefinition(reason)),
        };

        let mut must_adapt = false;
        let mut needs_memory = false;
        let mut needs_realloc_free = false;
        let mut func_infos: Vec<FunctionInfo> = Vec::new();

        for i in 0..inner.functions.len()
            invariant
                inner.valid(),
                func_infos@.len() == i,
                forall|j: int|
                    #![trigger func_infos@[j]]
                    0 <= j < i ==> func_infos@[j].describes(inner.functions@[j]),
                must_adapt == exists|j: int|
                    0 <= j < i && adapted(#[trigger] inner.functions@[j]),
                needs_memory == exists|j: int|
                    0 <= j < i && uses_memory(inner.types@, #[trigger] inner.functions@[j]),
                needs_realloc_free == exists|j: int|
                    0 <= j < i && allocates(inner.types@, #[trigger] inner.functions@[j]),
        {
            let function = &inner.functions[i];
            assert(*function == inner.functions@[i as int]);

            let has_retptr = function.import_signature.retptr.is_some();

            // A function must be adapted if it has a return pointer or any parameter or result
            // that needs to be adapted.
            let must_adapt_func = has_retptr || has_invalid_bits(&function.params)
                || has_invalid_bits(&function.results);

            if must_adapt_func {
                if !needs_realloc_free {
                    needs_realloc_free = has_list_param(&inner, &function.params)
                        || has_list_param(&inner, &function.results);
                }

                needs_memory = needs_memory || has_retptr || needs_realloc_free;
                must_adapt = true;
            }

            func_infos.push(
                FunctionInfo {
                    import_signature: copy_signature(&function.import_signature),
                    import_type: Self::sig_to_type(&function.import_signature),
                    export_type: Self::sig_to_type(&function.export_signature),
                    must_adapt: must_adapt_func,
                },
            );
        }

        let has_resources = has_own_resource(&inner.resources);

        Ok(
            Interface {
                inner,
                func_infos,
                must_adapt,
                needs_memory,
                needs_realloc_free,
                has_resources,
            },
        )
    }

    /// The function type that a signature amounts to.
    pub fn sig_to_type(signature: &WasmSignature) -> (r: FuncType)
        ensures
            r@ == signature_type(*signature),
    {
        FuncType {
            params: from_witx_types(&signature.params),
            returns: from_witx_types(&signature.results),
        }
    }

    /// The definition of the interface.
    pub fn inner(&self) -> (r: &Definition)
        ensures
            *r == self.definition(),
            r.valid(),
    {
        proof {
            use_type_invariant(self);
        }
        &self.inner
    }

    /// The layout of the types of the interface.
    pub fn sizes(&self) -> (r: &SizeAlign)
        ensures
            *r == self.definition().sizes,
    {
        &self.inner.sizes
    }

    /// The functions of the interface in turn, each with what linking needs to
    /// know of it.
    pub fn iter(&self) -> (r: Vec<(&Function, &FunctionInfo)>)
        ensures
            r@.len() == self.definition().functions@.len(),
            forall|i: int|
                #![trigger r@[i]]
                0 <= i < r@.len() ==> {
                    &&& *r@[i].0 == self.definition().functions@[i]
                    &&& r@[i].1.describes(self.definition().functions@[i])
                },
    {
        proof {
            use_type_invariant(self);
        }
        let mut r: Vec<(&Function, &FunctionInfo)> = Vec::new();
        for i in 0..self.func_infos.len()
            invariant
                self.wf(),
                r@.len() == i,
                forall|j: int|
                    #![trigger r@[j]]
                    0 <= j < i ==> {
                        &&& *r@[j].0 == self.inner.functions@[j]
                        &&& r@[j].1.describes(self.inner.functions@[j])
                    },
        {
            let info = &self.func_infos[i];
            assert(*info == self.func_infos@[i as int]);
            r.push((&self.inner.functions[i], info));
        }
        r
    }

    /// What linking needs to know of the first function with the given name.
    pub fn lookup_info(&self, name: &str) -> (r: Option<&FunctionInfo>)
        ensures
            match find_function(self.definition().functions@, name@) {
                Some(function) => r matches Some(info) && info.describes(function),
                None => r is None,
            },
    {
        proof {
            use_type_invariant(self);
        }
        let ghost functions = self.inner.functions@;
        assert(functions.skip(0) =~= functions);
        for i in 0..self.inner.functions.len()
            invariant
                self.wf(),
                functions == self.inner.functions@,
                find_function(functions, name@) == find_function(functions.skip(i as int), name@),
        {
            assert(functions.skip(i as int).drop_first() =~= functions.skip(i + 1));
            if same_text(self.inner.functions[i].name.as_str(), name) {
                let info = &self.func_infos[i];
                assert(*info == self.func_infos@[i as int]);
                return Some(info);
            }
        }
        None
    }

    /// Whether some function has to be adapted.
    pub fn must_adapt(&self) -> (r: bool)
        ensures
            r == self.definition().any_adapted(),
    {
        proof {
            use_type_invariant(self);
        }
        self.must_adapt
    }

    /// Whether adapting reads or writes the memory of the module.
    pub fn needs_memory(&self) -> (r: bool)
        ensures
            r == self.definition().any_uses_memory(),
    {
        proof {
            use_type_invariant(self);
        }
        self.needs_memory
    }

    /// Whether adapting allocates memory in the module.
    pub fn needs_realloc_free(&self) -> (r: bool)
        ensures
            r == self.definition().any_allocates(),
    {
        proof {
            use_type_invariant(self);
        }
        self.needs_realloc_free
    }

    /// Whether the interface defines a resource itself.
    pub fn has_resources(&self) -> (r: bool)
        ensures
            r == self.definition().any_own_resource(),
    {
        proof {
            use_type_invariant(self);
        }
        self.has_resources
    }
}

} // verus!
