//! The definition of an interface, as plain values.
//!
//! A definition is written in the `witx` language. What this crate reads of a
//! definition is here, together with what the application binary interface
//! makes of it: the signatures of functions, the layout of types, and which
//! types have a valid value for every pattern of bits.

use vstd::prelude::*;
use vstd::set_lib::*;

verus! {

/// A type, as functions and other types use it.
#[derive(Clone, Copy, Debug, PartialEq, Eq, Structural)]
pub enum Type {
    /// A type with a definition, by its position among the definitions.
    Id(usize),
    /// A type without one, such as an integer or a handle.
    Basic,
}

/// The definition of a type.
#[derive(Debug, PartialEq, Eq)]
pub enum TypeDefKind {
    /// Another name for a type.
    Type(Type),
    /// The types of the fields of a record.
    Record(Vec<Type>),
    /// The types that the cases of a variant carry, where they carry one.
    Variant(Vec<Option<Type>>),
    /// A list of elements of a type.
    List(Type),
    /// A pointer or a buffer.
    Other,
}

/// A parameter or a result of a function.
#[derive(Debug, PartialEq, Eq)]
pub struct Param {
    pub name: String,
    pub ty: Type,
    /// Whether every pattern of bits is a value of the type.
    pub all_bits_valid: bool,
}

/// The type of a WebAssembly value that stands for part of a parameter or a
/// result.
#[derive(Clone, Copy, Debug, PartialEq, Eq, Structural)]
pub enum WasmType {
    I32,
    I64,
    F32,
    F64,
}

/// The WebAssembly values that a function takes and returns.
#[derive(Debug, PartialEq, Eq)]
pub struct WasmSignature {
    pub params: Vec<WasmType>,
    pub results: Vec<WasmType>,
    /// The types of the results that are returned through memory, where they
    /// are.
    pub retptr: Option<Vec<WasmType>>,
}

/// A function of an interface.
#[derive(Debug, PartialEq, Eq)]
pub struct Function {
    pub name: String,
    pub params: Vec<Param>,
    pub results: Vec<Param>,
    /// The signature that a module sees that imports the function.
    pub import_signature: WasmSignature,
    /// The signature with which a module exports the function.
    pub export_signature: WasmSignature,
}

/// A resource of an interface.
#[derive(Debug, PartialEq, Eq)]
pub struct Resource {
    pub name: String,
    /// The module that the resource is taken from, where it is not defined
    /// by the interface itself.
    pub foreign_module: Option<String>,
}

/// Size and alignment of every type that has a definition.
#[derive(Debug, PartialEq, Eq)]
pub struct SizeAlign {
    pub map: Vec<(usize, usize)>,
}

/// The definition of an interface.
#[derive(Debug, PartialEq, Eq)]
pub struct Definition {
    pub types: Vec<TypeDefKind>,
    pub functions: Vec<Function>,
    pub resources: Vec<Resource>,
    pub sizes: SizeAlign,
}

/// Whether a type is a basic one or one of the first `count` definitions.
pub open spec fn in_range(ty: Type, count: nat) -> bool {
    match ty {
        Type::Id(id) => id < count,
        Type::Basic => true,
    }
}

/// Whether all types that a definition mentions are in range.
pub open spec fn kind_in_range(kind: TypeDefKind, count: nat) -> bool {
    match kind {
        TypeDefKind::Type(ty) => in_range(ty, count),
        TypeDefKind::Record(fields) => forall|i: int|
            0 <= i < fields@.len() ==> in_range(#[trigger] fields@[i], count),
        TypeDefKind::Variant(cases) => forall|i: int|
            0 <= i < cases@.len() ==> (#[trigger] cases@[i] matches Some(ty) ==> in_range(
                ty,
                count,
            )),
        TypeDefKind::List(ty) => in_range(ty, count),
        TypeDefKind::Other => true,
    }
}

/// Whether every definition mentions types in range only.
pub open spec fn types_in_range(types: Seq<TypeDefKind>) -> bool {
    forall|i: int| 0 <= i < types.len() ==> kind_in_range(#[trigger] types[i], types.len())
}

/// Whether all of the parameters or results are of types in range.
pub open spec fn params_in_range(params: Seq<Param>, count: nat) -> bool {
    forall|i: int| 0 <= i < params.len() ==> in_range((#[trigger] params[i]).ty, count)
}

impl Definition {
    /// Whether every type that is mentioned is defined.
    pub open spec fn valid(&self) -> bool {
        &&& types_in_range(self.types@)
        &&& forall|i: int|
            #![trigger self.functions@[i]]
            0 <= i < self.functions@.len() ==> {
                &&& params_in_range(self.functions@[i].params@, self.types@.len())
                &&& params_in_range(self.functions@[i].results@, self.types@.len())
            }
    }

    /// Whether every type that is mentioned is defined.
    pub fn is_valid(&self) -> (r: bool)
        ensures
            r == self.valid(),
    {
        for i in 0..self.types.len()
            invariant
                forall|j: int|
                    0 <= j < i ==> kind_in_range(#[trigger] self.types@[j], self.types@.len()),
        {
            if !kind_is_in_range(&self.types[i], self.types.len()) {
                assert(!kind_in_range(self.types@[i as int], self.types@.len()));
                return false;
            }
        }
        for i in 0..self.functions.len()
            invariant
                types_in_range(self.types@),
                forall|j: int|
                    #![trigger self.functions@[j]]
                    0 <= j < i ==> {
                        &&& params_in_range(self.functions@[j].params@, self.types@.len())
                        &&& params_in_range(self.functions@[j].results@, self.types@.len())
                    },
        {
            let function = &self.functions[i];
            if !params_are_in_range(&function.params, self.types.len()) || !params_are_in_range(
                &function.results,
                self.types.len(),
            ) {
                assert(!params_in_range(self.functions@[i as int].params@, self.types@.len())
                    || !params_in_range(self.functions@[i as int].results@, self.types@.len()));
                return false;
            }
        }
        true
    }
}

/// Whether a type is a basic one or one of the first `count` definitions.
fn is_in_range(ty: Type, count: usize) -> (r: bool)
    ensures
        r == in_range(ty, count as nat),
{
    match ty {
        Type::Id(id) => id < count,
        Type::Basic => true,
    }
}

/// Whether all types that a definition mentions are in range.
fn kind_is_in_range(kind: &TypeDefKind, count: usize) -> (r: bool)
    ensures
        r == kind_in_range(*kind, count as nat),
{
    match kind {
        TypeDefKind::Type(ty) => is_in_range(*ty, count),
        TypeDefKind::Record(fields) => {
            for i in 0..fields.len()
                invariant
                    *kind == TypeDefKind::Record(*fields),
                    forall|j: int| 0 <= j < i ==> in_range(#[trigger] fields@[j], count as nat),
            {
                let ty = fields[i];
                if !is_in_range(ty, count) {
                    assert(kind->Record_0@[i as int] == ty);
                    return false;
                }
            }
            true
        },
        TypeDefKind::Variant(cases) => {
            for i in 0..cases.len()
                invariant
                    *kind == TypeDefKind::Variant(*cases),
                    forall|j: int|
                        0 <= j < i ==> (#[trigger] cases@[j] matches Some(ty) ==> in_range(
                            ty,
                            count as nat,
                        )),
            {
                if let Some(ty) = cases[i] {
                    if !is_in_range(ty, count) {
                        assert(cases@[i as int] == Some(ty));
                        return false;
                    }
                }
            }
            true
        },
        TypeDefKind::List(ty) => is_in_range(*ty, count),
        TypeDefKind::Other => true,
    }
}

/// Whether all of the parameters or results are of types in range.
fn params_are_in_range(params: &Vec<Param>, count: usize) -> (r: bool)
    ensures
        r == params_in_range(params@, count as nat),
{
    for i in 0..params.len()
        invariant
            forall|j: int| 0 <= j < i ==> in_range((#[trigger] params@[j]).ty, count as nat),
    {
        if !is_in_range(params[i].ty, count) {
            assert(!in_range(params@[i as int].ty, count as nat));
            return false;
        }
    }
    true
}

/// Whether a list is met within `depth` definitions, starting from a type and
/// going on through other names, fields of records and cases of variants.
pub open spec fn list_within(types: Seq<TypeDefKind>, ty: Type, depth: nat) -> bool
    decreases depth,
{
    match ty {
        Type::Basic => false,
        Type::Id(id) => depth > 0 && match types[id as int] {
            TypeDefKind::List(_) => true,
            TypeDefKind::Type(other) => list_within(types, other, (depth - 1) as nat),
            TypeDefKind::Record(fields) => exists|i: int|
                0 <= i < fields@.len() && list_within(
                    types,
                    #[trigger] fields@[i],
                    (depth - 1) as nat,
                ),
            TypeDefKind::Variant(cases) => exists|i: int|
                0 <= i < cases@.len() && (#[trigger] cases@[i]) is Some && list_within(
                    types,
                    cases@[i]->0,
                    (depth - 1) as nat,
                ),
            TypeDefKind::Other => false,
        },
    }
}

/// Whether a type is a list or holds one, at any depth.
pub open spec fn contains_list(types: Seq<TypeDefKind>, ty: Type) -> bool {
    exists|depth: nat| list_within(types, ty, depth)
}

/// Whether the lists that are met within `a` definitions, from any type, are
/// met within `b`.
spec fn met_sooner(types: Seq<TypeDefKind>, a: nat, b: nat) -> bool {
    forall|ty: Type|
        in_range(ty, types.len()) && #[trigger] list_within(types, ty, a) ==> list_within(
            types,
            ty,
            b,
        )
}

/// One more definition on both sides keeps [`met_sooner`].
proof fn lemma_met_sooner_step(types: Seq<TypeDefKind>, a: nat, b: nat)
    requires
        types_in_range(types),
        met_sooner(types, a, b),
    ensures
        met_sooner(types, a + 1, b + 1),
{
    assert forall|ty: Type|
        in_range(ty, types.len()) && #[trigger] list_within(
            types,
            ty,
            a + 1,
        ) implies list_within(types, ty, b + 1) by {
        if let Type::Id(id) = ty {
            assert(kind_in_range(types[id as int], types.len()));
            match types[id as int] {
                TypeDefKind::Type(other) => {
                    assert(list_within(types, other, a));
                },
                TypeDefKind::Record(fields) => {
                    let i = choose|i: int|
                        0 <= i < fields@.len() && list_within(types, #[trigger] fields@[i], a);
                    assert(list_within(types, fields@[i], b));
                },
                TypeDefKind::Variant(cases) => {
                    let i = choose|i: int|
                        0 <= i < cases@.len() && (#[trigger] cases@[i]) is Some && list_within(
                            types,
                            cases@[i]->0,
                            a,
                        );
                    assert(list_within(types, cases@[i]->0, b));
                },
                _ => {},
            }
        }
    }
}

/// A list that is met is still met when more definitions are looked at.
proof fn lemma_list_within_more(types: Seq<TypeDefKind>, a: nat, b: nat)
    requires
        types_in_range(types),
        a <= b,
    ensures
        met_sooner(types, a, b),
    decreases a,
{
    if a > 0 {
        lemma_list_within_more(types, (a - 1) as nat, (b - 1) as nat);
        lemma_met_sooner_step(types, (a - 1) as nat, (b - 1) as nat);
    }
}

/// Where one more definition brings nothing, no number of them does.
proof fn lemma_no_list_further(types: Seq<TypeDefKind>, depth: nat, more: nat)
    requires
        types_in_range(types),
        met_sooner(types, depth + 1, depth),
    ensures
        met_sooner(types, depth + more, depth),
    decreases more,
{
    if more > 0 {
        lemma_no_list_further(types, depth, (more - 1) as nat);
        lemma_met_sooner_step(types, (depth + more - 1) as nat, depth);
        assert(depth + more - 1 + 1 == depth + more);
    }
}

/// The definitions from which a list is met within `depth` definitions.
spec fn listed(types: Seq<TypeDefKind>, depth: nat) -> Set<int> {
    set_int_range(0, types.len() as int).filter(
        |id: int| list_within(types, Type::Id(id as usize), depth),
    )
}

/// Up to the depth from which on nothing more is met, every further definition
/// that is looked at brings in at least one.
proof fn lemma_listed_grows(types: Seq<TypeDefKind>, depth: nat)
    requires
        types_in_range(types),
        types.len() <= usize::MAX,
    ensures
        met_sooner(types, depth + 1, depth) || listed(types, depth).len() >= depth,
    decreases depth,
{
    if depth > 0 {
        let less = (depth - 1) as nat;
        lemma_listed_grows(types, less);
        if met_sooner(types, depth, less) {
            lemma_met_sooner_step(types, depth, less);
        } else {
            lemma_int_range(0, types.len() as int);
            lemma_list_within_more(types, less, depth);
            let ty = choose|ty: Type|
                in_range(ty, types.len()) && #[trigger] list_within(types, ty, depth)
                    && !list_within(types, ty, less);
            let id = ty->Id_0 as int;
            assert(listed(types, depth).contains(id));
            assert(!listed(types, less).contains(id));
            assert(listed(types, less).insert(id).subset_of(listed(types, depth)));
            lemma_len_subset(listed(types, less).insert(id), listed(types, depth));
        }
    }
}

/// No list is met later than after as many definitions as there are.
proof fn lemma_depth_suffices(types: Seq<TypeDefKind>, ty: Type)
    requires
        types_in_range(types),
        types.len() <= usize::MAX,
        in_range(ty, types.len()),
    ensures
        contains_list(types, ty) == list_within(types, ty, types.len()),
{
    let count = types.len();
    lemma_listed_grows(types, count);
    if contains_list(types, ty) {
        let depth = choose|depth: nat| list_within(types, ty, depth);
        if depth <= count {
            lemma_list_within_more(types, depth, count);
        } else if met_sooner(types, count + 1, count) {
            lemma_no_list_further(types, count, (depth - count) as nat);
        } else {
            lemma_int_range(0, count as int);
            lemma_len_subset(listed(types, count), set_int_range(0, count as int));
            lemma_subset_equality(listed(types, count), set_int_range(0, count as int));
            let id = ty->Id_0 as int;
            assert(listed(types, count).contains(id));
        }
    }
}

/// A type contains a list exactly if it is a list, stands for a type that
/// contains one, or has a field or a case whose type contains one.
pub proof fn law_contains_list(types: Seq<TypeDefKind>, ty: Type)
    requires
        types_in_range(types),
        in_range(ty, types.len()),
    ensures
        contains_list(types, ty) == match ty {
            Type::Basic => false,
            Type::Id(id) => match types[id as int] {
                TypeDefKind::List(_) => true,
                TypeDefKind::Type(other) => contains_list(types, other),
                TypeDefKind::Record(fields) => exists|i: int|
                    0 <= i < fields@.len() && contains_list(types, #[trigger] fields@[i]),
                TypeDefKind::Variant(cases) => exists|i: int|
                    0 <= i < cases@.len() && (#[trigger] cases@[i]) is Some && contains_list(
                        types,
                        cases@[i]->0,
                    ),
                TypeDefKind::Other => false,
            },
        },
{
    if contains_list(types, ty) {
        let depth = choose|depth: nat| list_within(types, ty, depth);
        let less = (depth - 1) as nat;
        match types[ty->Id_0 as int] {
            TypeDefKind::Type(other) => {
                assert(list_within(types, other, less));
            },
            TypeDefKind::Record(fields) => {
                let i = choose|i: int|
                    0 <= i < fields@.len() && list_within(types, #[trigger] fields@[i], less);
                assert(contains_list(types, fields@[i]));
            },
            TypeDefKind::Variant(cases) => {
                let i = choose|i: int|
                    0 <= i < cases@.len() && (#[trigger] cases@[i]) is Some && list_within(
                        types,
                        cases@[i]->0,
                        less,
                    );
                assert(contains_list(types, cases@[i]->0));
            },
            _ => {},
        }
    } else if let Type::Id(id) = ty {
        assert(!list_within(types, ty, 1));
        match types[id as int] {
            TypeDefKind::Type(other) => {
                if contains_list(types, other) {
                    let depth = choose|depth: nat| list_within(types, other, depth);
                    assert(list_within(types, ty, depth + 1));
                }
            },
            TypeDefKind::Record(fields) => {
                assert forall|i: int| 0 <= i < fields@.len() implies !contains_list(
                    types,
                    #[trigger] fields@[i],
                ) by {
                    if contains_list(types, fields@[i]) {
                        let depth = choose|depth: nat| list_within(types, fields@[i], depth);
                        assert(list_within(types, ty, depth + 1));
                    }
                }
            },
            TypeDefKind::Variant(cases) => {
                assert forall|i: int|
                    0 <= i < cases@.len() && (#[trigger] cases@[i]) is Some implies !contains_list(
                    types,
                    cases@[i]->0,
                ) by {
                    if contains_list(types, cases@[i]->0) {
                        let depth = choose|depth: nat| list_within(types, cases@[i]->0, depth);
                        assert(list_within(types, ty, depth + 1));
                    }
                }
            },
            _ => {},
        }
    }
}

/// Whether a list is met within `depth` definitions.
fn has_list_within(types: &Vec<TypeDefKind>, ty: Type, depth: usize) -> (r: bool)
    requires
        types_in_range(types@),
        in_range(ty, types@.len()),
    ensures
        r == list_within(types@, ty, depth as nat),
    decreases depth,
{
    match ty {
        Type::Basic => false,
        Type::Id(id) => {
            if depth == 0 {
                return false;
            }
            let less = depth - 1;
            let kind = &types[id];
            assert(kind_in_range(types@[id as int], types@.len()));
            match kind {
                TypeDefKind::List(_) => true,
                TypeDefKind::Type(other) => has_list_within(types, *other, less),
                TypeDefKind::Record(fields) => {
                    for i in 0..fields.len()
                        invariant
                            types_in_range(types@),
                            kind_in_range(*kind, types@.len()),
                            *kind == types@[id as int],
                            *kind == TypeDefKind::Record(*fields),
                            ty == Type::Id(id),
                            less + 1 == depth,
                            forall|j: int|
                                0 <= j < i ==> !list_within(
                                    types@,
                                    #[trigger] fields@[j],
                                    less as nat,
                                ),
                    {
                        let field = fields[i];
                        assert(kind->Record_0@[i as int] == field);
                        if has_list_within(types, field, less) {
                            return true;
                        }
                    }
                    false
                },
                TypeDefKind::Variant(cases) => {
                    for i in 0..cases.len()
                        invariant
                            types_in_range(types@),
                            kind_in_range(*kind, types@.len()),
                            *kind == types@[id as int],
                            *kind == TypeDefKind::Variant(*cases),
                            ty == Type::Id(id),
                            less + 1 == depth,
                            forall|j: int|
                                0 <= j < i && (#[trigger] cases@[j]) is Some ==> !list_within(
                                    types@,
                                    cases@[j]->0,
                                    less as nat,
                                ),
                    {
                        if let Some(case) = cases[i] {
                            assert(cases@[i as int] == Some(case));
                            if has_list_within(types, case, less) {
                                return true;
                            }
                        }
                    }
                    false
                },
                TypeDefKind::Other => false,
            }
        },
    }
}

/// Whether a type of an interface is a list or holds one.
pub fn has_list(interface: &Definition, ty: Type) -> (r: bool)
    requires
        types_in_range(interface.types@),
        in_range(ty, interface.types@.len()),
    ensures
        r == contains_list(interface.types@, ty),
{
    let count = interface.types.len();
    proof {
        lemma_depth_suffices(interface.types@, ty);
    }
    has_list_within(&interface.types, ty, count)
}

} // verus!
