//! Whether an import is met, in terms of what the two modules hold.

use vstd::prelude::*;

use crate::error::ErrorView;
use crate::interface::{find_function, signature_type};
use crate::interface_laws::{law_first_function, law_function_types, stands_for};
use crate::laws::law_first_export;
use crate::module::{find_export, ModuleView};
use crate::wasm::{ExportView, ExternalKind, FuncTypeView, ImportType, ImportView, TypeDefView};
use crate::witx::Function;

verus! {

/// The functions of a module itself are counted behind its imports, however many
/// these are: the type of each is the one that its entry in the function section
/// names.
pub proof fn law_own_functions_have_types(module: ModuleView, j: int, index: u32)
    requires
        0 <= j < module.functions.len(),
        index == module.imports.len() + j,
    ensures
        module.functions[j] < module.types.len() ==> match module.types[module.functions[j] as int] {
            TypeDefView::Func(ty) => module.function_type(index) == Some(ty),
            _ => module.function_type(index) is None,
        },
        module.functions[j] >= module.types.len() ==> module.function_type(index) is None,
{
}

/// Imports are counted first: the type of an imported function is the one that
/// the import names, and an import of anything else has none.
pub proof fn law_imports_have_types(module: ModuleView, i: int, index: u32)
    requires
        0 <= i < module.imports.len(),
        index == i,
    ensures
        module.imports[i].ty matches ImportType::Function(ty) ==> ty < module.types.len()
            ==> match module.types[ty as int] {
            TypeDefView::Func(ty) => module.function_type(index) == Some(ty),
            _ => module.function_type(index) is None,
        },
        module.imports[i].ty matches ImportType::Function(ty) ==> ty >= module.types.len()
            ==> module.function_type(index) is None,
        !(module.imports[i].ty is Function) ==> module.function_type(index) is None,
{
}

/// There is no function behind the imports and the functions of a module.
pub proof fn law_no_more_functions(module: ModuleView, index: u32)
    requires
        index >= module.imports.len() + module.functions.len(),
    ensures
        module.function_type(index) is None,
{
}

/// The type of an imported function is the one at the position that the import
/// names.
pub proof fn law_imported_function_types(module: ModuleView, ty: ImportType, view: FuncTypeView)
    ensures
        module.import_type(ty) == Some(view) <==> {
            &&& ty matches ImportType::Function(index) && index < module.types.len()
                && module.types[index as int] == TypeDefView::Func(view)
        },
{
}

/// One more import of anything, put before the others, shifts the indices of all
/// functions by one and changes no type.
pub proof fn law_imports_shift_functions(
    module: ModuleView,
    import: ImportView,
    index: u32,
    next: u32,
)
    requires
        next == index + 1,
    ensures
        (ModuleView { imports: seq![import] + module.imports, ..module }).function_type(next)
            == module.function_type(index),
{
    let more = ModuleView { imports: seq![import] + module.imports, ..module };
    assert(more.imports.len() == module.imports.len() + 1);
    if index < module.imports.len() {
        assert(more.imports[next as int] == module.imports[index as int]);
    }
}

/// An import that names nothing that is exported is not met, for that reason.
pub proof fn law_missing_exports(exporter: ModuleView, import: ImportView, importer: ModuleView)
    requires
        forall|j: int|
            0 <= j < exporter.exports.len() ==> import.field != Some(
                (#[trigger] exporter.exports[j]).field,
            ),
    ensures
        exporter.resolution(import, importer) == Err::<(), ErrorView>(
            ErrorView::MissingExport {
                module: exporter.name,
                ty: import.ty,
                field: match import.field {
                    Some(field) => field,
                    None => Seq::empty(),
                },
            },
        ),
        exporter.resolvable(import) <==> !(import.ty is Event),
{
    law_first_export(exporter.exports, import.field);
}

/// An import of something that is exported is resolved to the first export of its
/// name.
proof fn lemma_first_export(exports: Seq<ExportView>, field: Seq<char>, k: int)
    requires
        0 <= k < exports.len(),
        exports[k].field == field,
        forall|j: int| 0 <= j < k ==> (#[trigger] exports[j]).field != field,
    ensures
        find_export(exports, Some(field)) == Some(exports[k]),
{
    law_first_export(exports, Some(field));
}

/// A function that is looked up by its name is the first one of its name.
proof fn lemma_first_function(functions: Seq<Function>, name: Seq<char>, k: int)
    requires
        0 <= k < functions.len(),
        functions[k].name@ == name,
        forall|j: int| 0 <= j < k ==> (#[trigger] functions[j]).name@ != name,
    ensures
        find_function(functions, name) == Some(functions[k]),
{
    law_first_function(functions, name);
}

/// Where a module has an interface, an import of something that is exported but
/// that the interface has no function for is not met, for that reason and
/// whatever is asked for.
pub proof fn law_functions_outside_the_interface(
    exporter: ModuleView,
    import: ImportView,
    importer: ModuleView,
    k: int,
)
    requires
        0 <= k < exporter.exports.len(),
        import.field == Some(exporter.exports[k].field),
        exporter.interface matches Some(definition) && forall|j: int|
            0 <= j < definition.functions@.len() ==> import.field != Some(
                (#[trigger] definition.functions@[j]).name@,
            ),
    ensures
        exporter.resolution(import, importer) == Err::<(), ErrorView>(
            ErrorView::MissingFunction {
                module: exporter.name,
                field: exporter.exports[k].field,
            },
        ),
        exporter.resolvable(import),
{
    law_first_export(exporter.exports, import.field);
    law_first_function(exporter.interface->0.functions@, exporter.exports[k].field);
}

/// Whether the interface of a module, where it has one, has a function of the
/// given name.
pub open spec fn in_interface(exporter: ModuleView, name: Seq<char>) -> bool {
    exporter.interface matches Some(definition) ==> exists|j: int|
        0 <= j < definition.functions@.len() && (#[trigger] definition.functions@[j]).name@ == name
}

/// Where the first export of the name is of another kind than what is asked for,
/// the import is not met, for that reason.
pub proof fn law_kinds_must_agree(
    exporter: ModuleView,
    import: ImportView,
    importer: ModuleView,
    k: int,
)
    requires
        0 <= k < exporter.exports.len(),
        import.field == Some(exporter.exports[k].field),
        forall|j: int|
            0 <= j < k ==> (#[trigger] exporter.exports[j]).field != exporter.exports[k].field,
        in_interface(exporter, exporter.exports[k].field),
        !same_kind(import.ty, exporter.exports[k].kind),
    ensures
        exporter.resolution(import, importer) == Err::<(), ErrorView>(
            ErrorView::KindMismatch {
                ty: import.ty,
                field: exporter.exports[k].field,
                module: exporter.name,
                kind: exporter.exports[k].kind,
            },
        ),
        exporter.resolvable(import) <==> !(import.ty is Event) && !(exporter.exports[k].kind is Event)
            && !(exporter.exports[k].kind is Type),
{
    lemma_first_export(exporter.exports, exporter.exports[k].field, k);
    if let Some(definition) = exporter.interface {
        law_first_function(definition.functions@, exporter.exports[k].field);
    }
}

/// Whether an import asks for the kind of thing that an export offers. Nothing
/// asks for types, and events are not asked for.
pub open spec fn same_kind(ty: ImportType, kind: ExternalKind) -> bool {
    ||| ty is Function && kind is Function
    ||| ty is Table && kind is Table
    ||| ty is Memory && kind is Memory
    ||| ty is Global && kind is Global
    ||| ty is Module && kind is Module
    ||| ty is Instance && kind is Instance
}

/// What is asked for and offered, but is no function, cannot be imported.
pub proof fn law_only_functions_are_supported(
    exporter: ModuleView,
    import: ImportView,
    importer: ModuleView,
    k: int,
)
    requires
        0 <= k < exporter.exports.len(),
        import.field == Some(exporter.exports[k].field),
        forall|j: int|
            0 <= j < k ==> (#[trigger] exporter.exports[j]).field != exporter.exports[k].field,
        in_interface(exporter, exporter.exports[k].field),
        same_kind(import.ty, exporter.exports[k].kind),
        !(import.ty is Function),
    ensures
        exporter.resolution(import, importer) == Err::<(), ErrorView>(
            ErrorView::UnsupportedImport(import.ty),
        ),
        exporter.resolvable(import),
{
    lemma_first_export(exporter.exports, exporter.exports[k].field, k);
    if let Some(definition) = exporter.interface {
        law_first_function(definition.functions@, exporter.exports[k].field);
    }
}

/// Where a module has no interface, a function that is imported with an index
/// into the types of the importer is met by a function that is exported if and
/// only if both have a type and the types are the same.
pub proof fn law_functions_match_by_type(
    exporter: ModuleView,
    import: ImportView,
    importer: ModuleView,
    k: int,
)
    requires
        0 <= k < exporter.exports.len(),
        import.field == Some(exporter.exports[k].field),
        forall|j: int|
            0 <= j < k ==> (#[trigger] exporter.exports[j]).field != exporter.exports[k].field,
        exporter.interface is None,
        import.ty is Function,
        exporter.exports[k].kind is Function,
    ensures
        exporter.resolution(import, importer) is Ok <==> exists|view: FuncTypeView|
            {
                &&& #[trigger] is_type_at(importer.types, import.ty->Function_0, view)
                &&& is_type_of_function(exporter, exporter.exports[k].index, view)
            },
        exporter.resolution(import, importer) is Err ==> exporter.resolution(import, importer)
            == Err::<(), ErrorView>(
            ErrorView::IncompatibleTypes {
                importer: importer.name,
                field: exporter.exports[k].field,
                exporter: exporter.name,
            },
        ),
        exporter.resolvable(import),
{
    let export = exporter.exports[k];
    lemma_first_export(exporter.exports, export.field, k);
    if exporter.resolution(import, importer) is Ok {
        let view = exporter.function_type(export.index)->0;
        assert(is_type_at(importer.types, import.ty->Function_0, view));
        assert(is_type_of_function(exporter, export.index, view));
    }
}

/// Whether a function type stands at a position of a type section.
pub open spec fn is_type_at(types: Seq<TypeDefView>, index: u32, view: FuncTypeView) -> bool {
    index < types.len() && types[index as int] == TypeDefView::Func(view)
}

/// Whether a function of a module is of a type: an imported one of the type that
/// the import names, and one of its own of the type that its entry names.
pub open spec fn is_type_of_function(module: ModuleView, index: u32, view: FuncTypeView) -> bool {
    let imported = module.imports.len();
    ||| index < imported && module.imports[index as int].ty is Function && is_type_at(
        module.types,
        module.imports[index as int].ty->Function_0,
        view,
    )
    ||| imported <= index < imported + module.functions.len() && is_type_at(
        module.types,
        module.functions[index - imported],
        view,
    )
}

/// Where a module has an interface, a function that is imported is met by a
/// function that is exported if and only if its type is, part by part, the
/// signature with which the first function of that name in the interface is
/// imported.
pub proof fn law_functions_match_by_interface(
    exporter: ModuleView,
    import: ImportView,
    importer: ModuleView,
    k: int,
    f: int,
)
    requires
        0 <= k < exporter.exports.len(),
        import.field == Some(exporter.exports[k].field),
        forall|j: int|
            0 <= j < k ==> (#[trigger] exporter.exports[j]).field != exporter.exports[k].field,
        exporter.interface is Some,
        0 <= f < exporter.interface->0.functions@.len(),
        exporter.interface->0.functions@[f].name@ == exporter.exports[k].field,
        forall|j: int|
            0 <= j < f ==> (#[trigger] exporter.interface->0.functions@[j]).name@
                != exporter.exports[k].field,
        import.ty is Function,
        exporter.exports[k].kind is Function,
    ensures
        exporter.resolution(import, importer) is Ok <==> exists|view: FuncTypeView|
            {
                let signature = exporter.interface->0.functions@[f].import_signature;
                &&& #[trigger] is_type_at(importer.types, import.ty->Function_0, view)
                &&& view.params.len() == signature.params@.len()
                &&& view.returns.len() == signature.results@.len()
                &&& forall|i: int|
                    0 <= i < view.params.len() ==> stands_for(
                        #[trigger] view.params[i],
                        signature.params@[i],
                    )
                &&& forall|i: int|
                    0 <= i < view.returns.len() ==> stands_for(
                        #[trigger] view.returns[i],
                        signature.results@[i],
                    )
            },
        exporter.resolution(import, importer) is Err ==> exporter.resolution(import, importer)
            == Err::<(), ErrorView>(
            ErrorView::IncompatibleTypes {
                importer: importer.name,
                field: exporter.exports[k].field,
                exporter: exporter.name,
            },
        ),
        exporter.resolvable(import),
{
    let export = exporter.exports[k];
    lemma_first_export(exporter.exports, export.field, k);
    lemma_first_function(exporter.interface->0.functions@, export.field, f);
    let signature = exporter.interface->0.functions@[f].import_signature;
    let expected = signature_type(signature);
    assert forall|i: int| true implies {
        &&& 0 <= i < expected.params.len() ==> stands_for(
            #[trigger] expected.params[i],
            signature.params@[i],
        )
        &&& 0 <= i < expected.returns.len() ==> stands_for(
            expected.returns[i],
            signature.results@[i],
        )
    } by {
        law_function_types(signature, i);
    }
    assert forall|i: int| 0 <= i < expected.returns.len() implies stands_for(
        #[trigger] expected.returns[i],
        signature.results@[i],
    ) by {
        law_function_types(signature, i);
    }
    law_function_types(signature, 0);
    if exporter.resolution(import, importer) is Ok {
        assert(is_type_at(importer.types, import.ty->Function_0, expected));
    }
    if exists|view: FuncTypeView|
        {
            &&& #[trigger] is_type_at(importer.types, import.ty->Function_0, view)
            &&& view.params.len() == signature.params@.len()
            &&& view.returns.len() == signature.results@.len()
            &&& forall|i: int|
                0 <= i < view.params.len() ==> stands_for(
                    #[trigger] view.params[i],
                    signature.params@[i],
                )
            &&& forall|i: int|
                0 <= i < view.returns.len() ==> stands_for(
                    #[trigger] view.returns[i],
                    signature.results@[i],
                )
        } {
        let view = choose|view: FuncTypeView|
            {
                &&& #[trigger] is_type_at(importer.types, import.ty->Function_0, view)
                &&& view.params.len() == signature.params@.len()
                &&& view.returns.len() == signature.results@.len()
                &&& forall|i: int|
                    0 <= i < view.params.len() ==> stands_for(
                        #[trigger] view.params[i],
                        signature.params@[i],
                    )
                &&& forall|i: int|
                    0 <= i < view.returns.len() ==> stands_for(
                        #[trigger] view.returns[i],
                        signature.results@[i],
                    )
            };
        assert(view.params =~= expected.params);
        assert(view.returns =~= expected.returns);
        assert(view =~= expected);
    }
}

/// Changing what does not bear on an import changes nothing: the bytes and
/// sections of either module, the imports, functions, exports and interface of
/// the importer, and the name of the module that the import asks.
pub proof fn law_what_does_not_bear_on_imports(
    exporter: ModuleView,
    import: ImportView,
    importer: ModuleView,
    other_exporter: ModuleView,
    other_import: ImportView,
    other_importer: ModuleView,
)
    requires
        exporter.name == other_exporter.name,
        exporter.types == other_exporter.types,
        exporter.imports == other_exporter.imports,
        exporter.exports == other_exporter.exports,
        exporter.functions == other_exporter.functions,
        exporter.interface == other_exporter.interface,
        import.field == other_import.field,
        import.ty == other_import.ty,
        importer.name == other_importer.name,
        importer.types == other_importer.types,
    ensures
        exporter.resolution(import, importer) == other_exporter.resolution(
            other_import,
            other_importer,
        ),
        exporter.resolvable(import) == other_exporter.resolvable(other_import),
{
}

} // verus!
