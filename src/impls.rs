//! Descriptors of the standard library's types, given the handles of the
//! types they are built from.
use vstd::prelude::*;

use crate::meta_type::MetaType;
use crate::ty::{Field, Path, Type, TypeComposite, TypeDef, TypeDefPrimitive, TypeDefVariant, Variant};

verus! {

/// The path is a single name in the root namespace.
pub open spec fn is_prelude_path(p: Path, name: Seq<char>) -> bool {
    p.segments@.len() == 1 && p.segments@[0]@ == name
}

/// An unnamed field of type `ty`, displayed as `ty_name`, with no docs.
pub open spec fn is_unnamed_field(f: Field<MetaType>, ty: MetaType, ty_name: Seq<char>) -> bool {
    &&& f.name.is_none()
    &&& f.ty == ty
    &&& f.ty_name.is_some() && f.ty_name.unwrap()@ == ty_name
    &&& f.docs@.len() == 0
}

/// A path in the root namespace.
fn prelude_path(name: &str) -> (r: Path)
    ensures
        is_prelude_path(r, name@),
{
    Path { segments: vec![name.to_owned()] }
}

/// A single unnamed field.
fn unnamed_field(ty: MetaType, ty_name: &str) -> (r: Field<MetaType>)
    ensures
        is_unnamed_field(r, ty, ty_name@),
{
    Field { name: None, ty, ty_name: Some(ty_name.to_owned()), docs: Vec::new() }
}

/// A type with an empty path, no type parameters, and kind `def`.
pub fn anonymous_type_info(def: TypeDef<MetaType>) -> (r: Type<MetaType>)
    ensures
        r.path.segments@.len() == 0,
        r.type_params@.len() == 0,
        r.type_def == def,
{
    Type { path: Path { segments: Vec::new() }, type_params: Vec::new(), type_def: def }
}

/// The descriptor of a primitive type.
pub fn primitive_type_info(prim: TypeDefPrimitive) -> (r: Type<MetaType>)
    ensures
        r.path.segments@.len() == 0,
        r.type_params@.len() == 0,
        r.type_def == TypeDef::<MetaType>::Primitive(prim),
{
    anonymous_type_info(TypeDef::Primitive(prim))
}

/// `Option<T>`: the variants `None`, without fields, and `Some`, with one
/// unnamed field of `T`.
pub fn option_type_info(t: MetaType) -> (r: Type<MetaType>)
    ensures
        is_prelude_path(r.path, "Option"@),
        r.type_params@ == seq![t],
        r.type_def is Variant,
        r.type_def->Variant_0.variants@.len() == 2,
        r.type_def->Variant_0.variants@[0].name@ == "None"@,
        r.type_def->Variant_0.variants@[0].fields@.len() == 0,
        r.type_def->Variant_0.variants@[0].discriminant.is_none(),
        r.type_def->Variant_0.variants@[1].name@ == "Some"@,
        r.type_def->Variant_0.variants@[1].fields@.len() == 1,
        is_unnamed_field(r.type_def->Variant_0.variants@[1].fields@[0], t, "T"@),
        r.type_def->Variant_0.variants@[1].discriminant.is_none(),
{
    let none = Variant { name: "None".to_owned(), fields: Vec::new(), discriminant: None };
    let some = Variant { name: "Some".to_owned(), fields: vec![unnamed_field(t, "T")], discriminant: None };
    Type {
        path: prelude_path("Option"),
        type_params: vec![t],
        type_def: TypeDef::Variant(TypeDefVariant { variants: vec![none, some] }),
    }
}

/// `Result<T, E>`: the variants `Ok`, with one unnamed field of `T`, and
/// `Err`, with one unnamed field of `E`.
pub fn result_type_info(t: MetaType, e: MetaType) -> (r: Type<MetaType>)
    ensures
        is_prelude_path(r.path, "Result"@),
        r.type_params@ == seq![t, e],
        r.type_def is Variant,
        r.type_def->Variant_0.variants@.len() == 2,
        r.type_def->Variant_0.variants@[0].name@ == "Ok"@,
        r.type_def->Variant_0.variants@[0].fields@.len() == 1,
        is_unnamed_field(r.type_def->Variant_0.variants@[0].fields@[0], t, "T"@),
        r.type_def->Variant_0.variants@[0].discriminant.is_none(),
        r.type_def->Variant_0.variants@[1].name@ == "Err"@,
        r.type_def->Variant_0.variants@[1].fields@.len() == 1,
        is_unnamed_field(r.type_def->Variant_0.variants@[1].fields@[0], e, "E"@),
        r.type_def->Variant_0.variants@[1].discriminant.is_none(),
{
    let ok = Variant { name: "Ok".to_owned(), fields: vec![unnamed_field(t, "T")], discriminant: None };
    let err = Variant { name: "Err".to_owned(), fields: vec![unnamed_field(e, "E")], discriminant: None };
    Type {
        path: prelude_path("Result"),
        type_params: vec![t, e],
        type_def: TypeDef::Variant(TypeDefVariant { variants: vec![ok, err] }),
    }
}

/// `BTreeMap<K, V>`: parameterised by the entry tuple `(K, V)`, a composite
/// with one unnamed field, the sequence of entries `[(K, V)]`.
pub fn btree_map_type_info(entry: MetaType, entries: MetaType) -> (r: Type<MetaType>)
    ensures
        is_prelude_path(r.path, "BTreeMap"@),
        r.type_params@ == seq![entry],
        r.type_def is Composite,
        r.type_def->Composite_0.spec_fields().len() == 1,
        is_unnamed_field(r.type_def->Composite_0.spec_fields()[0], entries, "[(K, V)]"@),
{
    let fields = vec![unnamed_field(entries, "[(K, V)]")];
    Type {
        path: prelude_path("BTreeMap"),
        type_params: vec![entry],
        type_def: TypeDef::Composite(TypeComposite::new(fields)),
    }
}

/// `Box<T>`: a composite with one unnamed field of `T`.
pub fn box_type_info(t: MetaType) -> (r: Type<MetaType>)
    ensures
        is_prelude_path(r.path, "Box"@),
        r.type_params@ == seq![t],
        r.type_def is Composite,
        r.type_def->Composite_0.spec_fields().len() == 1,
        is_unnamed_field(r.type_def->Composite_0.spec_fields()[0], t, "T"@),
{
    let fields = vec![unnamed_field(t, "T")];
    Type {
        path: prelude_path("Box"),
        type_params: vec![t],
        type_def: TypeDef::Composite(TypeComposite::new(fields)),
    }
}

} // verus!
