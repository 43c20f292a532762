//! How an expanded descriptor, whose references are handles, relates to its
//! compact counterpart, whose references are table indices.
use vstd::prelude::*;

use crate::interner::INDEX_BASE;
use crate::meta_type::{MetaType, TypeId};
use crate::ty::{Field, Type, TypeDef, Variant};

verus! {

/// `c` is the index that `ids` gives to the identity of handle `e`.
pub open spec fn ref_compacts(e: MetaType, c: u64, ids: Seq<TypeId>) -> bool {
    INDEX_BASE <= c < ids.len() + INDEX_BASE && ids[c - INDEX_BASE] == e.id
}

/// Each handle of `e` becomes the index at the same position of `c`.
pub open spec fn refs_compact(e: Seq<MetaType>, c: Seq<u64>, ids: Seq<TypeId>) -> bool {
    e.len() == c.len() && forall|i: int| 0 <= i < e.len() ==> ref_compacts(e[i], #[trigger] c[i], ids)
}

/// The field keeps its name, display name and docs; its type becomes an index.
pub open spec fn field_compacts(e: Field<MetaType>, c: Field<u64>, ids: Seq<TypeId>) -> bool {
    &&& c.name == e.name
    &&& c.ty_name == e.ty_name
    &&& c.docs == e.docs
    &&& ref_compacts(e.ty, c.ty, ids)
}

/// Each field of `e` becomes the field at the same position of `c`.
pub open spec fn fields_compact(e: Seq<Field<MetaType>>, c: Seq<Field<u64>>, ids: Seq<TypeId>) -> bool {
    e.len() == c.len() && forall|i: int| 0 <= i < e.len() ==> field_compacts(e[i], #[trigger] c[i], ids)
}

/// The variant keeps its name and discriminant; its fields compact.
pub open spec fn variant_compacts(e: Variant<MetaType>, c: Variant<u64>, ids: Seq<TypeId>) -> bool {
    &&& c.name == e.name
    &&& c.discriminant == e.discriminant
    &&& fields_compact(e.fields@, c.fields@, ids)
}

/// Each variant of `e` becomes the variant at the same position of `c`.
pub open spec fn variants_compact(e: Seq<Variant<MetaType>>, c: Seq<Variant<u64>>, ids: Seq<TypeId>) -> bool {
    e.len() == c.len() && forall|i: int| 0 <= i < e.len() ==> variant_compacts(e[i], #[trigger] c[i], ids)
}

/// The kind stays the same and every reference in it compacts.
pub open spec fn typedef_compacts(e: TypeDef<MetaType>, c: TypeDef<u64>, ids: Seq<TypeId>) -> bool {
    match (e, c) {
        (TypeDef::Composite(a), TypeDef::Composite(b)) => fields_compact(a.spec_fields(), b.spec_fields(), ids),
        (TypeDef::Variant(a), TypeDef::Variant(b)) => variants_compact(a.variants@, b.variants@, ids),
        (TypeDef::Sequence(a), TypeDef::Sequence(b)) => ref_compacts(a, b, ids),
        (TypeDef::Array(n, a), TypeDef::Array(m, b)) => n == m && ref_compacts(a, b, ids),
        (TypeDef::Tuple(a), TypeDef::Tuple(b)) => refs_compact(a@, b@, ids),
        (TypeDef::Primitive(a), TypeDef::Primitive(b)) => a == b,
        (TypeDef::Compact(a), TypeDef::Compact(b)) => ref_compacts(a, b, ids),
        (TypeDef::Phantom(a), TypeDef::Phantom(b)) => ref_compacts(a, b, ids),
        _ => false,
    }
}

/// `c` is the compact form of `e` under the identity table `ids`: the same
/// path and shape, with every handle replaced by its identity's index.
pub open spec fn type_compacts(e: Type<MetaType>, c: Type<u64>, ids: Seq<TypeId>) -> bool {
    &&& c.path == e.path
    &&& refs_compact(e.type_params@, c.type_params@, ids)
    &&& typedef_compacts(e.type_def, c.type_def, ids)
}

/// `ids2` keeps the identities of `ids` at their positions.
pub open spec fn keeps_prefix(ids: Seq<TypeId>, ids2: Seq<TypeId>) -> bool {
    ids.len() <= ids2.len() && forall|p: int| 0 <= p < ids.len() ==> #[trigger] ids2[p] == ids[p]
}

/// A compact descriptor stays the compact form of its source when the
/// identity table grows at its end.
pub proof fn lemma_type_compacts_extend(e: Type<MetaType>, c: Type<u64>, ids: Seq<TypeId>, ids2: Seq<TypeId>)
    requires
        type_compacts(e, c, ids),
        keeps_prefix(ids, ids2),
    ensures
        type_compacts(e, c, ids2),
{
    assert forall|i: int| 0 <= i < e.type_params@.len() implies ref_compacts(e.type_params@[i], #[trigger] c.type_params@[i], ids2) by {
        assert(ref_compacts(e.type_params@[i], c.type_params@[i], ids));
    }
    match (e.type_def, c.type_def) {
        (TypeDef::Composite(a), TypeDef::Composite(b)) => {
            lemma_fields_compact_extend(a.spec_fields(), b.spec_fields(), ids, ids2);
        },
        (TypeDef::Variant(a), TypeDef::Variant(b)) => {
            assert forall|i: int| 0 <= i < a.variants@.len() implies variant_compacts(a.variants@[i], #[trigger] b.variants@[i], ids2) by {
                assert(variant_compacts(a.variants@[i], b.variants@[i], ids));
                lemma_fields_compact_extend(a.variants@[i].fields@, b.variants@[i].fields@, ids, ids2);
            }
        },
        (TypeDef::Tuple(a), TypeDef::Tuple(b)) => {
            assert forall|i: int| 0 <= i < a@.len() implies ref_compacts(a@[i], #[trigger] b@[i], ids2) by {
                assert(ref_compacts(a@[i], b@[i], ids));
            }
        },
        _ => {},
    }
}

/// Fields stay compact when the identity table grows at its end.
pub proof fn lemma_fields_compact_extend(e: Seq<Field<MetaType>>, c: Seq<Field<u64>>, ids: Seq<TypeId>, ids2: Seq<TypeId>)
    requires
        fields_compact(e, c, ids),
        keeps_prefix(ids, ids2),
    ensures
        fields_compact(e, c, ids2),
{
    assert forall|i: int| 0 <= i < e.len() implies field_compacts(e[i], #[trigger] c[i], ids2) by {
        assert(field_compacts(e[i], c[i], ids));
    }
}

/// Every field of `e` refers to an identity of `ids`.
pub open spec fn fields_within(e: Seq<Field<MetaType>>, ids: Seq<TypeId>) -> bool {
    forall|i: int| 0 <= i < e.len() ==> ids.contains((#[trigger] e[i]).ty.id)
}

/// Every reference of `d` is to an identity of `ids`.
pub open spec fn typedef_within(d: TypeDef<MetaType>, ids: Seq<TypeId>) -> bool {
    match d {
        TypeDef::Composite(a) => fields_within(a.spec_fields(), ids),
        TypeDef::Variant(a) => forall|i: int|
            0 <= i < a.variants@.len() ==> fields_within((#[trigger] a.variants@[i]).fields@, ids),
        TypeDef::Sequence(a) => ids.contains(a.id),
        TypeDef::Array(_, a) => ids.contains(a.id),
        TypeDef::Tuple(a) => forall|i: int| 0 <= i < a@.len() ==> ids.contains((#[trigger] a@[i]).id),
        TypeDef::Primitive(_) => true,
        TypeDef::Compact(a) => ids.contains(a.id),
        TypeDef::Phantom(a) => ids.contains(a.id),
    }
}

/// Every reference of `t`, type parameters included, is to an identity of
/// `ids`.
pub open spec fn type_within(t: Type<MetaType>, ids: Seq<TypeId>) -> bool {
    &&& forall|i: int| 0 <= i < t.type_params@.len() ==> ids.contains((#[trigger] t.type_params@[i]).id)
    &&& typedef_within(t.type_def, ids)
}

/// Some handle of `e` has identity `id`.
pub open spec fn refs_refer(e: Seq<MetaType>, id: TypeId) -> bool {
    exists|i: int| 0 <= i < e.len() && (#[trigger] e[i]).id == id
}

/// Some field of `e` has a type of identity `id`.
pub open spec fn fields_refer(e: Seq<Field<MetaType>>, id: TypeId) -> bool {
    exists|i: int| 0 <= i < e.len() && (#[trigger] e[i]).ty.id == id
}

/// Some field of some variant of `e` has a type of identity `id`.
pub open spec fn variants_refer(e: Seq<Variant<MetaType>>, id: TypeId) -> bool {
    exists|i: int| 0 <= i < e.len() && fields_refer((#[trigger] e[i]).fields@, id)
}

/// Some reference of `d` is to identity `id`.
pub open spec fn typedef_refers(d: TypeDef<MetaType>, id: TypeId) -> bool {
    match d {
        TypeDef::Composite(a) => fields_refer(a.spec_fields(), id),
        TypeDef::Variant(a) => variants_refer(a.variants@, id),
        TypeDef::Sequence(a) => a.id == id,
        TypeDef::Array(_, a) => a.id == id,
        TypeDef::Tuple(a) => refs_refer(a@, id),
        TypeDef::Primitive(_) => false,
        TypeDef::Compact(a) => a.id == id,
        TypeDef::Phantom(a) => a.id == id,
    }
}

/// Some reference of `t`, type parameters included, is to identity `id`.
pub open spec fn type_refers(t: Type<MetaType>, id: TypeId) -> bool {
    refs_refer(t.type_params@, id) || typedef_refers(t.type_def, id)
}

} // verus!
