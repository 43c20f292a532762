//! The shapes that describe a type. Each is generic over its reference slot
//! `T`: a [`MetaType`] handle in the expanded form, a `u64` table index in
//! the compact form.
use vstd::prelude::*;

use crate::meta_type::MetaType;

verus! {

/// Namespace segments followed by a final name.
#[derive(PartialEq, Eq, Clone, Debug)]
pub struct Path {
    pub segments: Vec<String>,
}

/// The primitive types.
#[derive(PartialEq, Eq, Structural, Clone, Copy, Debug)]
pub enum TypeDefPrimitive {
    Bool,
    Char,
    Str,
    U8,
    U16,
    U32,
    U64,
    U128,
    I8,
    I16,
    I32,
    I64,
    I128,
}

/// A field of a composite type or of a variant.
#[derive(PartialEq, Eq, Clone, Debug)]
pub struct Field<T> {
    pub name: Option<String>,
    pub ty: T,
    pub ty_name: Option<String>,
    pub docs: Vec<String>,
}

/// Whether a list of fields is all named or all unnamed.
pub open spec fn fields_uniform<T>(fields: Seq<Field<T>>) -> bool {
    (forall|i: int| 0 <= i < fields.len() ==> (#[trigger] fields[i]).name.is_some()) || (forall|
        i: int,
    |
        0 <= i < fields.len() ==> (#[trigger] fields[i]).name.is_none())
}

/// One variant of an enumeration.
#[derive(PartialEq, Eq, Clone, Debug)]
pub struct Variant<T> {
    pub name: String,
    pub fields: Vec<Field<T>>,
    pub discriminant: Option<u64>,
}

/// A composite type, consisting of either named (struct) or unnamed (tuple
/// struct) fields, or of none (unit struct).
#[derive(PartialEq, Eq, Clone, Debug)]
pub struct TypeComposite<T = MetaType> {
    fields: Vec<Field<T>>,
}

impl<T> TypeComposite<T> {
    /// The fields, in order.
    pub closed spec fn spec_fields(&self) -> Seq<Field<T>> {
        self.fields@
    }

    /// The fields are all named or all unnamed.
    pub open spec fn wf(&self) -> bool {
        fields_uniform(self.spec_fields())
    }

    /// Creates a composite type from its fields.
    pub fn new(fields: Vec<Field<T>>) -> (r: Self)
        requires
            fields_uniform(fields@),
        ensures
            r.spec_fields() == fields@,
            r.wf(),
    {
        TypeComposite { fields }
    }

    /// Creates a composite type without fields.
    pub fn unit() -> (r: Self)
        ensures
            r.spec_fields() == Seq::<Field<T>>::empty(),
            r.wf(),
    {
        TypeComposite { fields: Vec::new() }
    }

    /// A composite type with the given fields, kept as they are.
    pub(crate) fn from_fields(fields: Vec<Field<T>>) -> (r: Self)
        ensures
            r.spec_fields() == fields@,
    {
        TypeComposite { fields }
    }

    /// The fields, in order.
    pub fn fields(&self) -> (r: &Vec<Field<T>>)
        ensures
            r@ == self.spec_fields(),
    {
        &self.fields
    }

    /// Gives up the fields, in order.
    pub fn into_fields(self) -> (r: Vec<Field<T>>)
        ensures
            r@ == self.spec_fields(),
    {
        self.fields
    }
}

/// An enumeration: its variants, in order.
#[derive(PartialEq, Eq, Clone, Debug)]
pub struct TypeDefVariant<T> {
    pub variants: Vec<Variant<T>>,
}

/// The kind of a type, with the references to the types it is built from.
#[derive(PartialEq, Eq, Clone, Debug)]
pub enum TypeDef<T> {
    Composite(TypeComposite<T>),
    Variant(TypeDefVariant<T>),
    Sequence(T),
    Array(u32, T),
    Tuple(Vec<T>),
    Primitive(TypeDefPrimitive),
    Compact(T),
    Phantom(T),
}

/// The description of a type: its path, its type parameters and its kind.
#[derive(PartialEq, Eq, Clone, Debug)]
pub struct Type<T = MetaType> {
    pub path: Path,
    pub type_params: Vec<T>,
    pub type_def: TypeDef<T>,
}

} // verus!
