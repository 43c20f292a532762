//! Type identities, handles, and the reflection contract.
use vstd::prelude::*;

use crate::ty::Type;

verus! {

/// The identity of a type: equal for every handle that stands for the same
/// type, wherever the handle was made.
#[derive(PartialEq, Eq, Structural, Clone, Copy, Debug)]
pub struct TypeId(pub u32);

/// A handle to a type: the reference held in an expanded descriptor. What the
/// type looks like is produced on demand, from its identity, when a registry
/// first meets it.
#[derive(PartialEq, Eq, Structural, Clone, Copy, Debug)]
pub struct MetaType {
    pub id: TypeId,
}

impl MetaType {
    /// A handle for the type with identity `id`.
    pub fn new(id: TypeId) -> (r: MetaType)
        ensures
            r.id == id,
    {
        MetaType { id }
    }

    /// The identity this handle stands for.
    pub fn type_id(&self) -> (r: TypeId)
        ensures
            r == self.id,
    {
        self.id
    }
}

/// Implemented by a type that describes its own shape.
pub trait TypeInfo {
    /// The identity of the type: one value per type, wherever it is asked for.
    spec fn spec_type_id() -> TypeId;

    /// The identity of the type. It may be another type's identity, so that
    /// two types that should compact to one descriptor do so.
    fn type_id() -> (r: TypeId)
        ensures
            r == Self::spec_type_id(),
    ;

    /// The expanded descriptor of the type.
    fn type_info() -> Type<MetaType>;
}

/// The handle of a type that implements [`TypeInfo`].
pub fn meta_type<T: TypeInfo>() -> (r: MetaType)
    ensures
        r.id == T::spec_type_id(),
{
    MetaType::new(T::type_id())
}

} // verus!
