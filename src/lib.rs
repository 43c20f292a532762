//! A registry that collects type descriptions into a deduplicated table in
//! which every reference to another type is a plain index.
pub mod form;
pub mod impls;
pub mod interner;
pub mod meta_type;
pub mod registry;
pub mod ty;

pub use impls::{
    anonymous_type_info, box_type_info, btree_map_type_info, option_type_info, primitive_type_info,
    result_type_info,
};
pub use interner::{Interner, INDEX_BASE};
pub use meta_type::{meta_type, MetaType, TypeId, TypeInfo};
pub use registry::{PortableRegistry, PortableType, Registry};
pub use ty::{Field, Path, Type, TypeComposite, TypeDef, TypeDefPrimitive, TypeDefVariant, Variant};
