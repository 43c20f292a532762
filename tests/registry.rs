use scale_info::{
    meta_type, Field, Interner, MetaType, Path, PortableRegistry, Registry, Type, TypeComposite,
    TypeDef, TypeDefPrimitive, TypeDefVariant, TypeId, TypeInfo, Variant, INDEX_BASE,
};

const NODE: u32 = 10;
const A: u32 = 20;
const B: u32 = 30;
const C: u32 = 40;
const D: u32 = 50;
const LIST: u32 = 60;

fn path(name: &str) -> Path {
    Path { segments: vec!["demo".to_string(), name.to_string()] }
}

fn handle(id: u32) -> MetaType {
    MetaType::new(TypeId(id))
}

fn named(name: &str, id: u32) -> Field<MetaType> {
    Field { name: Some(name.to_string()), ty: handle(id), ty_name: None, docs: Vec::new() }
}

fn composite(name: &str, fields: Vec<Field<MetaType>>) -> Type<MetaType> {
    Type { path: path(name), type_params: Vec::new(), type_def: TypeDef::Composite(TypeComposite::new(fields)) }
}

fn primitive(name: &str, prim: TypeDefPrimitive) -> Type<MetaType> {
    Type { path: path(name), type_params: Vec::new(), type_def: TypeDef::Primitive(prim) }
}

/// A small universe: B is a leaf, A has a field of B, NODE links to itself,
/// C and D are leaves of one shape, LIST is an enum that refers to NODE and itself.
fn describe(id: TypeId) -> Type<MetaType> {
    match id.0 {
        NODE => composite("Node", vec![named("value", B), named("next", NODE)]),
        A => composite("A", vec![named("b", B)]),
        C => primitive("Same", TypeDefPrimitive::U32),
        D => primitive("Same", TypeDefPrimitive::U32),
        LIST => Type {
            path: path("List"),
            type_params: vec![handle(NODE)],
            type_def: TypeDef::Variant(TypeDefVariant {
                variants: vec![
                    Variant { name: "Nil".to_string(), fields: Vec::new(), discriminant: Some(0) },
                    Variant {
                        name: "Cons".to_string(),
                        fields: vec![
                            Field { name: None, ty: handle(NODE), ty_name: Some("Node".to_string()), docs: Vec::new() },
                            Field { name: None, ty: handle(LIST), ty_name: None, docs: vec!["rest".to_string()] },
                        ],
                        discriminant: None,
                    },
                ],
            }),
        },
        _ => primitive("B", TypeDefPrimitive::Bool),
    }
}

fn composite_field_indices(ty: &Type<u64>) -> Vec<u64> {
    match &ty.type_def {
        TypeDef::Composite(c) => c.fields().iter().map(|f| f.ty).collect(),
        _ => panic!("not a composite"),
    }
}

fn snapshot(reg: Registry) -> PortableRegistry {
    reg.into_portable()
}

#[test]
fn dependency_order_leaf_first() {
    let mut reg = Registry::new();
    let b = reg.register(&handle(B), &describe);
    assert_eq!(b, 1);
    let a = reg.register(&handle(A), &describe);
    assert_eq!(a, 2);
    assert_eq!(reg.len(), 2);
    let table = snapshot(reg);
    assert_eq!(table.len(), 2);
    assert_eq!(composite_field_indices(table.resolve(2).unwrap()), vec![1]);
}

#[test]
fn dependency_order_outer_first() {
    let mut reg = Registry::new();
    let a = reg.register(&handle(A), &describe);
    assert_eq!(a, 1);
    assert_eq!(reg.len(), 2);
    let b = reg.register(&handle(B), &describe);
    assert_eq!(b, 2);
    assert_eq!(reg.len(), 2);
    let table = snapshot(reg);
    assert_eq!(composite_field_indices(table.resolve(1).unwrap()), vec![2]);
    assert_eq!(table.resolve(2).unwrap().type_def, TypeDef::Primitive(TypeDefPrimitive::Bool));
}

#[test]
fn self_reference_resolves_to_own_index() {
    let mut reg = Registry::new();
    reg.register(&handle(B), &describe);
    let node = reg.register(&handle(NODE), &describe);
    assert_eq!(node, 2);
    assert_eq!(reg.len(), 2);
    let table = snapshot(reg);
    assert_eq!(composite_field_indices(table.resolve(2).unwrap()), vec![1, 2]);
}

#[test]
fn self_reference_alone_adds_one_entry() {
    let mut reg = Registry::new();
    let node = reg.register(&handle(NODE), &describe);
    assert_eq!(node, 1);
    // NODE first, then the B its first field names.
    assert_eq!(reg.len(), 2);
    let table = snapshot(reg);
    assert_eq!(composite_field_indices(table.resolve(1).unwrap()), vec![2, 1]);
}

#[test]
fn repeat_registration_same_index() {
    let mut reg = Registry::new();
    let first = reg.register(&handle(B), &describe);
    let second = reg.register(&handle(B), &describe);
    let third = reg.register(&handle(B), &describe);
    assert_eq!(first, 1);
    assert_eq!(second, 1);
    assert_eq!(third, 1);
    assert_eq!(reg.len(), 1);
}

#[test]
fn equal_identity_handles_share_index() {
    let mut reg = Registry::new();
    let h1 = handle(A);
    let h2 = MetaType::new(TypeId(A));
    let i1 = reg.register(&h1, &describe);
    let len = reg.len();
    let i2 = reg.register(&h2, &describe);
    assert_eq!(i1, i2);
    assert_eq!(reg.len(), len);
}

#[test]
fn producer_runs_once_per_identity() {
    let calls = std::cell::Cell::new(0u32);
    let counting = |id: TypeId| {
        calls.set(calls.get() + 1);
        describe(id)
    };
    let mut reg = Registry::new();
    reg.register(&handle(NODE), &counting);
    reg.register(&handle(NODE), &counting);
    reg.register(&handle(B), &counting);
    assert_eq!(calls.get(), 2);
}

#[test]
fn structurally_equal_types_stay_distinct() {
    let mut reg = Registry::new();
    let c = reg.register(&handle(C), &describe);
    let d = reg.register(&handle(D), &describe);
    assert_ne!(c, d);
    assert_eq!(reg.len(), 2);
    let table = snapshot(reg);
    assert_eq!(table.resolve(c).unwrap(), table.resolve(d).unwrap());
}

#[test]
fn indices_follow_first_registration() {
    let mut reg = Registry::new();
    assert_eq!(reg.register(&handle(C), &describe), INDEX_BASE);
    assert_eq!(reg.register(&handle(D), &describe), INDEX_BASE + 1);
    assert_eq!(reg.register(&handle(B), &describe), INDEX_BASE + 2);
    assert_eq!(reg.register(&handle(C), &describe), INDEX_BASE);
    let table = snapshot(reg);
    let ids: Vec<u64> = table.types().iter().map(|t| t.id).collect();
    assert_eq!(ids, vec![1, 2, 3]);
}

#[test]
fn snapshot_unchanged_by_other_registry() {
    let mut reg = Registry::new();
    reg.register(&handle(A), &describe);
    let table = snapshot(reg);
    let before: Vec<(u64, Type<u64>)> = table.types().iter().map(|t| (t.id, t.ty.clone())).collect();
    let mut other = Registry::new();
    other.register(&handle(NODE), &describe);
    other.register(&handle(LIST), &describe);
    let after: Vec<(u64, Type<u64>)> = table.types().iter().map(|t| (t.id, t.ty.clone())).collect();
    assert_eq!(before, after);
    assert_eq!(table.len(), 2);
}

#[test]
fn variants_and_type_params_compact() {
    let mut reg = Registry::new();
    let list = reg.register(&handle(LIST), &describe);
    assert_eq!(list, 1);
    // LIST, then NODE (type parameter), then B (NODE's first field).
    assert_eq!(reg.len(), 3);
    let table = snapshot(reg);
    let ty = table.resolve(1).unwrap();
    assert_eq!(ty.type_params, vec![2]);
    assert_eq!(ty.path, path("List"));
    match &ty.type_def {
        TypeDef::Variant(v) => {
            assert_eq!(v.variants.len(), 2);
            assert_eq!(v.variants[0].name, "Nil");
            assert_eq!(v.variants[0].discriminant, Some(0));
            let cons = &v.variants[1];
            assert_eq!(cons.fields[0].ty, 2);
            assert_eq!(cons.fields[0].ty_name, Some("Node".to_string()));
            assert_eq!(cons.fields[1].ty, 1);
            assert_eq!(cons.fields[1].docs, vec!["rest".to_string()]);
        }
        _ => panic!("not a variant"),
    }
    assert_eq!(composite_field_indices(table.resolve(2).unwrap()), vec![3, 2]);
    assert!(table.resolve(0).is_none());
    assert!(table.resolve(4).is_none());
}

#[test]
fn sequence_array_tuple_compact_phantom() {
    let kinds = |id: TypeId| -> Type<MetaType> {
        let def = match id.0 {
            1 => TypeDef::Sequence(handle(B)),
            2 => TypeDef::Array(32, handle(B)),
            3 => TypeDef::Tuple(vec![handle(1), handle(B), handle(2)]),
            4 => TypeDef::Compact(handle(B)),
            5 => TypeDef::Phantom(handle(4)),
            _ => TypeDef::Primitive(TypeDefPrimitive::U8),
        };
        Type { path: Path { segments: Vec::new() }, type_params: Vec::new(), type_def: def }
    };
    let mut reg = Registry::new();
    assert_eq!(reg.register(&handle(5), &kinds), 1);
    assert_eq!(reg.register(&handle(3), &kinds), 4);
    let table = snapshot(reg);
    assert_eq!(table.len(), 6);
    assert_eq!(table.resolve(1).unwrap().type_def, TypeDef::Phantom(2));
    assert_eq!(table.resolve(2).unwrap().type_def, TypeDef::Compact(3));
    assert_eq!(table.resolve(3).unwrap().type_def, TypeDef::Primitive(TypeDefPrimitive::U8));
    assert_eq!(table.resolve(4).unwrap().type_def, TypeDef::Tuple(vec![5, 3, 6]));
    assert_eq!(table.resolve(5).unwrap().type_def, TypeDef::Sequence(3));
    assert_eq!(table.resolve(6).unwrap().type_def, TypeDef::Array(32, 3));
}

#[test]
fn interner_assigns_sequential_indices() {
    let mut interner = Interner::new();
    assert_eq!(interner.intern_or_get(TypeId(7)), (true, 1));
    assert_eq!(interner.intern_or_get(TypeId(3)), (true, 2));
    assert_eq!(interner.intern_or_get(TypeId(7)), (false, 1));
    assert_eq!(interner.len(), 2);
    assert_eq!(interner.get(TypeId(3)), Some(2));
    assert_eq!(interner.get(TypeId(9)), None);
    assert_eq!(interner.resolve(1), Some(TypeId(7)));
    assert_eq!(interner.resolve(0), None);
    assert_eq!(interner.resolve(3), None);
}

#[test]
fn composite_new_and_unit() {
    let unit: TypeComposite<MetaType> = TypeComposite::unit();
    assert!(unit.fields().is_empty());
    let c = TypeComposite::new(vec![named("x", B), named("y", C)]);
    assert_eq!(c.fields().len(), 2);
    assert_eq!(c.fields()[1].name, Some("y".to_string()));
    assert_eq!(c.into_fields()[0].ty, handle(B));
}

struct Celsius;

impl TypeInfo for Celsius {
    fn spec_type_id() -> TypeId {
        TypeId(77)
    }
    fn type_id() -> TypeId {
        TypeId(77)
    }
    fn type_info() -> Type<MetaType> {
        primitive("Celsius", TypeDefPrimitive::I16)
    }
}

#[test]
fn meta_type_carries_identity() {
    let h = meta_type::<Celsius>();
    assert_eq!(h.type_id(), TypeId(77));
    assert_eq!(meta_type::<Celsius>(), h);
    let mut reg = Registry::new();
    let i = reg.register(&h, &|_id: TypeId| Celsius::type_info());
    assert_eq!(i, 1);
    let table = snapshot(reg);
    assert_eq!(table.resolve(1).unwrap().path, path("Celsius"));
}
