use scale_info::{
    anonymous_type_info, box_type_info, btree_map_type_info, option_type_info, primitive_type_info,
    result_type_info, MetaType, Registry, Type, TypeDef, TypeDefPrimitive, TypeId,
};

fn handle(id: u32) -> MetaType {
    MetaType::new(TypeId(id))
}

fn segments(ty: &Type<MetaType>) -> Vec<String> {
    ty.path.segments.clone()
}

#[test]
fn option_descriptor() {
    let ty = option_type_info(handle(5));
    assert_eq!(segments(&ty), vec!["Option".to_string()]);
    assert_eq!(ty.type_params, vec![handle(5)]);
    match &ty.type_def {
        TypeDef::Variant(v) => {
            assert_eq!(v.variants.len(), 2);
            assert_eq!(v.variants[0].name, "None");
            assert!(v.variants[0].fields.is_empty());
            assert_eq!(v.variants[1].name, "Some");
            assert_eq!(v.variants[1].fields.len(), 1);
            assert_eq!(v.variants[1].fields[0].name, None);
            assert_eq!(v.variants[1].fields[0].ty, handle(5));
            assert_eq!(v.variants[1].fields[0].ty_name, Some("T".to_string()));
        }
        _ => panic!("not a variant"),
    }
}

#[test]
fn result_descriptor() {
    let ty = result_type_info(handle(1), handle(2));
    assert_eq!(segments(&ty), vec!["Result".to_string()]);
    assert_eq!(ty.type_params, vec![handle(1), handle(2)]);
    match &ty.type_def {
        TypeDef::Variant(v) => {
            assert_eq!(v.variants[0].name, "Ok");
            assert_eq!(v.variants[0].fields[0].ty, handle(1));
            assert_eq!(v.variants[1].name, "Err");
            assert_eq!(v.variants[1].fields[0].ty, handle(2));
            assert_eq!(v.variants[1].fields[0].ty_name, Some("E".to_string()));
        }
        _ => panic!("not a variant"),
    }
}

#[test]
fn btree_map_and_box_descriptors() {
    let map = btree_map_type_info(handle(3), handle(4));
    assert_eq!(segments(&map), vec!["BTreeMap".to_string()]);
    assert_eq!(map.type_params, vec![handle(3)]);
    match &map.type_def {
        TypeDef::Composite(c) => {
            assert_eq!(c.fields().len(), 1);
            assert_eq!(c.fields()[0].ty, handle(4));
            assert_eq!(c.fields()[0].ty_name, Some("[(K, V)]".to_string()));
        }
        _ => panic!("not a composite"),
    }
    let boxed = box_type_info(handle(9));
    assert_eq!(segments(&boxed), vec!["Box".to_string()]);
    match &boxed.type_def {
        TypeDef::Composite(c) => assert_eq!(c.fields()[0].ty, handle(9)),
        _ => panic!("not a composite"),
    }
}

#[test]
fn primitive_and_anonymous_descriptors() {
    let ty = primitive_type_info(TypeDefPrimitive::Str);
    assert!(ty.path.segments.is_empty());
    assert!(ty.type_params.is_empty());
    assert_eq!(ty.type_def, TypeDef::Primitive(TypeDefPrimitive::Str));
    let seq = anonymous_type_info(TypeDef::Sequence(handle(2)));
    assert_eq!(seq.type_def, TypeDef::Sequence(handle(2)));
}

#[test]
fn registering_option_of_bool() {
    // 1: Option<bool>, 2: bool
    let describe = |id: TypeId| match id.0 {
        1 => option_type_info(handle(2)),
        _ => primitive_type_info(TypeDefPrimitive::Bool),
    };
    let mut reg = Registry::new();
    assert_eq!(reg.register(&handle(1), &describe), 1);
    assert_eq!(reg.len(), 2);
    let table = reg.into_portable();
    let opt = table.resolve(1).unwrap();
    assert_eq!(opt.type_params, vec![2]);
    match &opt.type_def {
        TypeDef::Variant(v) => assert_eq!(v.variants[1].fields[0].ty, 2),
        _ => panic!("not a variant"),
    }
}
