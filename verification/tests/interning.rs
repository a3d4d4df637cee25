use tolac::{PathIdx, PathMap, StringIdx, StringMap, Type, TypeIdx, TypeMap};

#[test]
fn equal_strings_get_one_index() {
    let mut strings = StringMap::new();
    let a = strings.insert("alpha");
    let b = strings.insert("beta");
    let again = strings.insert(&String::from("alpha"));
    assert_eq!(a, StringIdx(0));
    assert_eq!(b, StringIdx(1));
    assert_eq!(a, again);
    assert_ne!(a, b);
    assert_eq!(strings.len(), 2);
    assert_eq!(strings.get(a), "alpha");
    assert_eq!(strings.get(b), "beta");
}

#[test]
fn text_of_an_unknown_index_is_empty() {
    let mut strings = StringMap::new();
    let a = strings.insert("alpha");
    assert_eq!(strings.text(a), "alpha");
    assert_eq!(strings.text(StringIdx(7)), "");
    assert_eq!(strings.find("alpha"), Some(a));
    assert_eq!(strings.find("gamma"), None);
}

#[test]
fn equal_paths_get_one_index() {
    let mut paths = PathMap::new();
    let root = paths.insert(&[]);
    let ab = paths.insert(&[StringIdx(0), StringIdx(1)]);
    let a = paths.insert(&[StringIdx(0)]);
    let ab_again = paths.insert(&vec![StringIdx(0), StringIdx(1)]);
    assert_eq!(root, PathIdx(0));
    assert_eq!(ab, PathIdx(1));
    assert_eq!(a, PathIdx(2));
    assert_eq!(ab, ab_again);
    assert_eq!(paths.len(), 3);
    assert_eq!(paths.get(ab), &[StringIdx(0), StringIdx(1)]);
    assert_eq!(paths.get(root).len(), 0);
    assert_eq!(paths.segments(PathIdx(9)), Vec::<StringIdx>::new());
}

#[test]
fn equal_types_get_one_index() {
    let mut types = TypeMap::new();
    let unknown = types.insert(Type::Unknown);
    let byte = types.insert(Type::U8);
    let pointer = types.insert(Type::Pointer(true, byte));
    let other = types.insert(Type::Pointer(false, byte));
    let pointer_again = types.insert(Type::Pointer(true, TypeIdx(1)));
    assert_eq!(unknown, TypeIdx(0));
    assert_eq!(byte, TypeIdx(1));
    assert_eq!(pointer, pointer_again);
    assert_ne!(pointer, other);
    assert_eq!(types.len(), 4);
    assert_eq!(*types.get(pointer), Type::Pointer(true, byte));
    assert_eq!(types.lookup(TypeIdx(40)), Type::Unknown);
}
