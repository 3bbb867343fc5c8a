use strict_types::layout::memory::LAYOUT_MAX;
use strict_types::{Branch, MemoryLayout, PrimitiveClass, SizeHint, TypeInfo, TypeTree};

fn leaf(class: PrimitiveClass, bytes: u64) -> TypeTree {
    TypeTree::Leaf { class, size: SizeHint { min: bytes, max: bytes } }
}

fn branch(label: &str, tree: TypeTree) -> Branch {
    Branch { label: label.to_string(), tree }
}

fn paths(layout: &MemoryLayout) -> Vec<Vec<String>> {
    layout.items().iter().map(|i| i.path.clone()).collect()
}

fn path(labels: &[&str]) -> Vec<String> {
    labels.iter().map(|s| s.to_string()).collect()
}

#[test]
fn struct_with_nested_struct() {
    let tree = TypeTree::Struct {
        fields: vec![
            branch("x", leaf(PrimitiveClass::Unsigned, 1)),
            branch(
                "y",
                TypeTree::Struct { fields: vec![branch("inner", leaf(PrimitiveClass::Boolean, 1))] },
            ),
        ],
    };
    let layout = MemoryLayout::from(&tree);
    assert_eq!(layout.len(), 2);
    assert_eq!(
        layout.items(),
        &vec![
            TypeInfo {
                path: path(&["x"]),
                class: PrimitiveClass::Unsigned,
                size: SizeHint { min: 1, max: 1 },
            },
            TypeInfo {
                path: path(&["y", "inner"]),
                class: PrimitiveClass::Boolean,
                size: SizeHint { min: 1, max: 1 },
            },
        ]
    );
}

#[test]
fn a_leaf_is_its_own_layout() {
    let layout = MemoryLayout::from(&leaf(PrimitiveClass::Signed, 4));
    assert_eq!(layout.len(), 1);
    assert_eq!(layout.items()[0].path, Vec::<String>::new());
    assert_eq!(layout.items()[0].class, PrimitiveClass::Signed);
    assert_eq!(layout.items()[0].size, SizeHint { min: 4, max: 4 });
}

#[test]
fn fields_keep_their_declared_order() {
    let tree = TypeTree::Struct {
        fields: vec![
            branch("c", leaf(PrimitiveClass::Unsigned, 1)),
            branch("a", leaf(PrimitiveClass::Unsigned, 2)),
            branch("b", leaf(PrimitiveClass::Unsigned, 4)),
        ],
    };
    let layout = MemoryLayout::from(&tree);
    assert_eq!(paths(&layout), vec![path(&["c"]), path(&["a"]), path(&["b"])]);
    let sizes: Vec<u64> = layout.items().iter().map(|i| i.size.max).collect();
    assert_eq!(sizes, vec![1, 2, 4]);
}

#[test]
fn variants_keep_their_declared_order() {
    let tree = TypeTree::Enum {
        variants: vec![
            branch("some", leaf(PrimitiveClass::Unsigned, 8)),
            branch("none", leaf(PrimitiveClass::Unit, 0)),
            branch(
                "both",
                TypeTree::Struct {
                    fields: vec![
                        branch("left", leaf(PrimitiveClass::Character, 1)),
                        branch("right", leaf(PrimitiveClass::Bytes, 32)),
                    ],
                },
            ),
        ],
    };
    let layout = MemoryLayout::from(&tree);
    assert_eq!(
        paths(&layout),
        vec![
            path(&["some"]),
            path(&["none"]),
            path(&["both", "left"]),
            path(&["both", "right"]),
        ]
    );
    let classes: Vec<PrimitiveClass> = layout.items().iter().map(|i| i.class).collect();
    assert_eq!(
        classes,
        vec![
            PrimitiveClass::Unsigned,
            PrimitiveClass::Unit,
            PrimitiveClass::Character,
            PrimitiveClass::Bytes,
        ]
    );
}

#[test]
fn a_collection_is_one_slot() {
    let element = TypeTree::Struct {
        fields: vec![
            branch("key", leaf(PrimitiveClass::Unsigned, 2)),
            branch("value", leaf(PrimitiveClass::Bytes, 32)),
        ],
    };
    let tree = TypeTree::Struct {
        fields: vec![
            branch("count", leaf(PrimitiveClass::Unsigned, 2)),
            branch(
                "entries",
                TypeTree::Collection { element: Box::new(element), size: SizeHint { min: 0, max: 65535 } },
            ),
            branch("flag", leaf(PrimitiveClass::Boolean, 1)),
        ],
    };
    let layout = MemoryLayout::from(&tree);
    assert_eq!(layout.len(), 3);
    assert_eq!(paths(&layout), vec![path(&["count"]), path(&["entries"]), path(&["flag"])]);
    assert_eq!(layout.items()[1].class, PrimitiveClass::Collection);
    assert_eq!(layout.items()[1].size, SizeHint { min: 0, max: 65535 });
}

#[test]
fn a_collection_of_collections_is_one_slot() {
    let inner = TypeTree::Collection {
        element: Box::new(leaf(PrimitiveClass::Unsigned, 1)),
        size: SizeHint { min: 0, max: 255 },
    };
    let tree = TypeTree::Collection { element: Box::new(inner), size: SizeHint { min: 1, max: 8 } };
    let layout = MemoryLayout::from(&tree);
    assert_eq!(layout.len(), 1);
    assert_eq!(layout.items()[0].size, SizeHint { min: 1, max: 8 });
    assert_eq!(tree.count_slots(10), Some(1));
}

#[test]
fn composites_without_parts_have_no_slots() {
    let layout = MemoryLayout::from(&TypeTree::Struct { fields: vec![] });
    assert_eq!(layout.len(), 0);
    assert!(layout.items().is_empty());
    let tree = TypeTree::Struct {
        fields: vec![
            branch("empty", TypeTree::Enum { variants: vec![] }),
            branch("x", leaf(PrimitiveClass::Unsigned, 1)),
        ],
    };
    assert_eq!(paths(&MemoryLayout::from(&tree)), vec![path(&["x"])]);
}

fn deep(depth: usize) -> TypeTree {
    let mut tree = leaf(PrimitiveClass::Boolean, 1);
    for level in 0..depth {
        tree = TypeTree::Struct {
            fields: vec![
                branch("tag", leaf(PrimitiveClass::Unsigned, 1)),
                branch(&format!("level{}", level), tree),
            ],
        };
    }
    tree
}

#[test]
fn the_number_of_slots_is_the_number_of_leaves() {
    for depth in [0usize, 1, 2, 5, 40] {
        let tree = deep(depth);
        let layout = MemoryLayout::from(&tree);
        assert_eq!(layout.len(), depth + 1);
        assert_eq!(tree.count_slots(LAYOUT_MAX), Some(depth + 1));
        let last = &layout.items()[depth];
        assert_eq!(last.path.len(), depth);
        assert_eq!(last.class, PrimitiveClass::Boolean);
        if depth > 0 {
            assert_eq!(layout.items()[0].path, path(&["tag"]));
            assert_eq!(last.path[0], format!("level{}", depth - 1));
            assert_eq!(last.path[depth - 1], "level0");
        }
    }
}

#[test]
fn counting_stops_at_the_cap() {
    let tree = deep(5);
    assert_eq!(tree.count_slots(6), Some(6));
    assert_eq!(tree.count_slots(5), None);
    assert_eq!(tree.count_slots(0), None);
    assert_eq!(leaf(PrimitiveClass::Unit, 0).count_slots(0), None);
    assert_eq!(leaf(PrimitiveClass::Unit, 0).count_slots(1), Some(1));
    assert_eq!(TypeTree::Struct { fields: vec![] }.count_slots(0), Some(0));
}

#[test]
fn try_from_tree_agrees_with_from() {
    let tree = deep(3);
    let layout = MemoryLayout::try_from_tree(&tree).expect("four slots fit");
    assert_eq!(layout, MemoryLayout::from(&tree));
    assert_eq!(layout.len(), 4);
}

#[test]
fn laying_out_twice_gives_the_same_layout() {
    let tree = deep(7);
    assert_eq!(MemoryLayout::from(&tree), MemoryLayout::from(&tree));
}
