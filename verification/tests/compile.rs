use strict_types::canon::sem_id_of;
use strict_types::stl::std_stl;
use strict_types::{
    Dependency, Field, LibBuilder, Sizing, SymbolRef, TranspileError, TypeExpr, TypeLib, TypeLibId,
    TypeSymbol, Variant,
};

fn symbol(name: &str, definition: TypeExpr) -> TypeSymbol {
    TypeSymbol { name: name.to_string(), definition }
}

fn field(name: &str, ty: &str) -> Field {
    Field { name: name.to_string(), ty: SymbolRef::local(ty) }
}

fn variant(name: &str, tag: u8) -> Variant {
    Variant { name: name.to_string(), tag }
}

fn byte() -> TypeSymbol {
    symbol("Byte", TypeExpr::Primitive(1))
}

fn pair() -> TypeSymbol {
    symbol("Pair", TypeExpr::Struct(vec![field("x", "Byte"), field("y", "Byte")]))
}

fn bytes() -> TypeSymbol {
    symbol("Bytes", TypeExpr::Collection(SymbolRef::local("Byte"), Sizing { min: 0, max: 255 }))
}

fn color() -> TypeSymbol {
    symbol("Color", TypeExpr::Enum(vec![variant("red", 0), variant("green", 1), variant("blue", 2)]))
}

fn plain() -> TypeLib {
    LibBuilder::with("Plain", vec![])
        .transpile(byte())
        .transpile(pair())
        .transpile(bytes())
        .transpile(color())
        .compile()
        .unwrap()
}

fn id_of(symbols: Vec<TypeSymbol>) -> String {
    let mut b = LibBuilder::with("Lib", vec![]);
    for s in symbols {
        b = b.transpile(s);
    }
    b.compile().unwrap().id().to_string()
}

#[test]
fn identity_of_a_library_without_dependencies() {
    let lib = plain();
    assert_eq!(
        lib.id().to_string(),
        "stl:HMXIeFI4-u5swdS0-Hym2pJU-HJaEfZ_-q4cqr1p-5U13leg#cipher-target-pelican"
    );
    assert_eq!(lib.name(), "Plain");
    assert_eq!(lib.as_symbolic().type_names(), vec!["Byte", "Bytes", "Color", "Pair"]);
}

#[test]
fn digest_of_a_primitive_symbol() {
    let id = sem_id_of(&"Byte".to_string(), &TypeExpr::Primitive(1));
    let hex: String = id.iter().map(|b| format!("{:02x}", b)).collect();
    assert_eq!(hex, "0b1f01e5f32c17d56b0b4c29bbd8358dd7a5a923a4a87f756d5ea4db7fde6bfd");
}

#[test]
fn single_symbol_library_with_a_dependency() {
    let std = std_stl();
    let lib = LibBuilder::with("Test", vec![std.to_dependency_types()])
        .transpile(symbol("Flag", TypeExpr::Reference(SymbolRef::local("Bool"))))
        .compile()
        .unwrap();
    assert_eq!(
        lib.id().to_string(),
        "stl:DDHLZZdz-dt57pCf-bfvxueb-vrNn43s-guzcT49-maM1TNM#needle-acrobat-rodeo"
    );
    let deps = lib.as_symbolic().dependencies();
    assert_eq!(deps.len(), 1);
    assert_eq!(deps[0].id, std.id());
    assert_eq!(
        lib.as_symbolic().get("Flag"),
        Some(&TypeExpr::Reference(SymbolRef {
            lib_name: Some("Std".to_string()),
            name: "Bool".to_string(),
            resolved_id: Some(std.id()),
        }))
    );
}

#[test]
fn the_order_of_builder_calls_does_not_matter() {
    let one = id_of(vec![byte(), pair(), bytes(), color()]);
    let two = id_of(vec![color(), bytes(), pair(), byte()]);
    let three = id_of(vec![pair(), color(), byte(), bytes()]);
    assert_eq!(one, two);
    assert_eq!(one, three);
    let a = LibBuilder::with("Lib", vec![]).transpile(byte()).transpile(pair()).compile_symbols();
    let b = LibBuilder::with("Lib", vec![]).transpile(pair()).transpile(byte()).compile_symbols();
    assert_eq!(a, b);
}

#[test]
fn the_order_of_dependencies_does_not_matter() {
    let d1 = Dependency {
        name: "One".to_string(),
        id: TypeLibId::from_byte_array([1; 32]),
        types: vec!["A".to_string()],
    };
    let d2 = Dependency {
        name: "Two".to_string(),
        id: TypeLibId::from_byte_array([2; 32]),
        types: vec!["B".to_string()],
    };
    let a = LibBuilder::with("Lib", vec![d1.clone(), d2.clone()]).transpile(byte()).compile().unwrap();
    let b = LibBuilder::with("Lib", vec![d2, d1]).transpile(byte()).compile().unwrap();
    assert_eq!(a.id(), b.id());
    assert_eq!(a, b);
    let names: Vec<&str> = a.as_symbolic().dependencies().iter().map(|d| d.name.as_str()).collect();
    assert_eq!(names, vec!["One", "Two"]);
}

#[test]
fn compiling_twice_gives_the_same_identity() {
    assert_eq!(plain().id().to_string(), plain().id().to_string());
    assert_eq!(plain(), plain());
}

#[test]
fn a_compiled_library_compiles_to_itself() {
    let lib = plain();
    let again = lib.as_symbolic().clone().compile().unwrap();
    assert_eq!(again, lib);
}

#[test]
fn the_identity_tells_content_apart() {
    let base = id_of(vec![byte(), pair(), color()]);
    let renamed_field = id_of(vec![
        byte(),
        symbol("Pair", TypeExpr::Struct(vec![field("x", "Byte"), field("z", "Byte")])),
        color(),
    ]);
    let swapped_fields = id_of(vec![
        byte(),
        symbol("Pair", TypeExpr::Struct(vec![field("y", "Byte"), field("x", "Byte")])),
        color(),
    ]);
    let swapped_variants = id_of(vec![
        byte(),
        pair(),
        symbol(
            "Color",
            TypeExpr::Enum(vec![variant("green", 1), variant("red", 0), variant("blue", 2)]),
        ),
    ]);
    let other_tag = id_of(vec![
        byte(),
        pair(),
        symbol("Color", TypeExpr::Enum(vec![variant("red", 0), variant("green", 1), variant("blue", 3)])),
    ]);
    let other_code = id_of(vec![symbol("Byte", TypeExpr::Primitive(2)), pair(), color()]);
    let renamed_type = id_of(vec![byte(), pair(), symbol("Colour", color().definition)]);
    let all = [
        base,
        renamed_field,
        swapped_fields,
        swapped_variants,
        other_tag,
        other_code,
        renamed_type,
    ];
    for i in 0..all.len() {
        for j in 0..i {
            assert_ne!(all[i], all[j], "{} and {}", i, j);
        }
    }
}

#[test]
fn the_identity_tells_library_names_and_sizes_apart() {
    let a = LibBuilder::with("One", vec![]).transpile(bytes()).transpile(byte()).compile().unwrap();
    let b = LibBuilder::with("Two", vec![]).transpile(bytes()).transpile(byte()).compile().unwrap();
    let c = LibBuilder::with("One", vec![])
        .transpile(symbol(
            "Bytes",
            TypeExpr::Collection(SymbolRef::local("Byte"), Sizing { min: 1, max: 255 }),
        ))
        .transpile(byte())
        .compile()
        .unwrap();
    assert_ne!(a.id(), b.id());
    assert_ne!(a.id(), c.id());
    assert_ne!(b.id(), c.id());
}

fn dependency(name: &str, id: u8, types: &[&str]) -> Dependency {
    Dependency {
        name: name.to_string(),
        id: TypeLibId::from_byte_array([id; 32]),
        types: types.iter().map(|t| t.to_string()).collect(),
    }
}

#[test]
fn the_identity_of_a_dependency_is_part_of_the_identity() {
    let user = || symbol("User", TypeExpr::Reference(SymbolRef::external("Dep", "Thing")));
    let a = LibBuilder::with("Lib", vec![dependency("Dep", 1, &["Thing"])])
        .transpile(user())
        .compile()
        .unwrap();
    let b = LibBuilder::with("Lib", vec![dependency("Dep", 2, &["Thing"])])
        .transpile(user())
        .compile()
        .unwrap();
    assert_ne!(a.id(), b.id());
    assert_ne!(a.id().to_string(), b.id().to_string());
}

#[test]
fn a_reference_to_an_undeclared_symbol_fails() {
    let holder = || symbol("Holder", TypeExpr::Struct(vec![field("inner", "Missing")]));
    let failed = LibBuilder::with("Lib", vec![]).transpile(holder()).transpile(byte()).compile();
    assert_eq!(
        failed,
        Err(TranspileError::UnresolvedReference {
            symbol: "Missing".to_string(),
            referrer: "Holder".to_string(),
        })
    );
    let failed = LibBuilder::with("Lib", vec![]).transpile(holder()).compile_symbols();
    assert_eq!(
        failed,
        Err(TranspileError::UnresolvedReference {
            symbol: "Missing".to_string(),
            referrer: "Holder".to_string(),
        })
    );
    let mended = LibBuilder::with("Lib", vec![])
        .transpile(holder())
        .transpile(symbol("Missing", TypeExpr::Primitive(7)))
        .compile();
    assert!(mended.is_ok());
    let mended = LibBuilder::with("Lib", vec![dependency("Other", 9, &["Missing"])])
        .transpile(holder())
        .compile()
        .unwrap();
    assert_eq!(
        mended.as_symbolic().get("Holder"),
        Some(&TypeExpr::Struct(vec![Field {
            name: "inner".to_string(),
            ty: SymbolRef {
                lib_name: Some("Other".to_string()),
                name: "Missing".to_string(),
                resolved_id: Some(TypeLibId::from_byte_array([9; 32])),
            },
        }]))
    );
}

#[test]
fn the_first_unresolved_reference_is_reported() {
    let failed = LibBuilder::with("Lib", vec![])
        .transpile(symbol("Zed", TypeExpr::Reference(SymbolRef::local("Nowhere"))))
        .transpile(symbol(
            "Abc",
            TypeExpr::Struct(vec![field("a", "Byte"), field("b", "Gone"), field("c", "Lost")]),
        ))
        .transpile(byte())
        .compile();
    assert_eq!(
        failed,
        Err(TranspileError::UnresolvedReference {
            symbol: "Gone".to_string(),
            referrer: "Abc".to_string(),
        })
    );
}

#[test]
fn a_reference_into_an_undeclared_library_fails() {
    let failed = LibBuilder::with("Lib", vec![dependency("Dep", 1, &["Thing"])])
        .transpile(symbol("User", TypeExpr::Reference(SymbolRef::external("Other", "Thing"))))
        .compile();
    assert_eq!(
        failed,
        Err(TranspileError::UnresolvedReference {
            symbol: "Thing".to_string(),
            referrer: "User".to_string(),
        })
    );
}

#[test]
fn a_library_depending_on_another() {
    let b = LibBuilder::with("B", vec![]).transpile(symbol("Item", TypeExpr::Primitive(3))).compile().unwrap();
    let user = || {
        symbol(
            "Basket",
            TypeExpr::Collection(SymbolRef::external("B", "Item"), Sizing { min: 0, max: 16 }),
        )
    };
    let a = LibBuilder::with("A", vec![b.to_dependency_types()]).transpile(user()).compile().unwrap();
    let ids: Vec<TypeLibId> = a.as_symbolic().dependencies().iter().map(|d| d.id).collect();
    assert_eq!(ids, vec![b.id()]);

    let renamed =
        LibBuilder::with("B", vec![]).transpile(symbol("Thing", TypeExpr::Primitive(3))).compile().unwrap();
    assert_ne!(renamed.id(), b.id());
    let failed = LibBuilder::with("A", vec![renamed.to_dependency_types()]).transpile(user()).compile();
    assert_eq!(
        failed,
        Err(TranspileError::UnresolvedReference {
            symbol: "Item".to_string(),
            referrer: "Basket".to_string(),
        })
    );
}

#[test]
fn a_reference_under_another_identity_is_a_mismatch() {
    let b = LibBuilder::with("B", vec![]).transpile(symbol("Item", TypeExpr::Primitive(3))).compile().unwrap();
    let pinned = |id: TypeLibId| {
        symbol(
            "User",
            TypeExpr::Reference(SymbolRef {
                lib_name: Some("B".to_string()),
                name: "Item".to_string(),
                resolved_id: Some(id),
            }),
        )
    };
    let ok = LibBuilder::with("A", vec![b.to_dependency_types()]).transpile(pinned(b.id())).compile();
    assert!(ok.is_ok());
    let failed = LibBuilder::with("A", vec![b.to_dependency_types()])
        .transpile(pinned(TypeLibId::from_byte_array([0; 32])))
        .compile();
    assert_eq!(
        failed,
        Err(TranspileError::DependencyMismatch { lib: "B".to_string(), referrer: "User".to_string() })
    );
}

#[test]
fn a_local_symbol_comes_before_a_dependency() {
    let lib = LibBuilder::with("Lib", vec![dependency("Dep", 1, &["Byte"])])
        .transpile(byte())
        .transpile(symbol("Alias", TypeExpr::Reference(SymbolRef::local("Byte"))))
        .compile()
        .unwrap();
    assert_eq!(lib.as_symbolic().get("Alias"), Some(&TypeExpr::Reference(SymbolRef::local("Byte"))));
}

#[test]
fn the_first_dependency_by_name_that_offers_a_symbol_is_taken() {
    let lib = LibBuilder::with(
        "Lib",
        vec![dependency("Zeta", 1, &["Thing"]), dependency("Beta", 2, &["Thing"]), dependency("Alpha", 3, &[])],
    )
    .transpile(symbol("Alias", TypeExpr::Reference(SymbolRef::local("Thing"))))
    .compile()
    .unwrap();
    assert_eq!(
        lib.as_symbolic().get("Alias"),
        Some(&TypeExpr::Reference(SymbolRef {
            lib_name: Some("Beta".to_string()),
            name: "Thing".to_string(),
            resolved_id: Some(TypeLibId::from_byte_array([2; 32])),
        }))
    );
}

#[test]
fn the_same_definition_is_taken_again() {
    let once = LibBuilder::with("Lib", vec![]).transpile(byte()).transpile(pair());
    let twice = once.clone().transpile(byte()).transpile(pair()).transpile(byte());
    assert_eq!(twice.failure(), None);
    assert_eq!(twice, once);
    assert_eq!(twice.as_symbolic().len(), 2);
    assert_eq!(twice.compile().unwrap().id(), once.compile().unwrap().id());
    let lib = LibBuilder::with("Lib", vec![])
        .transpile(symbol("A", TypeExpr::Primitive(1)))
        .transpile(symbol("A", TypeExpr::Primitive(1)))
        .compile()
        .unwrap();
    assert_eq!(lib.as_symbolic().type_names(), vec!["A"]);
}

#[test]
fn a_type_brought_in_by_another_can_be_taken_later() {
    let transaction = vec![
        symbol("Transaction", TypeExpr::Struct(vec![field("inputs", "Inputs"), field("id", "Txid")])),
        symbol("Inputs", TypeExpr::Collection(SymbolRef::local("TxIn"), Sizing { min: 0, max: 1000 })),
        symbol("TxIn", TypeExpr::Struct(vec![field("prev", "Txid")])),
        symbol("Txid", TypeExpr::Primitive(32)),
    ];
    let mut alone = LibBuilder::with("Bitcoin", vec![]);
    for s in transaction.clone() {
        alone = alone.transpile(s);
    }
    let mut all = LibBuilder::with("Bitcoin", vec![]);
    for s in transaction.clone() {
        all = all.transpile(s);
    }
    all = all.transpile(transaction[2].clone()).transpile(transaction[3].clone());
    assert_eq!(all.failure(), None);
    assert_eq!(all.compile().unwrap(), alone.compile().unwrap());
}

#[test]
fn definitions_are_compared_part_by_part() {
    assert!(pair().definition.same(&pair().definition));
    assert!(color().definition.same(&color().definition));
    assert!(bytes().definition.same(&bytes().definition));
    assert!(!pair().definition.same(&color().definition));
    assert!(!TypeExpr::Primitive(1).same(&TypeExpr::Primitive(2)));
    assert!(!pair()
        .definition
        .same(&TypeExpr::Struct(vec![field("x", "Byte"), field("y", "Byte"), field("z", "Byte")])));
    assert!(!pair().definition.same(&TypeExpr::Struct(vec![field("x", "Byte"), field("y", "Bytes")])));
    assert!(!color()
        .definition
        .same(&TypeExpr::Enum(vec![variant("red", 0), variant("green", 1), variant("blue", 3)])));
    assert!(!bytes()
        .definition
        .same(&TypeExpr::Collection(SymbolRef::local("Byte"), Sizing { min: 0, max: 254 })));
    assert!(SymbolRef::external("Std", "Bool").same(&SymbolRef::external("Std", "Bool")));
    assert!(!SymbolRef::external("Std", "Bool").same(&SymbolRef::local("Bool")));
    let pinned = |id: u8| SymbolRef {
        lib_name: Some("Std".to_string()),
        name: "Bool".to_string(),
        resolved_id: Some(TypeLibId::from_byte_array([id; 32])),
    };
    assert!(pinned(1).same(&pinned(1)));
    assert!(!pinned(1).same(&pinned(2)));
    assert!(!pinned(1).same(&SymbolRef::external("Std", "Bool")));
}

#[test]
fn a_failed_builder_can_be_inspected() {
    let b = LibBuilder::with("Lib", vec![])
        .transpile(byte())
        .transpile(pair())
        .transpile(symbol("Byte", TypeExpr::Primitive(2)));
    assert_eq!(b.failure(), Some(&TranspileError::NameCollision("Byte".to_string())));
    assert_eq!(b.name(), "Lib");
    assert_eq!(b.as_symbolic().type_names(), vec!["Byte", "Pair"]);
    assert_eq!(b.as_symbolic().get("Byte"), Some(&TypeExpr::Primitive(1)));
}

#[test]
fn two_definitions_under_one_name_are_rejected() {
    let b = LibBuilder::with("Lib", vec![]).transpile(byte()).transpile(symbol("Byte", TypeExpr::Primitive(2)));
    assert_eq!(b.failure(), Some(&TranspileError::NameCollision("Byte".to_string())));
    let b = b.transpile(color());
    assert_eq!(b.failure(), Some(&TranspileError::NameCollision("Byte".to_string())));
    assert_eq!(b.clone().compile_symbols(), Err(TranspileError::NameCollision("Byte".to_string())));
    assert_eq!(b.clone().into_symbolic(), Err(TranspileError::NameCollision("Byte".to_string())));
    assert_eq!(b.compile(), Err(TranspileError::NameCollision("Byte".to_string())));
}

#[test]
fn malformed_input_is_rejected() {
    let malformed = |name: &str| Err::<TypeLib, _>(TranspileError::Malformed(name.to_string()));
    assert_eq!(LibBuilder::with("lib", vec![]).transpile(byte()).compile(), malformed("lib"));
    assert_eq!(LibBuilder::with("", vec![]).compile(), malformed(""));
    assert_eq!(
        LibBuilder::with("Lib", vec![]).transpile(symbol("byte", TypeExpr::Primitive(1))).compile(),
        malformed("byte")
    );
    assert_eq!(
        LibBuilder::with("Lib", vec![]).transpile(symbol("Empty", TypeExpr::Struct(vec![]))).compile(),
        malformed("Empty")
    );
    assert_eq!(
        LibBuilder::with("Lib", vec![]).transpile(symbol("Empty", TypeExpr::Enum(vec![]))).compile(),
        malformed("Empty")
    );
    assert_eq!(
        LibBuilder::with("Lib", vec![])
            .transpile(symbol("Twice", TypeExpr::Struct(vec![field("a", "Byte"), field("a", "Byte")])))
            .compile(),
        malformed("Twice")
    );
    assert_eq!(
        LibBuilder::with("Lib", vec![])
            .transpile(symbol("Twice", TypeExpr::Enum(vec![variant("a", 0), variant("b", 0)])))
            .compile(),
        malformed("Twice")
    );
    assert_eq!(
        LibBuilder::with("Lib", vec![])
            .transpile(symbol("Twice", TypeExpr::Enum(vec![variant("a", 0), variant("a", 1)])))
            .compile(),
        malformed("Twice")
    );
    assert_eq!(
        LibBuilder::with("Lib", vec![])
            .transpile(symbol("Field", TypeExpr::Struct(vec![field("Upper", "Byte")])))
            .compile(),
        malformed("Field")
    );
    assert_eq!(
        LibBuilder::with("Lib", vec![])
            .transpile(symbol("Ref", TypeExpr::Reference(SymbolRef::local("lower"))))
            .compile(),
        malformed("Ref")
    );
    assert_eq!(
        LibBuilder::with("Lib", vec![])
            .transpile(symbol(
                "Sized",
                TypeExpr::Collection(SymbolRef::local("Byte"), Sizing { min: 2, max: 1 })
            ))
            .compile(),
        malformed("Sized")
    );
    assert_eq!(
        LibBuilder::with("Lib", vec![dependency("dep", 1, &[])]).compile(),
        malformed("dep")
    );
    assert_eq!(
        LibBuilder::with("Lib", vec![dependency("Dep", 1, &["thing"])]).compile(),
        malformed("Dep")
    );
}

#[test]
fn a_dependency_declared_twice_is_rejected() {
    let b = LibBuilder::with("Lib", vec![dependency("Dep", 1, &[]), dependency("Dep", 2, &[])]);
    assert_eq!(b.failure(), Some(&TranspileError::DuplicateDependency("Dep".to_string())));
    assert_eq!(b.compile(), Err(TranspileError::DuplicateDependency("Dep".to_string())));
}

#[test]
fn too_many_dependencies_are_rejected() {
    let deps = |n: usize| (0..n).map(|i| dependency(&format!("Dep{}", i), 1, &[])).collect::<Vec<_>>();
    assert!(LibBuilder::with("Lib", deps(255)).compile().is_ok());
    assert_eq!(LibBuilder::with("Lib", deps(256)).compile(), Err(TranspileError::TooLarge));
}

#[test]
fn an_empty_library_compiles() {
    let lib = LibBuilder::with("Empty", vec![]).compile().unwrap();
    assert_eq!(lib.as_symbolic().len(), 0);
    assert_eq!(lib.name(), "Empty");
    let symbolic = LibBuilder::with("Empty", vec![]).into_symbolic().unwrap();
    assert_eq!(symbolic.compile().unwrap().id(), lib.id());
}

#[test]
fn an_unresolved_library_is_resolved_by_compiling() {
    let symbolic = LibBuilder::with("Lib", vec![dependency("Dep", 5, &["Thing"])])
        .transpile(symbol("Alias", TypeExpr::Reference(SymbolRef::local("Thing"))))
        .into_symbolic()
        .unwrap();
    assert_eq!(symbolic.get("Alias"), Some(&TypeExpr::Reference(SymbolRef::local("Thing"))));
    let resolved = symbolic.clone().resolve().unwrap();
    assert_eq!(
        resolved.get("Alias"),
        Some(&TypeExpr::Reference(SymbolRef {
            lib_name: Some("Dep".to_string()),
            name: "Thing".to_string(),
            resolved_id: Some(TypeLibId::from_byte_array([5; 32])),
        }))
    );
    assert_eq!(resolved.identity(), symbolic.compile().unwrap().id());
}

#[test]
fn validity_of_symbols() {
    assert!(byte().is_valid());
    assert!(pair().is_valid());
    assert!(color().is_valid());
    assert!(bytes().is_valid());
    assert!(!symbol("pair", TypeExpr::Primitive(0)).is_valid());
    assert!(SymbolRef::external("Std", "Bool").is_valid());
    assert!(!SymbolRef::external("std", "Bool").is_valid());
    let many: Vec<Variant> = (0..=255u8).map(|t| variant(&format!("v{}", t), t)).collect();
    assert!(TypeExpr::Enum(many).is_valid());
    let many: Vec<Field> = (0..256).map(|i| field(&format!("f{}", i), "Byte")).collect();
    assert!(!TypeExpr::Struct(many).is_valid());
}
