use narrowing::codebase::{
    ClassLikeInfo, CodebaseInfo, ConstantInfo, FunctionLikeInfo, PropertyInfo, SymbolKind,
};
use narrowing::ids::{MethodIdentifier, StrId};
use narrowing::interner::Interner;
use narrowing::types::{wrap_atomic, TAtomic};

fn s(text: &str) -> String {
    text.to_string()
}

fn sample() -> CodebaseInfo {
    let mut codebase = CodebaseInfo::new();
    codebase.symbols.all.insert(s("A"), SymbolKind::Class);
    codebase.symbols.all.insert(s("B"), SymbolKind::Class);
    codebase.symbols.all.insert(s("I"), SymbolKind::Interface);
    codebase.symbols.all.insert(s("J"), SymbolKind::Interface);
    codebase.symbols.all.insert(s("E"), SymbolKind::Enum);
    codebase.symbols.all.insert(s("T"), SymbolKind::Trait);
    codebase.symbols.all.insert(s("alias"), SymbolKind::TypeDefinition);
    codebase.symbols.all.insert(s("f"), SymbolKind::Function);
    let mut a = ClassLikeInfo::new(s("A"), SymbolKind::Class);
    a.constants.insert(
        s("C"),
        ConstantInfo { inferred_type: None, provided_type: Some(wrap_atomic(TAtomic::TInt)) },
    );
    a.constants.insert(
        s("D"),
        ConstantInfo {
            inferred_type: Some(wrap_atomic(TAtomic::TLiteralInt { value: 1 })),
            provided_type: Some(wrap_atomic(TAtomic::TInt)),
        },
    );
    a.constants.insert(s("U"), ConstantInfo { inferred_type: None, provided_type: None });
    a.declaring_property_ids.insert(s("p"), s("A"));
    a.properties.insert(s("p"), PropertyInfo { type_: wrap_atomic(TAtomic::TString) });
    a.declaring_method_ids.insert(s("m"), s("A"));
    a.appearing_method_ids.insert(s("m"), s("A"));
    a.methods.insert(s("m"), FunctionLikeInfo { name: s("m"), return_type: None });
    codebase.classlike_infos.insert(s("A"), a);
    let mut b = ClassLikeInfo::new(s("B"), SymbolKind::Class);
    b.all_parent_classes.insert(s("A"));
    b.all_class_interfaces.insert(s("I"));
    b.declaring_property_ids.insert(s("p"), s("A"));
    b.declaring_method_ids.insert(s("m"), s("A"));
    b.appearing_method_ids.insert(s("m"), s("B"));
    codebase.classlike_infos.insert(s("B"), b);
    let mut j = ClassLikeInfo::new(s("J"), SymbolKind::Interface);
    j.all_parent_interfaces.insert(s("I"));
    codebase.classlike_infos.insert(s("J"), j);
    let mut e = ClassLikeInfo::new(s("E"), SymbolKind::Enum);
    e.constants.insert(
        s("X"),
        ConstantInfo { inferred_type: Some(wrap_atomic(TAtomic::TInt)), provided_type: None },
    );
    codebase.classlike_infos.insert(s("E"), e);
    codebase
}

#[test]
fn symbols_are_known_by_their_kind() {
    let codebase = sample();
    assert!(codebase.class_exists(&s("A")));
    assert!(!codebase.class_exists(&s("I")));
    assert!(codebase.interface_exists(&s("I")));
    assert!(codebase.class_or_interface_exists(&s("I")));
    assert!(!codebase.class_or_interface_exists(&s("E")));
    assert!(codebase.class_or_interface_or_enum_exists(&s("E")));
    assert!(!codebase.class_or_interface_or_enum_exists(&s("T")));
    assert!(codebase.class_or_interface_or_enum_or_trait_exists(&s("T")));
    assert!(!codebase.class_or_interface_or_enum_or_trait_exists(&s("alias")));
    assert!(!codebase.class_or_interface_or_enum_or_trait_exists(&s("nope")));
    assert!(codebase.typedef_exists(&s("alias")));
    assert!(!codebase.typedef_exists(&s("A")));
}

#[test]
fn ancestors_are_looked_up_in_the_classlike() {
    let codebase = sample();
    assert!(codebase.class_extends(&s("B"), &s("A")));
    assert!(!codebase.class_extends(&s("B"), &s("I")));
    assert!(codebase.class_implements(&s("B"), &s("I")));
    assert!(codebase.class_extends_or_implements(&s("B"), &s("I")));
    assert!(codebase.class_extends_or_implements(&s("B"), &s("A")));
    assert!(!codebase.class_extends_or_implements(&s("A"), &s("B")));
    assert!(codebase.interface_extends(&s("J"), &s("I")));
    assert!(!codebase.interface_extends(&s("I"), &s("J")));
    assert!(!codebase.class_extends(&s("nope"), &s("A")));
}

#[test]
fn constants_have_the_inferred_type_before_the_declared_one() {
    let codebase = sample();
    assert_eq!(codebase.get_class_constant_type(&s("A"), &s("C")), Some(wrap_atomic(TAtomic::TInt)));
    assert_eq!(
        codebase.get_class_constant_type(&s("A"), &s("D")),
        Some(wrap_atomic(TAtomic::TLiteralInt { value: 1 }))
    );
    assert_eq!(codebase.get_class_constant_type(&s("A"), &s("U")), None);
    assert_eq!(codebase.get_class_constant_type(&s("A"), &s("nope")), None);
    assert_eq!(codebase.get_class_constant_type(&s("nope"), &s("C")), None);
    assert_eq!(
        codebase.get_class_constant_type(&s("E"), &s("X")),
        Some(wrap_atomic(TAtomic::TEnumLiteralCase { enum_name: s("E"), member_name: s("X") }))
    );
}

#[test]
fn members_are_found_through_the_declaring_classlike() {
    let codebase = sample();
    assert!(codebase.property_exists(&s("B"), &s("p")));
    assert!(!codebase.property_exists(&s("B"), &s("q")));
    assert!(codebase.method_exists(&s("B"), &s("m")));
    assert!(!codebase.method_exists(&s("I"), &s("m")));
    assert_eq!(codebase.get_declaring_class_for_property(&s("B"), &s("p")), Some(&s("A")));
    assert_eq!(codebase.get_declaring_class_for_property(&s("B"), &s("q")), None);
    assert_eq!(codebase.get_property_type(&s("B"), &s("p")), Some(wrap_atomic(TAtomic::TString)));
    assert_eq!(codebase.get_property_type(&s("B"), &s("q")), None);
    let method = MethodIdentifier(s("B"), s("m"));
    assert_eq!(codebase.get_declaring_method_id(&method), MethodIdentifier(s("A"), s("m")));
    assert_eq!(codebase.get_appearing_method_id(&method), MethodIdentifier(s("B"), s("m")));
    let unknown = MethodIdentifier(s("B"), s("n"));
    assert_eq!(codebase.get_declaring_method_id(&unknown), unknown);
    let nowhere = MethodIdentifier(s("nope"), s("m"));
    assert_eq!(codebase.get_appearing_method_id(&nowhere), nowhere);
    assert_eq!(codebase.get_method(&MethodIdentifier(s("A"), s("m"))).unwrap().name, "m");
    assert!(codebase.get_method(&method).is_none());
}

#[test]
fn extending_takes_over_what_the_other_knows() {
    let mut codebase = sample();
    let mut other = CodebaseInfo::new();
    other.symbols.all.insert(s("A"), SymbolKind::Interface);
    other.symbols.all.insert(s("Z"), SymbolKind::Class);
    other.classlike_infos.insert(s("Z"), ClassLikeInfo::new(s("Z"), SymbolKind::Class));
    other.infer_types_from_usage = true;
    codebase.extend(other);
    assert!(codebase.interface_exists(&s("A")));
    assert!(codebase.class_exists(&s("Z")));
    assert!(codebase.class_exists(&s("B")));
    assert_eq!(codebase.classlike_infos.len(), 5);
    assert!(!codebase.infer_types_from_usage);
}

#[test]
fn interner_knows_the_builtin_strings() {
    let interner = Interner::default();
    assert_eq!(interner.len(), 42);
    assert_eq!(interner.get(""), Some(StrId(0)));
    assert_eq!(interner.get("this"), Some(StrId(1)));
    assert_eq!(interner.get("<anonymous function>"), Some(StrId(2)));
    assert_eq!(interner.get("HH\\MemberOf"), Some(StrId(5)));
    assert_eq!(interner.get("__construct"), Some(StrId(7)));
    assert_eq!(interner.get("HH\\Container"), Some(StrId(12)));
    assert_eq!(interner.get("HH\\Awaitable"), Some(StrId(15)));
    assert_eq!(interner.get("static"), Some(StrId(18)));
    assert_eq!(interner.get("self"), Some(StrId(19)));
    assert_eq!(interner.get("HH\\Lib\\Regex\\Pattern"), Some(StrId(24)));
    assert_eq!(interner.get("stdClass"), Some(StrId(30)));
    assert_eq!(interner.get("include"), Some(StrId(33)));
    assert_eq!(interner.get("removeKey"), Some(StrId(40)));
    assert_eq!(interner.get("HH\\Lib\\Math\\INT32_MAX"), Some(StrId(41)));
    assert_eq!(interner.lookup(&StrId(6)), "echo");
    assert_eq!(interner.lookup(&StrId(38)), "assertAll");
    assert_eq!(interner.get("nope"), None);
    assert_eq!(interner.try_lookup(&StrId(42)), None);
    assert_eq!(interner.try_lookup(&StrId(41)), Some("HH\\Lib\\Math\\INT32_MAX"));
}

#[test]
fn interning_gives_the_same_string_the_same_handle() {
    let mut interner = Interner::default();
    let foo = interner.intern(s("Foo"));
    let bar = interner.intern(s("Bar"));
    assert_eq!(foo, StrId(42));
    assert_eq!(bar, StrId(43));
    assert_eq!(interner.intern(s("Foo")), foo);
    assert_eq!(interner.intern(s("this")), StrId(1));
    assert_eq!(interner.try_intern(s("Baz")), Some(StrId(44)));
    assert_eq!(interner.try_intern(s("Bar")), Some(bar));
    assert_eq!(interner.len(), 45);
    assert_eq!(interner.get("Bar"), Some(bar));
    assert_eq!(interner.lookup(&foo), "Foo");
    let map = interner.get_map();
    assert_eq!(map.len(), 45);
    assert_eq!(map.get("Foo"), Some(&foo));
    assert_eq!(map.get(""), Some(&StrId(0)));
    assert_eq!(map.get("nope"), None);
}

#[test]
fn new_code_base_knows_nothing() {
    let codebase = CodebaseInfo::new();
    assert_eq!(codebase.classlike_infos.len(), 0);
    assert_eq!(codebase.functionlike_infos.len(), 0);
    assert_eq!(codebase.symbols.all.len(), 0);
    assert_eq!(codebase.symbols.classlike_files.len(), 0);
    assert!(!codebase.infer_types_from_usage);
    assert!(!codebase.register_stub_files);
    assert!(!codebase.class_exists(&s("A")));
}
