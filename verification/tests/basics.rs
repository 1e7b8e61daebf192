use narrowing::assertion::{Alternatives, Assertion};
use narrowing::control::{control_end, control_return, has_action, BreakContext, ControlAction};
use narrowing::ids::{MethodIdentifier, ReferenceSource, StrId};
use narrowing::issue::{CheckPointEntry, HPos, Issue, IssueKind};
use narrowing::str_map::{keys_match, NameSet, StrMap};
use narrowing::text::{starts_with_char, str_lt, str_same};
use narrowing::types::{wrap_atomic, TAtomic, TUnion};

#[test]
fn names_are_ordered_by_their_bytes() {
    assert!(str_lt("$a", "$b"));
    assert!(!str_lt("$b", "$a"));
    assert!(!str_lt("$a", "$a"));
    assert!(str_lt("$a", "$ab"));
    assert!(str_lt("", "a"));
    assert!(!str_lt("a", ""));
    assert!(str_lt("Z", "a"));
    assert!(str_lt("z", "é"));
    assert!(str_lt("é", "€"));
    assert!(str_same("é", "é"));
    assert!(!str_same("e", "é"));
    assert!(starts_with_char("*x", '*'));
    assert!(!starts_with_char("", '*'));
    assert!(!starts_with_char("x*", '*'));
}

#[test]
fn map_keeps_its_entries_in_order_of_the_names() {
    let mut map: StrMap<u32> = StrMap::new();
    assert!(map.is_empty());
    map.insert("b".to_string(), 2);
    map.insert("a".to_string(), 1);
    map.insert("c".to_string(), 3);
    map.insert("b".to_string(), 20);
    assert_eq!(map.len(), 3);
    assert_eq!(map.key_at(0), "a");
    assert_eq!(map.key_at(1), "b");
    assert_eq!(map.key_at(2), "c");
    assert_eq!(*map.value_at(1), 20);
    assert_eq!(map.get("a"), Some(&1));
    assert_eq!(map.get("d"), None);
    assert_eq!(map.position("c"), Some(2));
    assert!(map.contains_key("b"));
    assert_eq!(map.remove("b"), Some(20));
    assert_eq!(map.remove("b"), None);
    assert_eq!(map.len(), 2);
    assert_eq!(map.key_at(1), "c");
    map.append("d".to_string(), 4);
    assert_eq!(map.key_at(2), "d");
    let copy = map.clone();
    assert_eq!(copy.len(), 3);
    assert_eq!(copy.get("d"), Some(&4));
}

#[test]
fn map_takes_over_the_entries_of_another() {
    let mut map: StrMap<u32> = StrMap::new();
    map.insert("a".to_string(), 1);
    map.insert("c".to_string(), 3);
    let mut other: StrMap<u32> = StrMap::new();
    other.insert("b".to_string(), 2);
    other.insert("c".to_string(), 30);
    map.extend(other);
    assert_eq!(map.len(), 3);
    assert_eq!(map.get("a"), Some(&1));
    assert_eq!(map.get("b"), Some(&2));
    assert_eq!(map.get("c"), Some(&30));
}

#[test]
fn maps_with_the_same_names_match() {
    let mut one: StrMap<u32> = StrMap::new();
    let mut other: StrMap<bool> = StrMap::new();
    assert!(keys_match(&one, &other));
    one.insert("a".to_string(), 1);
    assert!(!keys_match(&one, &other));
    other.insert("a".to_string(), true);
    assert!(keys_match(&one, &other));
    one.insert("b".to_string(), 1);
    other.insert("c".to_string(), true);
    assert!(!keys_match(&one, &other));
}

#[test]
fn set_of_names() {
    let mut set = NameSet::new();
    assert!(!set.contains("a"));
    set.insert("a".to_string());
    set.insert("a".to_string());
    assert!(set.contains("a"));
    set.remove("a");
    assert!(!set.contains("a"));
    set.remove("a");
}

#[test]
fn alternatives_list_each_assertion_once() {
    let mut alts = Alternatives::new();
    alts.insert(Assertion::Truthy);
    alts.insert(Assertion::IsIsset);
    alts.insert(Assertion::Truthy);
    assert_eq!(alts.len(), 2);
    assert_eq!(alts.position(&Assertion::IsIsset), Some(1));
    assert!(alts.contains(&Assertion::Truthy));
    let mut more = Alternatives::single(Assertion::Falsy);
    more.extend(&alts);
    assert_eq!(more.len(), 3);
    assert_eq!(more.get(0), &Assertion::Falsy);
    assert_eq!(more.get(1), &Assertion::Truthy);
    assert!(alts.is_subset_of(&more));
    assert!(!more.is_subset_of(&alts));
    more.remove(&Assertion::Truthy);
    assert_eq!(more.len(), 2);
    assert_eq!(more.get(1), &Assertion::IsIsset);
    more.remove(&Assertion::Truthy);
    assert_eq!(more.len(), 2);
}

#[test]
fn only_the_first_handle_is_empty() {
    assert!(StrId(0).is_empty());
    assert!(!StrId(1).is_empty());
    assert!(!StrId(u32::MAX).is_empty());
}

#[test]
fn method_is_named_by_class_and_name() {
    let id = MethodIdentifier("Foo\\Bar".to_string(), "baz".to_string());
    assert_eq!(id.to_string(), "Foo\\Bar::baz");
    assert_eq!(MethodIdentifier(String::new(), String::new()).to_string(), "::");
}

#[test]
fn reference_sources() {
    let source = ReferenceSource::ClasslikeMember(true, StrId(4), StrId(5));
    assert!(matches!(source, ReferenceSource::ClasslikeMember(true, StrId(4), StrId(5))));
    assert!(matches!(ReferenceSource::Symbol(false, StrId(1)), ReferenceSource::Symbol(false, _)));
}

#[test]
fn control_actions_are_noted_once() {
    let actions = control_end(Vec::new());
    assert_eq!(actions, vec![ControlAction::End]);
    let actions = control_return(actions);
    assert_eq!(actions, vec![ControlAction::End, ControlAction::Return]);
    let actions = control_end(actions);
    assert_eq!(actions, vec![ControlAction::End, ControlAction::Return]);
    assert!(has_action(&actions, ControlAction::Return));
    assert!(!has_action(&actions, ControlAction::Break));
    assert_ne!(BreakContext::Switch, BreakContext::Loop);
}

#[test]
fn checkpoint_entry_of_an_issue() {
    let issue = Issue {
        kind: IssueKind::RedundantTypeComparison,
        description: "Redundant check on $x".to_string(),
        pos: HPos {
            file_path: "src/a.hack".to_string(),
            start_offset: 100,
            end_offset: 110,
            start_line: 7,
            end_line: 8,
            start_column: 3,
            end_column: 5,
        },
    };
    let entry = CheckPointEntry::from_issue(&issue);
    assert_eq!(
        entry,
        CheckPointEntry {
            case: "RedundantTypeComparison".to_string(),
            level: "failure".to_string(),
            filename: "src/a.hack".to_string(),
            line: 7,
            output: "Redundant check on $x".to_string(),
        }
    );
    assert_eq!(IssueKind::ImpossibleIssetCheck.to_string(), "ImpossibleIssetCheck");
    assert_eq!(IssueKind::ImpossibleTruthinessCheck.to_string(), "ImpossibleTruthinessCheck");
    assert_eq!(IssueKind::RedundantTruthinessCheck.to_string(), "RedundantTruthinessCheck");
    assert_eq!(IssueKind::RedundantIssetCheck.to_string(), "RedundantIssetCheck");
    assert_eq!(IssueKind::ImpossibleTypeComparison.to_string(), "ImpossibleTypeComparison");
}

fn named(name: &str, params: Option<Vec<TUnion>>, extra: Option<Vec<TAtomic>>) -> TAtomic {
    TAtomic::TNamedObject {
        name: name.to_string(),
        type_params: params,
        is_this: false,
        extra_types: extra,
        remapped_params: false,
    }
}

#[test]
fn types_have_a_canonical_text() {
    assert_eq!(TAtomic::TInt.get_id(), "int");
    assert_eq!(TAtomic::TArraykey.get_id(), "arraykey");
    assert_eq!(TAtomic::TMixedAny.get_id(), "any");
    assert_eq!(TAtomic::TLiteralInt { value: 0 }.get_id(), "0");
    assert_eq!(TAtomic::TLiteralInt { value: 1234567890 }.get_id(), "1234567890");
    assert_eq!(TAtomic::TLiteralInt { value: -45 }.get_id(), "-45");
    assert_eq!(TAtomic::TLiteralInt { value: i64::MIN }.get_id(), "-9223372036854775808");
    assert_eq!(TAtomic::TLiteralInt { value: i64::MAX }.get_id(), "9223372036854775807");
    assert_eq!(TAtomic::TLiteralString { value: "a b".to_string() }.get_id(), "\"a b\"");
    assert_eq!(
        TAtomic::TEnumLiteralCase { enum_name: "E".to_string(), member_name: "A".to_string() }
            .get_id(),
        "E::A"
    );
    assert_eq!(named("Foo", None, None).get_id(), "Foo");
    assert_eq!(named("Foo", Some(vec![]), None).get_id(), "Foo<>");
    let pair = named(
        "Pair",
        Some(vec![
            TUnion::new(vec![TAtomic::TInt, TAtomic::TNull]),
            wrap_atomic(named("Foo", Some(vec![wrap_atomic(TAtomic::TString)]), None)),
        ]),
        Some(vec![named("I", None, None), named("J", None, None)]),
    );
    assert_eq!(pair.get_id(), "Pair<int|null, Foo<string>>&I&J");
    let template = TAtomic::TTemplateParam {
        param_name: "T".to_string(),
        as_type: wrap_atomic(TAtomic::TObject),
        defining_entity: "Foo".to_string(),
        extra_types: None,
    };
    assert_eq!(template.get_id(), "T:Foo as object");
    assert_eq!(TUnion::new(vec![]).get_id(), "");
    assert_eq!(TUnion::new(vec![TAtomic::TInt, TAtomic::TInt, TAtomic::TBool]).get_id(), "int|bool");
}

#[test]
fn assertions_have_a_key() {
    assert_eq!(Assertion::Truthy.to_string(), "!falsy");
    assert_eq!(Assertion::Falsy.to_string(), "falsy");
    assert_eq!(Assertion::IsType(TAtomic::TInt).to_string(), "int");
    assert_eq!(Assertion::IsNotType(TAtomic::TInt).to_string(), "!int");
    assert_eq!(Assertion::IsEqual(TAtomic::TLiteralInt { value: 5 }).to_string(), "=5");
    assert_eq!(Assertion::IsNotEqual(TAtomic::TNull).to_string(), "!=null");
    assert_eq!(Assertion::IsIsset.to_string(), "isset");
    assert_eq!(Assertion::IsNotIsset.to_string(), "!isset");
    assert_eq!(Assertion::IsEqualIsset.to_string(), "=isset");
    assert_eq!(Assertion::IsNotEqualIsset.to_string(), "!=isset");
    assert_eq!(Assertion::ArrayKeyExists.to_string(), "array-key-exists");
    assert_eq!(Assertion::ArrayKeyDoesNotExist.to_string(), "!array-key-exists");
    assert_eq!(Assertion::NonEmptyCountable(true).to_string(), "=non-empty-countable");
    assert_eq!(Assertion::NonEmptyCountable(false).to_string(), "non-empty-countable");
    assert_eq!(Assertion::EmptyCountable(true).to_string(), "!=non-empty-countable");
    assert_eq!(Assertion::EmptyCountable(false).to_string(), "!non-empty-countable");
    assert_eq!(Assertion::HasExactCount(12).to_string(), "has-exactly-12");
    assert_eq!(Assertion::DoesNotHaveExactCount(0).to_string(), "!has-exactly-0");
}

#[test]
fn unions_know_what_they_hold() {
    let this = TAtomic::TNamedObject {
        name: "Foo".to_string(),
        type_params: None,
        is_this: true,
        extra_types: None,
        remapped_params: false,
    };
    let other = named("Foo", None, None);
    let statics = TUnion::new(vec![this.clone()]);
    let mixed = TUnion::new(vec![this.clone(), other.clone()]);
    assert!(statics.is_static_object() && statics.has_static_object());
    assert!(!mixed.is_static_object() && mixed.has_static_object());
    assert!(mixed.is_objecty() && mixed.has_object_type());
    assert!(!TUnion::new(vec![]).is_objecty());
    assert!(wrap_atomic(TAtomic::TNothing).is_nothing());
    assert!(wrap_atomic(TAtomic::TPlaceholder).is_placeholder());
    assert!(wrap_atomic(TAtomic::TArraykey).is_arraykey());
    assert!(wrap_atomic(TAtomic::TLiteralInt { value: 1 }).is_literal_of(&wrap_atomic(TAtomic::TInt)));
    assert!(!wrap_atomic(TAtomic::TLiteralInt { value: 1 }).is_literal_of(&wrap_atomic(TAtomic::TString)));
    let mut from_any = false;
    assert!(wrap_atomic(TAtomic::TMixedAny).is_mixed_with_any(&mut from_any));
    assert!(from_any);
    assert!(wrap_atomic(TAtomic::TMixed).is_mixed_with_any(&mut from_any));
    assert!(!from_any);
    assert!(!mixed.has_template());
    let filled = named("Foo", Some(vec![wrap_atomic(TAtomic::TPlaceholder), wrap_atomic(TAtomic::TInt)]), None)
        .remove_placeholders();
    assert_eq!(
        filled,
        named("Foo", Some(vec![wrap_atomic(TAtomic::TMixedAny), wrap_atomic(TAtomic::TInt)]), None)
    );
    assert_eq!(
        other.clone().add_intersection_type(TAtomic::TObject),
        named("Foo", None, Some(vec![TAtomic::TObject]))
    );
    assert_eq!(TAtomic::TInt.add_intersection_type(TAtomic::TObject), TAtomic::TInt);
    assert!(TAtomic::TNull.is_literal() && !TAtomic::TInt.is_literal());
}
