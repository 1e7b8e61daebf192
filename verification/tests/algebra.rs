use narrowing::algebra::{combine_ored_clauses, simplify_cnf};
use narrowing::assertion::{Alternatives, Assertion};
use narrowing::clause::Clause;
use narrowing::negation::{group_impossibilities, negate_formula, negate_formula_with};
use narrowing::str_map::{NameSet, StrMap};
use narrowing::truths::{get_truths_from_formula, negate_types};
use narrowing::types::TAtomic;

fn possibilities_of(literals: Vec<(&str, Assertion)>) -> StrMap<Alternatives> {
    let mut possibilities: StrMap<Alternatives> = StrMap::new();
    for (var, assertion) in literals {
        let mut alts = match possibilities.remove(var) {
            Some(a) => a,
            None => Alternatives::new(),
        };
        alts.insert(assertion);
        possibilities.insert(var.to_string(), alts);
    }
    possibilities
}

fn clause_of(literals: Vec<(&str, Assertion)>, id: (usize, usize)) -> Clause {
    Clause::new(possibilities_of(literals), id, id, None, None, None, None)
}

fn wedge(id: (usize, usize)) -> Clause {
    Clause::new(StrMap::new(), id, id, Some(true), None, None, None)
}

fn literals_of(c: &Clause) -> Vec<(String, Assertion)> {
    let mut out = Vec::new();
    for i in 0..c.possibilities.len() {
        let alts = c.possibilities.value_at(i);
        for k in 0..alts.len() {
            out.push((c.possibilities.key_at(i).clone(), alts.get(k).clone()));
        }
    }
    out
}

fn same_clause_sets(a: &Vec<Clause>, b: &Vec<Clause>) -> bool {
    a.iter().all(|x| b.iter().any(|y| x.same_as(y)))
        && b.iter().all(|y| a.iter().any(|x| x.same_as(y)))
}

fn is_int() -> Assertion {
    Assertion::IsType(TAtomic::TInt)
}

fn is_not_int() -> Assertion {
    Assertion::IsNotType(TAtomic::TInt)
}

fn is_string() -> Assertion {
    Assertion::IsType(TAtomic::TString)
}

fn is_not_string() -> Assertion {
    Assertion::IsNotType(TAtomic::TString)
}

fn lit(var: &str, a: Assertion) -> (String, Assertion) {
    (var.to_string(), a)
}

#[test]
fn resolution_leaves_the_shared_literal() {
    let a = clause_of(vec![("$a", is_int()), ("$x", Assertion::Truthy)], (1, 1));
    let b = clause_of(vec![("$a", is_not_int()), ("$x", Assertion::Truthy)], (1, 1));
    let simplified = simplify_cnf(vec![&a, &b]);
    assert_eq!(simplified.len(), 1);
    assert_eq!(literals_of(&simplified[0]), vec![lit("$x", Assertion::Truthy)]);
}

#[test]
fn resolution_does_not_depend_on_provenance() {
    let a = clause_of(vec![("$a", is_int()), ("$x", Assertion::Truthy)], (1, 1));
    let b = clause_of(vec![("$a", is_not_int()), ("$x", Assertion::Truthy)], (2, 2));
    let simplified = simplify_cnf(vec![&a, &b]);
    assert_eq!(simplified.len(), 1);
    assert_eq!(literals_of(&simplified[0]), vec![lit("$x", Assertion::Truthy)]);
    assert_eq!(simplified[0].creating_object_id, (1, 1));
}

#[test]
fn simplifying_twice_changes_nothing() {
    let formulas: Vec<Vec<Clause>> = vec![
        vec![
            clause_of(vec![("$a", is_int()), ("$x", Assertion::Truthy)], (1, 1)),
            clause_of(vec![("$a", is_not_int()), ("$x", Assertion::Truthy)], (1, 1)),
            clause_of(vec![("$b", is_string())], (1, 1)),
        ],
        vec![
            clause_of(vec![("$a", is_int())], (1, 1)),
            clause_of(vec![("$a", is_not_int()), ("$b", is_string())], (1, 1)),
            clause_of(vec![("$a", is_int()), ("$c", Assertion::Falsy)], (1, 1)),
        ],
        vec![
            clause_of(vec![("$a", is_int()), ("$x", Assertion::Truthy)], (1, 1)),
            clause_of(vec![("$a", is_not_int()), ("$y", Assertion::Truthy)], (1, 1)),
            clause_of(vec![("$x", Assertion::Truthy), ("$y", Assertion::Truthy)], (1, 1)),
        ],
        vec![
            clause_of(vec![("$a", Assertion::Falsy)], (1, 1)),
            clause_of(vec![("$b", Assertion::Falsy)], (1, 1)),
            clause_of(
                vec![("$a", Assertion::Truthy), ("$b", Assertion::Truthy), ("$c", Assertion::Truthy)],
                (1, 1),
            ),
        ],
        vec![wedge((3, 3)), clause_of(vec![("$a", is_int())], (1, 1)), wedge((3, 3))],
        vec![],
    ];
    for formula in formulas {
        let once = simplify_cnf(formula.iter().collect());
        let twice = simplify_cnf(once.iter().collect());
        assert!(same_clause_sets(&once, &twice));
        assert_eq!(once.len(), twice.len());
    }
}

#[test]
fn repeated_clauses_are_kept_once() {
    let a = clause_of(vec![("$a", is_int())], (1, 1));
    let b = clause_of(vec![("$a", is_int())], (2, 2));
    let simplified = simplify_cnf(vec![&a, &b, &a]);
    assert_eq!(simplified.len(), 1);
    assert_eq!(simplified[0].creating_object_id, (1, 1));
}

#[test]
fn unit_clause_refutes_an_alternative() {
    let a = clause_of(vec![("$a", is_int())], (1, 1));
    let b = clause_of(vec![("$a", is_not_int()), ("$b", is_string())], (1, 1));
    let simplified = simplify_cnf(vec![&a, &b]);
    assert_eq!(simplified.len(), 2);
    assert_eq!(literals_of(&simplified[0]), vec![lit("$a", is_int())]);
    assert_eq!(literals_of(&simplified[1]), vec![lit("$b", is_string())]);
}

#[test]
fn unit_clause_refutes_one_of_several_alternatives() {
    let a = clause_of(vec![("$a", is_int())], (1, 1));
    let b = clause_of(vec![("$a", is_not_int()), ("$a", is_string())], (1, 1));
    let simplified = simplify_cnf(vec![&a, &b]);
    assert_eq!(simplified.len(), 2);
    assert_eq!(literals_of(&simplified[1]), vec![lit("$a", is_string())]);
}

#[test]
fn contradicted_unit_clause_goes() {
    let a = clause_of(vec![("$a", is_int())], (1, 1));
    let b = clause_of(vec![("$a", is_not_int())], (1, 1));
    let simplified = simplify_cnf(vec![&a, &b]);
    assert!(simplified.is_empty());
}

#[test]
fn weaker_clause_is_redundant() {
    let a = clause_of(vec![("$a", is_int())], (1, 1));
    let b = clause_of(vec![("$a", is_int()), ("$b", is_string())], (1, 1));
    let simplified = simplify_cnf(vec![&b, &a]);
    assert_eq!(simplified.len(), 1);
    assert_eq!(literals_of(&simplified[0]), vec![lit("$a", is_int())]);
}

#[test]
fn wedge_is_never_redundant() {
    let a = clause_of(vec![("$a", is_int())], (1, 1));
    let w = wedge((5, 5));
    let simplified = simplify_cnf(vec![&w, &a]);
    assert_eq!(simplified.len(), 2);
    assert!(simplified[0].wedge);
}

#[test]
fn consensus_of_two_clauses_is_dropped() {
    let a = clause_of(vec![("$a", is_int()), ("$x", Assertion::Truthy)], (1, 1));
    let b = clause_of(vec![("$a", is_not_int()), ("$y", Assertion::Truthy)], (1, 1));
    let c = clause_of(vec![("$x", Assertion::Truthy), ("$y", Assertion::Truthy)], (1, 1));
    let simplified = simplify_cnf(vec![&a, &b, &c]);
    assert_eq!(simplified.len(), 2);
    assert!(simplified[0].same_as(&a));
    assert!(simplified[1].same_as(&b));
}

#[test]
fn long_opaque_formula_is_left_alone() {
    let clause = clause_of(vec![("*1", is_int()), ("*2", is_string())], (1, 1));
    let unit = clause_of(vec![("*1", is_not_int())], (1, 1));
    let mut formula: Vec<&Clause> = Vec::new();
    for _ in 0..50 {
        formula.push(&clause);
    }
    formula.push(&unit);
    let untouched = simplify_cnf(formula.clone());
    assert_eq!(untouched.len(), 51);
    for i in 0..50 {
        assert!(untouched[i].same_as(&clause));
    }
    assert!(untouched[50].same_as(&unit));
    formula.pop();
    assert_eq!(simplify_cnf(formula).len(), 1);
}

#[test]
fn long_formula_with_a_named_variable_is_simplified() {
    let clause = clause_of(vec![("*1", is_int()), ("$b", is_string())], (1, 1));
    let unit = clause_of(vec![("*1", is_not_int())], (1, 1));
    let mut formula: Vec<&Clause> = Vec::new();
    for _ in 0..50 {
        formula.push(&clause);
    }
    formula.push(&unit);
    let simplified = simplify_cnf(formula);
    assert_eq!(simplified.len(), 2);
    assert_eq!(literals_of(&simplified[0]), vec![lit("*1", is_not_int())]);
    assert_eq!(literals_of(&simplified[1]), vec![lit("$b", is_string())]);
}

#[test]
fn long_formula_with_a_wedge_is_simplified() {
    let clause = clause_of(vec![("*1", is_int()), ("*2", is_string())], (1, 1));
    let w = wedge((7, 7));
    let mut formula: Vec<&Clause> = Vec::new();
    for _ in 0..51 {
        formula.push(&clause);
    }
    formula.push(&w);
    let simplified = simplify_cnf(formula);
    assert_eq!(simplified.len(), 2);
    assert!(simplified[0].same_as(&clause));
    assert!(simplified[1].wedge);
}

#[test]
fn unit_clauses_act_one_after_the_other() {
    let not_a = clause_of(vec![("$a", Assertion::Falsy)], (1, 1));
    let not_b = clause_of(vec![("$b", Assertion::Falsy)], (1, 1));
    let any = clause_of(
        vec![("$a", Assertion::Truthy), ("$b", Assertion::Truthy), ("$c", Assertion::Truthy)],
        (1, 1),
    );
    let c = clause_of(vec![("$c", Assertion::Truthy)], (1, 1));
    let expected = vec![not_a.clone(), not_b.clone(), c];
    let simplified = simplify_cnf(vec![&not_a, &not_b, &any]);
    assert_eq!(simplified.len(), 3);
    assert!(same_clause_sets(&simplified, &expected));
    let shuffled = simplify_cnf(vec![&any, &not_b, &not_a]);
    assert_eq!(shuffled.len(), 3);
    assert!(same_clause_sets(&shuffled, &expected));
    let again = simplify_cnf(simplified.iter().collect());
    assert_eq!(again.len(), 3);
    assert!(same_clause_sets(&again, &simplified));
}

#[test]
fn unit_clauses_refute_alternatives_of_one_variable_in_turn() {
    let is_a_int = clause_of(vec![("$a", is_int())], (1, 1));
    let is_b_string = clause_of(vec![("$b", is_string())], (1, 1));
    let any = clause_of(
        vec![("$a", is_not_int()), ("$a", Assertion::Falsy), ("$b", is_not_string())],
        (1, 1),
    );
    let simplified = simplify_cnf(vec![&is_a_int, &any, &is_b_string]);
    assert_eq!(simplified.len(), 3);
    assert_eq!(literals_of(&simplified[0]), vec![lit("$a", is_int())]);
    assert_eq!(literals_of(&simplified[1]), vec![lit("$b", is_string())]);
    assert_eq!(literals_of(&simplified[2]), vec![lit("$a", Assertion::Falsy)]);
}

#[test]
fn clause_that_unit_clauses_refute_wholly_goes() {
    let not_a = clause_of(vec![("$a", Assertion::Falsy)], (1, 1));
    let not_b = clause_of(vec![("$b", Assertion::Falsy)], (1, 1));
    let any = clause_of(vec![("$a", Assertion::Truthy), ("$b", Assertion::Truthy)], (1, 1));
    let simplified = simplify_cnf(vec![&not_a, &not_b, &any]);
    assert_eq!(simplified.len(), 2);
    assert!(simplified[0].same_as(&not_a));
    assert!(simplified[1].same_as(&not_b));
}

fn truths_of(entries: Vec<(&str, Vec<Vec<Assertion>>)>) -> StrMap<Vec<Vec<Assertion>>> {
    let mut truths = StrMap::new();
    for (var, groups) in entries {
        truths.insert(var.to_string(), groups);
    }
    truths
}

#[test]
fn one_group_negates_to_a_group_for_each_assertion() {
    let negated = negate_types(truths_of(vec![
        ("$a", vec![vec![is_int(), is_string()]]),
        ("$b", vec![vec![Assertion::Truthy]]),
    ]));
    assert_eq!(negated.len(), 2);
    assert_eq!(negated.get("$a"), Some(&vec![vec![is_not_int()], vec![is_not_string()]]));
    assert_eq!(negated.get("$b"), Some(&vec![vec![Assertion::Falsy]]));
}

#[test]
fn several_single_groups_negate_to_one_group() {
    let negated = negate_types(truths_of(vec![("$a", vec![vec![is_not_int()], vec![is_not_string()]])]));
    assert_eq!(negated.len(), 1);
    assert_eq!(negated.get("$a"), Some(&vec![vec![is_int(), is_string()]]));
}

#[test]
fn variable_with_several_single_groups_does_not_end_the_negation() {
    let negated = negate_types(truths_of(vec![
        ("$a", vec![vec![is_int()]]),
        ("$b", vec![vec![is_not_int()], vec![is_not_string()]]),
        ("$c", vec![vec![Assertion::Truthy]]),
    ]));
    assert_eq!(negated.len(), 3);
    assert_eq!(negated.get("$a"), Some(&vec![vec![is_not_int()]]));
    assert_eq!(negated.get("$b"), Some(&vec![vec![is_int(), is_string()]]));
    assert_eq!(negated.get("$c"), Some(&vec![vec![Assertion::Falsy]]));
}

#[test]
fn variables_after_one_with_several_single_groups_are_negated() {
    let negated = negate_types(truths_of(vec![
        ("$a", vec![vec![is_int()], vec![Assertion::Truthy]]),
        ("$b", vec![vec![Assertion::Truthy]]),
    ]));
    assert_eq!(negated.len(), 2);
    assert_eq!(negated.get("$a"), Some(&vec![vec![is_not_int(), Assertion::Falsy]]));
    assert_eq!(negated.get("$b"), Some(&vec![vec![Assertion::Falsy]]));
}

#[test]
fn ambiguous_variable_ends_the_negation_without_an_entry() {
    let negated = negate_types(truths_of(vec![
        ("$a", vec![vec![is_int()]]),
        ("$b", vec![vec![is_not_int()], vec![is_not_string(), Assertion::Truthy]]),
        ("$c", vec![vec![Assertion::Truthy]]),
    ]));
    assert_eq!(negated.len(), 1);
    assert_eq!(negated.get("$a"), Some(&vec![vec![is_not_int()]]));
    assert_eq!(negated.get("$b"), None);
    assert_eq!(negated.get("$c"), None);
}

#[test]
fn negation_of_assertions_comes_in_pairs() {
    let all = vec![
        Assertion::Truthy,
        Assertion::Falsy,
        is_int(),
        is_not_int(),
        Assertion::IsEqual(TAtomic::TLiteralInt { value: 1 }),
        Assertion::IsNotEqual(TAtomic::TLiteralInt { value: 1 }),
        Assertion::IsIsset,
        Assertion::IsNotIsset,
        Assertion::IsEqualIsset,
        Assertion::IsNotEqualIsset,
        Assertion::ArrayKeyExists,
        Assertion::ArrayKeyDoesNotExist,
        Assertion::NonEmptyCountable(true),
        Assertion::EmptyCountable(false),
        Assertion::HasExactCount(3),
        Assertion::DoesNotHaveExactCount(3),
    ];
    for a in &all {
        let n = a.get_negation();
        assert_ne!(&n, a);
        assert_eq!(&n.get_negation(), a);
        assert!(n.is_negation_of(a));
        assert!(a.is_negation_of(&n));
        assert_ne!(n.has_negation(), a.has_negation());
        assert_eq!(n.has_equality(), a.has_equality());
    }
    assert!(!is_int().is_negation_of(&is_not_string()));
    assert!(Assertion::Falsy.has_negation());
    assert_eq!(is_int().get_type(), Some(&TAtomic::TInt));
    assert_eq!(Assertion::Truthy.get_type(), None);
}

#[test]
fn clause_knows_what_it_contains() {
    let a = clause_of(vec![("$a", is_int()), ("$b", is_string())], (1, 1));
    let b = clause_of(vec![("$a", is_int())], (2, 2));
    assert!(a.contains(&b));
    assert!(!b.contains(&a));
    assert!(a.contains(&a));
    assert!(!a.same_as(&b));
    let removed = a.remove_possibilities("$b").unwrap();
    assert!(removed.same_as(&b));
    assert_eq!(removed.creating_object_id, (1, 1));
    assert!(b.remove_possibilities("$a").is_none());
    let added = b.add_possibility("$b".to_string(), Alternatives::single(is_string()));
    assert!(added.same_as(&a));
    assert_eq!(
        a.get_impossibilities(),
        vec![
            ("$a".to_string(), vec![is_not_int()]),
            ("$b".to_string(), vec![is_not_string()]),
        ]
    );
}

#[test]
fn wedges_are_known_by_their_provenance() {
    assert!(wedge((1, 1)).same_as(&wedge((1, 1))));
    assert!(!wedge((1, 1)).same_as(&wedge((1, 2))));
    assert!(!wedge((1, 1)).same_as(&clause_of(vec![], (1, 1))));
}
