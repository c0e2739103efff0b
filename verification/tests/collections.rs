use noirc_evaluator::name_map::NamedWitnesses;
use noirc_evaluator::names::{make_field_path, str_less};
use noirc_evaluator::witness::{Witness, WitnessSet};

#[test]
fn names_compare_as_strings() {
    let s = |x: &str| x.to_string();
    assert!(str_less(&s("a"), &s("b")));
    assert!(!str_less(&s("b"), &s("a")));
    assert!(str_less(&s("a"), &s("ab")));
    assert!(!str_less(&s("ab"), &s("ab")));
    assert!(str_less(&s(""), &s("a")));
    assert!(str_less(&s("a-b"), &s("a.z")));
    assert!(str_less(&s("z"), &s("é")));
    assert_eq!(str_less(&s("Zeta"), &s("alpha")), s("Zeta") < s("alpha"));
}

#[test]
fn field_paths_join_with_a_dot() {
    assert_eq!(make_field_path(&"p".to_string(), &"x".to_string()), "p.x");
    assert_eq!(make_field_path(&"p.q".to_string(), &"".to_string()), "p.q.");
}

#[test]
fn named_witnesses_keep_name_order_and_replace() {
    let mut m = NamedWitnesses::new();
    m.insert("b".to_string(), vec![Witness(1)]);
    m.insert("a".to_string(), vec![Witness(2), Witness(3)]);
    m.insert("c".to_string(), vec![]);
    m.insert("b".to_string(), vec![Witness(4)]);
    let names: Vec<&str> = m.as_vec().iter().map(|(n, _)| n.as_str()).collect();
    assert_eq!(names, vec!["a", "b", "c"]);
    assert_eq!(m.flattened_values(), vec![Witness(2), Witness(3), Witness(4)]);
}

#[test]
fn witness_set_is_ordered_without_repeats() {
    let mut s = WitnessSet::new();
    s.extend(&vec![Witness(5), Witness(1), Witness(5), Witness(3)]);
    s.insert(Witness(2));
    assert_eq!(s.to_vec(), vec![Witness(1), Witness(2), Witness(3), Witness(5)]);
    assert!(s.contains(Witness(3)));
    assert!(!s.contains(Witness(4)));
    assert_eq!(s.len(), 4);
}
