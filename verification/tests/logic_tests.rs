use rusty_gate::logic::LogicTree;

fn eval(text: &str, terminals: Vec<Option<bool>>) -> Option<bool> {
    LogicTree::parse(text)
        .expect("the expression should parse")
        .evaluate(&terminals)
}

#[test]
fn single_leaf() {
    assert_eq!(eval("0", vec![Some(true)]), Some(true));
    assert_eq!(eval("0", vec![Some(false)]), Some(false));
    assert_eq!(eval("0", vec![None]), None);
    assert_eq!(eval(" 1 ", vec![Some(true), Some(false)]), Some(false));
}

#[test]
fn connectives() {
    assert_eq!(eval("0 AND 1", vec![Some(true), Some(true)]), Some(true));
    assert_eq!(eval("0 AND 1", vec![Some(true), Some(false)]), Some(false));
    assert_eq!(eval("0 OR 1", vec![Some(false), Some(true)]), Some(true));
    assert_eq!(eval("NOT 0", vec![Some(false)]), Some(true));
    assert_eq!(eval("0 NAND 1", vec![Some(true), Some(true)]), Some(false));
    assert_eq!(eval("0 NOR 1", vec![Some(false), Some(false)]), Some(true));
}

#[test]
fn precedence_and_parentheses() {
    // AND binds closer than OR
    assert_eq!(
        eval("0 OR 1 AND 2", vec![Some(false), Some(true), Some(false)]),
        Some(false)
    );
    assert_eq!(
        eval("(0 OR 1) AND 2", vec![Some(false), Some(true), Some(true)]),
        Some(true)
    );
    assert_eq!(eval("NOT (0 AND 1)", vec![Some(true), Some(false)]), Some(true));
}

#[test]
fn unknown_propagation() {
    // truth of one side decides an or, whatever the other side is
    assert_eq!(eval("0 OR 1", vec![Some(true), None]), Some(true));
    assert_eq!(eval("1 OR 0", vec![Some(true), None]), Some(true));
    // falsity of one side decides an and
    assert_eq!(eval("0 AND 1", vec![Some(false), None]), Some(false));
    // otherwise the unknown wins
    assert_eq!(eval("0 AND 1", vec![Some(true), None]), None);
    assert_eq!(eval("0 OR 1", vec![Some(false), None]), None);
    assert_eq!(eval("NOT 0", vec![None]), None);
}

#[test]
fn out_of_range_leaf_is_unknown() {
    assert_eq!(eval("5", vec![Some(true)]), None);
    assert_eq!(eval("0 OR 5", vec![Some(true)]), Some(true));
}

#[test]
fn parse_failures() {
    assert!(LogicTree::parse("").is_none());
    assert!(LogicTree::parse("AND").is_none());
    assert!(LogicTree::parse("0 AND").is_none());
    assert!(LogicTree::parse("0 XOR 1").is_none());
    assert!(LogicTree::parse("(0").is_none());
    assert!(LogicTree::parse("0)").is_none());
    assert!(LogicTree::parse("0 1").is_none());
    assert!(LogicTree::parse("zero").is_none());
    assert!(LogicTree::parse("0 and 1").is_none());
}
