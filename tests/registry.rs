use lexgen::registry::RegexDefinitions;

#[test]
fn resolve_success() {
    let mut reg_defs = RegexDefinitions::new();
    reg_defs.insert("resolve1".to_string(), "a".to_string());
    reg_defs.insert("resolve2".to_string(), "b".to_string());
    assert_eq!(reg_defs.resolve("x{resolve1}y{resolve2}z"), "xaybz".to_string());
}

#[test]
fn resolve_not_success() {
    let mut reg_defs = RegexDefinitions::new();
    reg_defs.insert("resolve".to_string(), "a".to_string());
    assert_eq!(reg_defs.resolve("{not_resolve}"), "{not_resolve}".to_string());
}

#[test]
fn resolving_unknown_twice_is_unchanged() {
    let mut reg_defs = RegexDefinitions::new();
    reg_defs.insert("resolve".to_string(), "a".to_string());
    let once = reg_defs.resolve("{not_resolve}");
    assert_eq!(reg_defs.resolve(&once), "{not_resolve}".to_string());
}

#[test]
fn resolve_replaces_every_occurrence() {
    let mut reg_defs = RegexDefinitions::new();
    reg_defs.insert("d".to_string(), "[0-9]".to_string());
    assert_eq!(reg_defs.resolve("{d}.{d}"), "[0-9].[0-9]".to_string());
}

#[test]
fn resolve_keeps_dollar_signs_literal() {
    let mut reg_defs = RegexDefinitions::new();
    reg_defs.insert("end".to_string(), "x$0$1".to_string());
    assert_eq!(reg_defs.resolve("a{end}"), "ax$0$1".to_string());
}

#[test]
fn resolve_leaves_non_placeholders() {
    let mut reg_defs = RegexDefinitions::new();
    reg_defs.insert("a".to_string(), "z".to_string());
    assert_eq!(reg_defs.resolve("{}{a b}{a"), "{}{a b}{a".to_string());
    assert_eq!(reg_defs.resolve(""), "".to_string());
}

#[test]
fn resolve_names_uses_given_names() {
    let mut reg_defs = RegexDefinitions::new();
    reg_defs.insert("a".to_string(), "1".to_string());
    reg_defs.insert("b".to_string(), "2".to_string());
    let names = vec!["b".to_string(), "c".to_string()];
    assert_eq!(reg_defs.resolve_names("{a}{b}{c}", &names), "{a}2{c}".to_string());
}

#[test]
fn earlier_definition_is_substituted() {
    let mut reg_defs = RegexDefinitions::new();
    reg_defs.insert("A".to_string(), "[a-z]".to_string());
    reg_defs.insert("B".to_string(), "{A}+".to_string());
    assert_eq!(reg_defs.get_resolved("B"), Some("[a-z]+".to_string()));
}

#[test]
fn forward_reference_stays_literal() {
    let mut reg_defs = RegexDefinitions::new();
    reg_defs.insert("A".to_string(), "x{B}".to_string());
    reg_defs.insert("B".to_string(), "y".to_string());
    assert_eq!(reg_defs.get_resolved("A"), Some("x{B}".to_string()));
    assert_eq!(reg_defs.get_raw("A"), Some("x{B}".to_string()));
}

#[test]
fn nested_placeholder_is_substituted_verbatim() {
    let mut reg_defs = RegexDefinitions::new();
    reg_defs.insert("A".to_string(), "{C}".to_string());
    reg_defs.insert("B".to_string(), "<{A}>".to_string());
    reg_defs.insert("C".to_string(), "c".to_string());
    assert_eq!(reg_defs.get_resolved("B"), Some("<{C}>".to_string()));
}

#[test]
fn self_reference_uses_new_raw_text() {
    let mut reg_defs = RegexDefinitions::new();
    reg_defs.insert("A".to_string(), "old".to_string());
    reg_defs.insert("A".to_string(), "n{A}".to_string());
    assert_eq!(reg_defs.get_raw("A"), Some("n{A}".to_string()));
    assert_eq!(reg_defs.get_resolved("A"), Some("nn{A}".to_string()));
    assert_eq!(reg_defs.names(), vec!["A".to_string()]);
}

#[test]
fn insert_overwrites_earlier_value() {
    let mut reg_defs = RegexDefinitions::new();
    reg_defs.insert("k".to_string(), "1".to_string());
    reg_defs.insert("j".to_string(), "{k}".to_string());
    reg_defs.insert("k".to_string(), "2".to_string());
    assert_eq!(reg_defs.get_raw("k"), Some("2".to_string()));
    assert_eq!(reg_defs.get_resolved("j"), Some("1".to_string()));
    assert_eq!(reg_defs.names(), vec!["k".to_string(), "j".to_string()]);
}
