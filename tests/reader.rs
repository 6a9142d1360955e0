use lexgen::reader::{LexParser, LineTextParser};
use lexgen::section::ParseLexFileState;

fn lines(text: &[&str]) -> Vec<String> {
    text.iter().map(|s| s.to_string()).collect()
}

#[test]
fn new_test() {
    let instance = LexParser::new("lex.l");
    assert_eq!(instance.state, ParseLexFileState::Declaration);
    assert_eq!(instance.filename, "lex.l");
}

#[test]
fn change_state_test() {
    let mut instance = LexParser::new("lex.l");
    instance.change_state();
    assert_ne!(instance.state, ParseLexFileState::Declaration);
}

#[test]
fn section_cursor_moves_forward_then_stays() {
    let mut state = ParseLexFileState::Declaration;
    state.change();
    assert_eq!(state, ParseLexFileState::Rule);
    state.change();
    assert_eq!(state, ParseLexFileState::Helper);
    state.change();
    assert_eq!(state, ParseLexFileState::Helper);
    state.change();
    assert_eq!(state, ParseLexFileState::Helper);
}

#[test]
fn delimiter_lines_move_the_cursor() {
    let mut parser = LexParser::new("lex.l");
    parser.parse(&lines(&["%%"]));
    assert_eq!(parser.state, ParseLexFileState::Rule);
    parser.parse(&lines(&["%%"]));
    assert_eq!(parser.state, ParseLexFileState::Helper);
    parser.parse(&lines(&["%%"]));
    assert_eq!(parser.state, ParseLexFileState::Helper);
}

#[test]
fn line_without_space_declares_nothing() {
    let mut parser = LexParser::new("lex.l");
    parser.parse(&lines(&["digit", "letter[a-z]"]));
    assert!(parser.regex_definitions.names().is_empty());
    assert_eq!(parser.regex_definitions.get_raw("digit"), None);
}

#[test]
fn declaration_line_stores_trimmed_body() {
    let mut parser = LexParser::new("lex.l");
    parser.parse(&lines(&["digit   [0-9]  \t"]));
    assert_eq!(parser.regex_definitions.get_raw("digit"), Some("[0-9]".to_string()));
    assert_eq!(parser.regex_definitions.get_resolved("digit"), Some("[0-9]".to_string()));
    assert_eq!(parser.regex_definitions.names(), vec!["digit".to_string()]);
}

#[test]
fn declaration_splits_on_first_space_only() {
    let mut parser = LexParser::new("lex.l");
    parser.parse(&lines(&["ws [ \\t]+ x"]));
    assert_eq!(parser.regex_definitions.get_raw("ws"), Some("[ \\t]+ x".to_string()));
}

#[test]
fn blank_lines_are_skipped() {
    let mut parser = LexParser::new("lex.l");
    parser.parse(&lines(&["", "   ", "\t", "a x"]));
    assert_eq!(parser.state, ParseLexFileState::Declaration);
    assert_eq!(parser.regex_definitions.get_raw("a"), Some("x".to_string()));
}

#[test]
fn rule_and_helper_lines_change_nothing() {
    let mut parser = LexParser::new("lex.l");
    parser.parse(&lines(&["digit [0-9]", "%%", "{digit}+ return NUM;", "%%", "int main x"]));
    assert_eq!(parser.state, ParseLexFileState::Helper);
    assert_eq!(parser.regex_definitions.names(), vec!["digit".to_string()]);
}

#[test]
fn delimiter_must_stand_alone() {
    let mut parser = LexParser::new("lex.l");
    parser.parse(&lines(&[" %%", "%% "]));
    assert_eq!(parser.state, ParseLexFileState::Declaration);
    assert_eq!(parser.regex_definitions.get_raw("%%"), Some("".to_string()));
}

#[test]
fn whole_file_resolves_in_order() {
    let mut parser = LexParser::new("lex.l");
    parser.parse(&lines(&[
        "digit [0-9]",
        "number {digit}+",
        "early {late}x",
        "late y",
        "%%",
        "{number} return NUM;",
    ]));
    let defs = &parser.regex_definitions;
    assert_eq!(defs.get_resolved("number"), Some("[0-9]+".to_string()));
    assert_eq!(defs.get_resolved("early"), Some("{late}x".to_string()));
    assert_eq!(defs.get_raw("number"), Some("{digit}+".to_string()));
}

#[test]
fn line_text_parser_declares_only_in_declarations() {
    let mut defs = lexgen::registry::RegexDefinitions::new();
    let line = "id [a-z]".to_string();
    let rule = ParseLexFileState::Rule;
    LineTextParser::new(&line, &rule).build(&mut defs);
    assert_eq!(defs.get_raw("id"), None);
    let decl = ParseLexFileState::Declaration;
    LineTextParser::new(&line, &decl).build(&mut defs);
    assert_eq!(defs.get_raw("id"), Some("[a-z]".to_string()));
}
