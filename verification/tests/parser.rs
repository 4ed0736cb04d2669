use mapping_viewer::bindings::Binding;
use mapping_viewer::parser::{binding_from_string, parse_bindings, title_from_string, tokenize,
    ParseError, Token};

fn parser_input() -> String {
    String::from(
        "\n### Hello world\n## #Tab\n# Group #\nSuper-a | test\nSuper-g | test2\n# Group 2\nShift-a | capital a\n",
    )
}

#[test]
fn test_binding_from_string() {
    let input = "Super-e | default";
    let result = binding_from_string(input);
    assert_eq!(result.keys, "Super-e");
    assert_eq!(result.action, "default");
}

#[test]
fn test_binding_from_string_with_two_pipes() {
    let input = "Super-e | default | hello";
    let result = binding_from_string(input);
    assert_eq!(result.keys, "Super-e");
    assert_eq!(result.action, "default");
}

#[test]
fn test_binding_from_string_with_incomplete_binding() {
    let input = "Super-e";
    let result = binding_from_string(input);
    assert_eq!(result.keys, "Super-e");
    assert_eq!(result.action, "");
}

#[test]
fn test_title_from_string() {
    let input = "## Hello world";
    assert_eq!(title_from_string(input), "Hello world");
}

#[test]
fn test_parsing_simple() {
    let input = "# Hello World\nSuper-q | quit";
    let tokens = tokenize(input);
    assert_eq!(tokens.len(), 2);
    assert_eq!(tokens[0], Token::GroupTitle(String::from("Hello World")));
    assert_eq!(
        tokens[1],
        Token::Binding(Binding { keys: String::from("Super-q"), action: String::from("quit") })
    );
}

#[test]
fn test_parsing_hard() {
    let input = parser_input();
    let tokens = tokenize(&input);
    assert_eq!(tokens.len(), 7);
    assert_eq!(tokens[0], Token::WindowTitle(String::from("Hello world")));
    assert_eq!(tokens[1], Token::TabTitle(String::from("#Tab")));
    assert_eq!(tokens[2], Token::GroupTitle(String::from("Group #")));
    assert_eq!(
        tokens[3],
        Token::Binding(Binding { keys: String::from("Super-a"), action: String::from("test") })
    );
    assert_eq!(
        tokens[4],
        Token::Binding(Binding { keys: String::from("Super-g"), action: String::from("test2") })
    );
    assert_eq!(tokens[5], Token::GroupTitle(String::from("Group 2")));
    assert_eq!(
        tokens[6],
        Token::Binding(Binding {
            keys: String::from("Shift-a"),
            action: String::from("capital a"),
        })
    );
}

#[test]
fn test_parse_bindings() {
    let input = parser_input();
    let result = parse_bindings(&input).unwrap();
    assert_eq!(result.title, "Hello world");
    assert_eq!(result.tabs.len(), 1);
    let tabs = result.tabs.first().unwrap();
    assert_eq!(tabs.title, "#Tab");
    assert_eq!(tabs.groups.len(), 2);
    let groups = &tabs.groups;
    assert_eq!(groups[0].title, "Group #");
    assert_eq!(groups[0].bindings.len(), 2);
    assert_eq!(groups[0].bindings[0].keys, "Super-a");
    assert_eq!(groups[0].bindings[1].keys, "Super-g");
    assert_eq!(groups[0].bindings[0].action, "test");
    assert_eq!(groups[0].bindings[1].action, "test2");

    assert_eq!(groups[1].title, "Group 2");
    assert_eq!(groups[1].bindings.len(), 1);
    assert_eq!(groups[1].bindings[0].keys, "Shift-a");
    assert_eq!(groups[1].bindings[0].action, "capital a");
}

#[test]
fn test_empty_input_gives_default_window() {
    let result = parse_bindings("").unwrap();
    assert_eq!(result.title, "Mapping Viewer");
    assert_eq!(result.tabs.len(), 0);
}

#[test]
fn test_blank_input_gives_default_window() {
    let result = parse_bindings("\n   \n\t\n").unwrap();
    assert_eq!(result.title, "Mapping Viewer");
    assert_eq!(result.tabs.len(), 0);
}

#[test]
fn test_window_title_last_write_wins() {
    let result = parse_bindings("### First\n### Second\n").unwrap();
    assert_eq!(result.title, "Second");
    assert_eq!(result.tabs.len(), 0);
}

#[test]
fn test_four_markers_give_window_title() {
    let result = parse_bindings("#### Deep title\n").unwrap();
    assert_eq!(result.title, "Deep title");
}

#[test]
fn test_title_stripping_marker_counts() {
    assert_eq!(title_from_string("## X"), "X");
    assert_eq!(title_from_string("### X"), "X");
}

#[test]
fn test_title_keeps_embedded_markers() {
    assert_eq!(title_from_string("## #Tab"), "#Tab");
    assert_eq!(title_from_string("# Group #"), "Group #");
}

#[test]
fn test_binding_with_leading_pipe() {
    let result = binding_from_string("| only action");
    assert_eq!(result.keys, "");
    assert_eq!(result.action, "only action");
}

#[test]
fn test_orphan_binding_is_rejected() {
    assert_eq!(parse_bindings("Super-x | quit"), Err(ParseError::NoPreviousGroup));
}

#[test]
fn test_orphan_binding_after_blank_lines_is_rejected() {
    assert_eq!(parse_bindings("\n   \nSuper-x | quit\n"), Err(ParseError::NoPreviousGroup));
}

#[test]
fn test_orphan_group_is_rejected() {
    assert_eq!(parse_bindings("# Lonely group\nSuper-x | quit\n"), Err(ParseError::NoPreviousTab));
}

#[test]
fn test_binding_without_group_in_tab_is_rejected() {
    assert_eq!(parse_bindings("## Tab\nSuper-x | quit\n"), Err(ParseError::NoPreviousGroup));
}

#[test]
fn test_declaration_order_is_preserved() {
    let input = "## One\n# A\nk1 | a1\nk2 | a2\n## Two\n# B\nk3 | a3\n# C\nk4 | a4\n";
    let result = parse_bindings(input).unwrap();
    assert_eq!(result.tabs.len(), 2);
    assert_eq!(result.tabs[0].title, "One");
    assert_eq!(result.tabs[1].title, "Two");
    assert_eq!(result.tabs[0].groups.len(), 1);
    assert_eq!(result.tabs[0].groups[0].title, "A");
    assert_eq!(result.tabs[0].groups[0].bindings[0].keys, "k1");
    assert_eq!(result.tabs[0].groups[0].bindings[1].keys, "k2");
    assert_eq!(result.tabs[1].groups.len(), 2);
    assert_eq!(result.tabs[1].groups[0].title, "B");
    assert_eq!(result.tabs[1].groups[0].bindings[0].keys, "k3");
    assert_eq!(result.tabs[1].groups[1].title, "C");
    assert_eq!(result.tabs[1].groups[1].bindings[0].keys, "k4");
}

#[test]
fn test_blank_lines_are_dropped_by_tokenizer() {
    let tokens = tokenize("\n\n# G\n\n");
    assert_eq!(tokens.len(), 1);
    assert_eq!(tokens[0], Token::GroupTitle(String::from("G")));
}
