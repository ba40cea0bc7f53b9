use shflat::tree::SyntaxNode;
use shflat::{extract_commands, parse_and_extract_commands};

#[test]
fn empty_script_yields_no_commands() {
    let cmds = parse_and_extract_commands("").unwrap();
    assert_eq!(cmds, Vec::<String>::new());
}

#[test]
fn comment_only_script_yields_no_commands() {
    let cmds = parse_and_extract_commands("# nothing to run here\n").unwrap();
    assert_eq!(cmds, Vec::<String>::new());
}

#[test]
fn operators_split_commands_in_source_order() {
    let cmds = parse_and_extract_commands("a&&b||c|d").unwrap();
    assert_eq!(cmds, vec!["a", "b", "c", "d"]);
}

#[test]
fn commands_inside_compound_constructs_are_found() {
    let cmds = parse_and_extract_commands("{ foo | bar; }").unwrap();
    assert_eq!(cmds, vec!["foo", "bar"]);
}

#[test]
fn walker_reports_command_nodes_in_document_order() {
    let tree = SyntaxNode {
        kind: String::from("program"),
        text: String::from("x; y"),
        children: vec![
            SyntaxNode {
                kind: String::from("command"),
                text: String::from("x"),
                children: vec![],
            },
            SyntaxNode {
                kind: String::from("comment"),
                text: String::from("# none"),
                children: vec![],
            },
            SyntaxNode {
                kind: String::from("command"),
                text: String::from("y"),
                children: vec![],
            },
        ],
    };
    assert_eq!(extract_commands(&tree), vec!["x", "y"]);
}
