use shflat::{flatten_commands, process_embedded_code, script_leaf_commands};

#[test]
fn sh_dash_c_expands_in_order() {
    let inner = process_embedded_code("sh -c \"x;y\"").unwrap();
    assert_eq!(inner, vec!["x", "y"]);
}

#[test]
fn resolution_replaces_command_in_place_among_siblings() {
    let cmds = vec![
        String::from("a"),
        String::from("sh -c \"x;y\""),
        String::from("b"),
    ];
    assert_eq!(flatten_commands(cmds), vec!["a", "x", "y", "b"]);
}

#[test]
fn nested_indirection_is_resolved_recursively() {
    let cmds = vec![String::from("bash -c 'sh -c \"z\"'")];
    assert_eq!(flatten_commands(cmds), vec!["z"]);
}

#[test]
fn other_programs_with_dash_c_are_leaves() {
    assert!(process_embedded_code("python -c \"print(1)\"").is_none());
}

#[test]
fn path_prefixed_shells_are_leaves() {
    assert!(process_embedded_code("/bin/bash -c \"x\"").is_none());
}

#[test]
fn bash_dash_c_without_script_is_a_leaf() {
    assert!(process_embedded_code("bash -c").is_none());
}

#[test]
fn second_word_must_be_dash_c() {
    assert!(process_embedded_code("bash -x \"y\"").is_none());
}

#[test]
fn trailing_arguments_are_ignored_for_extraction() {
    let inner = process_embedded_code("bash -c \"ourcmd baz\" --bashflag").unwrap();
    assert_eq!(inner, vec!["ourcmd baz"]);
}

#[test]
fn malformed_quoting_keeps_the_command_verbatim() {
    let cmd = String::from("bash -c \"unterminated");
    assert!(process_embedded_code(&cmd).is_none());
    assert_eq!(flatten_commands(vec![cmd.clone()]), vec![cmd]);
}

#[test]
fn example_script_flattens_to_expected_leaves() {
    let code = "mycmd -f&&yourcmd --bar=foo||bash -c \"ourcmd baz\" --bashflag|&{quux|corge;}";
    let leaves = script_leaf_commands(code, false).unwrap();
    assert_eq!(
        leaves,
        vec![
            "mycmd -f",
            "yourcmd --bar=foo",
            "ourcmd baz",
            "quux",
            "corge",
        ]
    );
}
