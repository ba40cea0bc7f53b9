use shflat::clean_command;
use shflat::clean::collapse_continuations;
use shflat::script_leaf_commands;

#[test]
fn escaped_newline_collapses_to_one_space() {
    assert_eq!(collapse_continuations("foo \\\nbar"), "foo  bar");
    assert_eq!(clean_command("foo \\\nbar"), "foo bar");
}

#[test]
fn escaped_crlf_collapses_to_one_space() {
    assert_eq!(collapse_continuations("a\\\r\nb"), "a b");
    assert_eq!(clean_command("a\\\r\nb"), "a b");
}

#[test]
fn plain_backslashes_are_kept() {
    assert_eq!(collapse_continuations("a\\b"), "a\\b");
}

#[test]
fn cleaning_coalesces_whitespace_and_requotes() {
    assert_eq!(clean_command("echo   \"a b\""), "echo 'a b'");
    assert_eq!(clean_command("ls -l"), "ls -l");
}

#[test]
fn cleaning_is_idempotent_on_ordinary_commands() {
    let samples = [
        "echo   \"a b\"",
        "foo \\\nbar",
        "ls -l | grep x",
        "mycmd --opt='v w'",
        "'oops",
        "",
    ];
    for sample in samples {
        let once = clean_command(sample);
        let twice = clean_command(&once);
        assert_eq!(twice, once);
    }
}

#[test]
fn malformed_quoting_cleans_to_empty() {
    assert_eq!(clean_command("'oops"), "");
}

#[test]
fn cleaning_applies_to_every_flattened_leaf() {
    let code = "foo   'a b'&&bash -c \"inner  cmd\"";
    let leaves = script_leaf_commands(code, true).unwrap();
    assert_eq!(leaves, vec!["foo 'a b'", "inner cmd"]);
}
