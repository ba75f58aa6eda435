use discord_fix::template::{bat_file_name, parse_bat_args};
use discord_fix::Error;

fn args(v: &[&str]) -> Vec<String> {
    v.iter().map(|s| s.to_string()).collect()
}

#[test]
fn declared_base_is_joined_to_root() {
    let content = "@echo off\nset BASE=%~dp0..\\data\nstart \"x\" /min \"%BIN%winws.exe\" \"%BASE%\\x.cfg\" \"--flag\"\n";
    let r = parse_bat_args("t1", content, "C:\\app\\").unwrap();
    assert_eq!(r, args(&["C:\\app\\data\\x.cfg", "--flag"]));
}

#[test]
fn missing_command_line_is_a_parse_failure() {
    let r = parse_bat_args("t2", "set BASE=%~dp0..\\data\necho nothing here\n", "R\\");
    assert_eq!(r, Err(Error::FailedParseBatFile("t2".to_string())));
}

#[test]
fn empty_template_is_a_parse_failure() {
    assert_eq!(parse_bat_args("e", "", "R\\"), Err(Error::FailedParseBatFile("e".to_string())));
}

#[test]
fn later_declaration_wins() {
    let content = "set A=%~dp0..\\one\nset A=%~dp0..\\two\nwinws.exe\" %A%\n";
    assert_eq!(parse_bat_args("t", content, "R\\").unwrap(), args(&["R\\two"]));
}

#[test]
fn carriage_returns_end_lines() {
    let content = "set LISTS=%~dp0..\\lists\\\r\nwinws.exe\" --hostlist=\"%LISTS%list.txt\" --x\r\n";
    assert_eq!(
        parse_bat_args("t", content, "C:\\fix\\").unwrap(),
        args(&["--hostlist=C:\\fix\\lists\\list.txt", "--x"])
    );
}

#[test]
fn unterminated_last_line_declares_nothing() {
    let content = "winws.exe\" %A% b\nset A=%~dp0..\\one";
    assert_eq!(
        parse_bat_args("t", content, "R\\").unwrap(),
        args(&["%A%", "b", "set", "A=%~dp0..\\one"])
    );
}

#[test]
fn several_placeholders_in_one_argument() {
    let content = "set A=%~dp0..\\a\nset B=%~dp0..\\b\nwinws.exe\" \"%A%+%B%\" ^\n  --next\n";
    assert_eq!(parse_bat_args("t", content, "/r/").unwrap(), args(&["/r/a+/r/b", "^", "--next"]));
}

#[test]
fn quotes_are_removed_and_whitespace_splits() {
    let content = "winws.exe\"    \"a b\"\t\"c\"\"d\"   ";
    assert_eq!(parse_bat_args("t", content, "").unwrap(), args(&["a", "b", "cd"]));
}

#[test]
fn marker_at_end_gives_no_arguments() {
    assert_eq!(parse_bat_args("t", "winws.exe\" ", "").unwrap(), Vec::<String>::new());
}

#[test]
fn declaration_needs_the_relative_prefix() {
    let content = "set A=C:\\abs\nset B=%~dp0..\\\nwinws.exe\" %A% %B%\n";
    assert_eq!(parse_bat_args("t", content, "R\\").unwrap(), args(&["%A%", "%B%"]));
}

#[test]
fn indented_declaration_counts() {
    let content = "  @set W_1=%~dp0..\\w\nwinws.exe\" %W_1%\n";
    assert_eq!(parse_bat_args("t", content, "R\\").unwrap(), args(&["R\\w"]));
}

#[test]
fn bat_suffix_is_added_once() {
    assert_eq!(bat_file_name("general"), "general.bat");
    assert_eq!(bat_file_name("general.bat"), "general.bat");
    assert_eq!(bat_file_name(""), ".bat");
    assert_eq!(bat_file_name("x.BAT"), "x.BAT.bat");
}
