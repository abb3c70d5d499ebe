use rem::client::{client_exec_delete, client_exec_read, client_exec_write, parse_input};

fn parsed(line: &str) -> Vec<String> {
    parse_input(String::from(line))
}

#[test]
fn splits_plain_words_at_spaces() {
    assert_eq!(parsed("write abc def"), vec!["write", "abc", "def"]);
}

#[test]
fn collapses_repeated_spaces() {
    assert_eq!(parsed("a   b"), vec!["a", "b"]);
}

#[test]
fn empty_line_has_no_arguments() {
    assert_eq!(parsed(""), Vec::<String>::new());
    assert_eq!(parsed("   "), Vec::<String>::new());
}

#[test]
fn double_quotes_group_spaced_words() {
    assert_eq!(parsed("write \"a b\" c"), vec!["write", "a b", "c"]);
}

#[test]
fn single_quotes_group_spaced_words() {
    assert_eq!(parsed("write 'a b' c"), vec!["write", "a b", "c"]);
}

#[test]
fn single_quote_inside_double_quotes_is_a_character() {
    assert_eq!(parsed("\"it's\""), vec!["it's"]);
}

#[test]
fn double_quote_inside_single_quotes_is_a_character() {
    assert_eq!(parsed("'say \"hi\"'"), vec!["say \"hi\""]);
}

#[test]
fn closing_quote_ends_the_argument() {
    assert_eq!(parsed("ab\"cd e\"f"), vec!["abcd e", "f"]);
}

#[test]
fn write_command_wire_format() {
    let cmd = client_exec_write(&String::from("abc"), &String::from("def"));
    assert_eq!(cmd, "W$abc:def");
}

#[test]
fn read_command_wire_format() {
    let cmd = client_exec_read(&String::from("zzz"));
    assert_eq!(cmd, "R$zzz");
}

#[test]
fn delete_command_wire_format() {
    let cmd = client_exec_delete(&String::from("abc"));
    assert_eq!(cmd, "D$abc");
}
