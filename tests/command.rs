use my_redis::command::Command;

fn set_parts(c: Command) -> (String, String) {
    match c {
        Command::SET { key, value } => (key, value),
        _ => panic!("expected SET"),
    }
}

fn get_key(c: Command) -> String {
    match c {
        Command::GET { key } => key,
        _ => panic!("expected GET"),
    }
}

fn invalid_message(c: Command) -> String {
    match c {
        Command::Invalid { message } => message,
        _ => panic!("expected Invalid"),
    }
}

#[test]
fn parses_set_with_spaced_value() {
    let (k, v) = set_parts(Command::from_input("SET alpha hello world"));
    assert_eq!(k, "alpha");
    assert_eq!(v, "hello world");
}

#[test]
fn collapses_whitespace_in_value() {
    let (k, v) = set_parts(Command::from_input("  SET \t key   one  two\tthree \r\n"));
    assert_eq!(k, "key");
    assert_eq!(v, "one two three");
}

#[test]
fn parses_get_and_ignores_extra_tokens() {
    assert_eq!(get_key(Command::from_input("GET alpha")), "alpha");
    assert_eq!(get_key(Command::from_input("GET alpha beta gamma")), "alpha");
}

#[test]
fn unicode_whitespace_separates_tokens() {
    let (k, v) = set_parts(Command::from_input("SET\u{3000}clé\u{a0}vä"));
    assert_eq!(k, "clé");
    assert_eq!(v, "vä");
}

#[test]
fn empty_input_is_invalid() {
    assert_eq!(invalid_message(Command::from_input("")), "Empty command");
    assert_eq!(invalid_message(Command::from_input("   \r\n")), "Empty command");
}

#[test]
fn missing_key_is_invalid() {
    assert_eq!(invalid_message(Command::from_input("GET")), "Key expected");
    assert_eq!(invalid_message(Command::from_input("SET")), "Key expected");
    assert_eq!(invalid_message(Command::from_input("FOO")), "Key expected");
}

#[test]
fn missing_value_is_invalid() {
    assert_eq!(invalid_message(Command::from_input("SET key")), "Value expected");
    assert_eq!(invalid_message(Command::from_input("SET key   ")), "Value expected");
}

#[test]
fn unknown_verb_is_invalid() {
    assert_eq!(invalid_message(Command::from_input("DEL key")), "Unknown Command");
    assert_eq!(invalid_message(Command::from_input("set key value")), "Unknown Command");
}
