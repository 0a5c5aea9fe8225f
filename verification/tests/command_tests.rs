use dht_node::command::{parse_command, tokenize, Command};

#[test]
fn tokenize_splits_on_whitespace() {
    let toks = tokenize(&b"  put   alice\t1.2.3.4  ".to_vec());
    assert_eq!(toks.len(), 3);
    assert_eq!(toks[0], b"put".to_vec());
    assert_eq!(toks[1], b"alice".to_vec());
    assert_eq!(toks[2], b"1.2.3.4".to_vec());
}

#[test]
fn tokenize_empty_and_blank_lines() {
    assert!(tokenize(&Vec::new()).is_empty());
    assert!(tokenize(&b"   \t  \n".to_vec()).is_empty());
}

#[test]
fn parse_put() {
    match parse_command(&b"put alice 1.2.3.4".to_vec()) {
        Command::Put { key, value } => {
            assert_eq!(key, b"alice".to_vec());
            assert_eq!(value, b"1.2.3.4".to_vec());
        }
        _ => panic!("expected Put"),
    }
}

#[test]
fn parse_get() {
    match parse_command(&b"get bob".to_vec()) {
        Command::Get { key } => assert_eq!(key, b"bob".to_vec()),
        _ => panic!("expected Get"),
    }
}

#[test]
fn parse_exit() {
    assert!(matches!(parse_command(&b"exit".to_vec()), Command::Exit));
}

#[test]
fn parse_put_missing_value_is_unrecognized() {
    assert!(matches!(parse_command(&b"put onlykey".to_vec()), Command::Unrecognized));
}

#[test]
fn parse_get_missing_key_is_unrecognized() {
    assert!(matches!(parse_command(&b"get".to_vec()), Command::Unrecognized));
}

#[test]
fn parse_unknown_keyword_is_unrecognized() {
    assert!(matches!(parse_command(&b"frob a b".to_vec()), Command::Unrecognized));
}

#[test]
fn parse_blank_line_is_empty() {
    assert!(matches!(parse_command(&b"  ".to_vec()), Command::Empty));
}

#[test]
fn parse_is_case_sensitive() {
    assert!(matches!(parse_command(&b"PUT a b".to_vec()), Command::Unrecognized));
}
