use rusty_chat::lexer::{tokenize, Tok};
use rusty_chat::{decode, encode, DecodeError, Message, MessageType, UserSetupType};

fn message(text: &str, msg_type: MessageType, author: &str) -> Message {
    Message { text: text.to_string(), msg_type, author: author.to_string() }
}

fn assert_same(a: &Message, b: &Message) {
    assert_eq!(a.text, b.text);
    assert_eq!(a.msg_type, b.msg_type);
    assert_eq!(a.author, b.author);
}

#[test]
fn new_message_is_empty_user_message() {
    let m = Message::new();
    assert_eq!(m.text, "");
    assert_eq!(m.msg_type, MessageType::User);
    assert_eq!(m.author, "");
}

#[test]
fn message_displays_author_then_text() {
    let m = message("hi there", MessageType::User, "Alice");
    assert_eq!(m.display(), "Alice: hi there");
    assert_eq!(Message::new().display(), ": ");
}

#[test]
fn message_same_compares_all_three_parts() {
    let m = message("hi", MessageType::User, "Alice");
    assert!(m.same(&m.clone()));
    assert!(!m.same(&message("hi!", MessageType::User, "Alice")));
    assert!(!m.same(&message("hi", MessageType::Command, "Alice")));
    assert!(!m.same(&message("hi", MessageType::User, "Bob")));
}

#[test]
fn encode_writes_compact_object_in_member_order() {
    let m = message("hi", MessageType::User, "Alice");
    assert_eq!(encode(&m), r#"{"text":"hi","msg_type":"User","author":"Alice"}"#);
}

#[test]
fn encode_writes_each_kind() {
    assert_eq!(
        encode(&message("a", MessageType::SystemInfo, "SYSTEM")),
        r#"{"text":"a","msg_type":"SystemInfo","author":"SYSTEM"}"#
    );
    assert_eq!(
        encode(&message("/join Bob", MessageType::Command, "Al")),
        r#"{"text":"/join Bob","msg_type":"Command","author":"Al"}"#
    );
    assert_eq!(
        encode(&message("Bob", MessageType::UserSetup(UserSetupType::UsernameConfirmed), "SYSTEM")),
        r#"{"text":"Bob","msg_type":{"UserSetup":"UsernameConfirmed"},"author":"SYSTEM"}"#
    );
}

#[test]
fn encode_of_new_message() {
    assert_eq!(encode(&Message::new()), r#"{"text":"","msg_type":"User","author":""}"#);
}

#[test]
fn encode_escapes_quotes_backslashes_and_controls() {
    let m = message("a\"b\\c\nd\re\tf\u{8}g\u{c}h\u{1}i\u{1f}j", MessageType::User, "x");
    assert_eq!(
        encode(&m),
        r#"{"text":"a\"b\\c\nd\re\tf\bg\fh\u0001i\u001fj","msg_type":"User","author":"x"}"#
    );
}

#[test]
fn encode_leaves_other_characters_alone() {
    let m = message("caf\u{e9} / \u{1F600} \u{7f}", MessageType::User, "\u{4e2d}");
    assert_eq!(
        encode(&m),
        "{\"text\":\"caf\u{e9} / \u{1F600} \u{7f}\",\"msg_type\":\"User\",\"author\":\"\u{4e2d}\"}"
    );
}

#[test]
fn encoded_line_holds_no_line_break() {
    let m = message("one\ntwo\r\nthree", MessageType::User, "a\nb");
    let line = encode(&m);
    assert!(!line.contains('\n'));
    assert!(!line.contains('\r'));
    assert!(line.chars().all(|c| c >= ' '));
}

#[test]
fn round_trip_of_each_kind() {
    let kinds = [
        MessageType::SystemInfo,
        MessageType::UserSetup(UserSetupType::UsernameConfirmed),
        MessageType::User,
        MessageType::Command,
    ];
    for kind in kinds {
        let m = message("some text", kind, "Alice");
        let back = decode(&encode(&m)).unwrap();
        assert_same(&m, &back);
    }
}

#[test]
fn round_trip_of_awkward_texts() {
    let texts = [
        "",
        " ",
        "\"",
        "\\",
        "\\\"",
        "\\u0041",
        "a\nb",
        "\u{0}\u{1}\u{1f}\u{7f}",
        "{\"text\":\"x\"}",
        "caf\u{e9} \u{1F600}",
        "/join Bob",
        "text",
        "},\"author\":\"",
    ];
    for text in texts {
        for author in texts {
            let m = message(text, MessageType::User, author);
            let back = decode(&encode(&m)).unwrap();
            assert_same(&m, &back);
        }
    }
}

#[test]
fn decode_reads_members_in_any_order() {
    let back = decode(r#"{"author":"Bob","msg_type":"Command","text":"/join Alice"}"#).unwrap();
    assert_same(&back, &message("/join Alice", MessageType::Command, "Bob"));
    let back = decode(r#"{"msg_type":{"UserSetup":"UsernameConfirmed"},"text":"n","author":""}"#)
        .unwrap();
    assert_same(
        &back,
        &message("n", MessageType::UserSetup(UserSetupType::UsernameConfirmed), ""),
    );
}

#[test]
fn decode_passes_over_space_between_tokens() {
    let line = " { \"text\" : \"hi\" ,\t\"msg_type\" : \"User\" , \"author\" : \"Alice\" } \r\n";
    assert_same(&decode(line).unwrap(), &message("hi", MessageType::User, "Alice"));
    let line = "{\"text\":\"\",\"msg_type\": { \"UserSetup\" : \"UsernameConfirmed\" },\"author\":\"\"}";
    assert_same(
        &decode(line).unwrap(),
        &message("", MessageType::UserSetup(UserSetupType::UsernameConfirmed), ""),
    );
}

#[test]
fn decode_reads_every_escape() {
    let line = r#"{"text":"\"\\\/\b\f\n\r\t\u0041\u00e9\u00E9","msg_type":"User","author":"\ud83d\ude00\uD83D\uDE00"}"#;
    let back = decode(line).unwrap();
    assert_eq!(back.text, "\"\\/\u{8}\u{c}\n\r\tA\u{e9}\u{e9}");
    assert_eq!(back.author, "\u{1F600}\u{1F600}");
}

#[test]
fn decode_reads_escaped_keys_and_kinds() {
    let line = r#"{"te\u0078t":"a","msg_type":"Us\u0065r","\u0061uthor":"b"}"#;
    assert_same(&decode(line).unwrap(), &message("a", MessageType::User, "b"));
}

#[test]
fn decode_refuses_what_is_no_object_of_members() {
    let lines = [
        "",
        "   ",
        "hello",
        "{",
        "}",
        "[]",
        "\"text\"",
        r#"{"text":"a","msg_type":"User","author":"b"}}"#,
        r#"{"text":"a","msg_type":"User","author":"b"} x"#,
        r#"{"text":"a","msg_type":"User","author":"b",}"#,
        r#"{"text":"a" "msg_type":"User","author":"b"}"#,
        r#"{"text" "a","msg_type":"User","author":"b"}"#,
        r#"{"text":"a","msg_type":"User","author":"b""#,
        r#"{"text":"a","msg_type":"User","author":"b}"#,
        r#"{"text":{"a":"b"},"msg_type":"User","author":"b"}"#,
        r#"{"text":"a","msg_type":"User","author":1}"#,
        r#"{"text":"a","msg_type":{"UserSetup":"UsernameConfirmed","x":"y"},"author":"b"}"#,
        r#"{"text":"a","msg_type":{"UserSetup"},"author":"b"}"#,
        r#"{"text":"a\qb","msg_type":"User","author":"b"}"#,
        r#"{"text":"a\u12","msg_type":"User","author":"b"}"#,
        r#"{"text":"a\u12G4","msg_type":"User","author":"b"}"#,
        r#"{"text":"\ud83d","msg_type":"User","author":"b"}"#,
        r#"{"text":"\ud83dx","msg_type":"User","author":"b"}"#,
        r#"{"text":"\ud83dA","msg_type":"User","author":"b"}"#,
        r#"{"text":"\ude00","msg_type":"User","author":"b"}"#,
        "{\"text\":\"a\nb\",\"msg_type\":\"User\",\"author\":\"b\"}",
        "{\"text\":\"a\u{1}b\",\"msg_type\":\"User\",\"author\":\"b\"}",
    ];
    for line in lines {
        assert_eq!(decode(line).err(), Some(DecodeError::Malformed), "{}", line);
    }
}

#[test]
fn decode_refuses_unknown_kind() {
    let line = r#"{"text":"a","msg_type":"Shout","author":"b"}"#;
    assert_eq!(decode(line).err(), Some(DecodeError::UnknownKind));
    let line = r#"{"text":"a","msg_type":"user","author":"b"}"#;
    assert_eq!(decode(line).err(), Some(DecodeError::UnknownKind));
    let line = r#"{"text":"a","msg_type":{"UserSetup":"Other"},"author":"b"}"#;
    assert_eq!(decode(line).err(), Some(DecodeError::UnknownKind));
    let line = r#"{"text":"a","msg_type":{"Setup":"UsernameConfirmed"},"author":"b"}"#;
    assert_eq!(decode(line).err(), Some(DecodeError::UnknownKind));
}

#[test]
fn decode_refuses_unknown_member() {
    let line = r#"{"text":"a","msg_type":"User","author":"b","extra":"c"}"#;
    assert_eq!(decode(line).err(), Some(DecodeError::UnknownField));
    let line = r#"{"Text":"a","msg_type":"User","author":"b"}"#;
    assert_eq!(decode(line).err(), Some(DecodeError::UnknownField));
}

#[test]
fn decode_refuses_member_that_stands_twice() {
    let line = r#"{"text":"a","text":"b","msg_type":"User","author":"b"}"#;
    assert_eq!(decode(line).err(), Some(DecodeError::DuplicateField));
    let line = r#"{"text":"a","msg_type":"User","msg_type":"User","author":"b"}"#;
    assert_eq!(decode(line).err(), Some(DecodeError::DuplicateField));
    let line = r#"{"author":"a","author":"b"}"#;
    assert_eq!(decode(line).err(), Some(DecodeError::DuplicateField));
}

#[test]
fn decode_refuses_missing_member() {
    assert_eq!(decode("{}").err(), Some(DecodeError::MissingField));
    assert_eq!(decode(r#"{"text":"a"}"#).err(), Some(DecodeError::MissingField));
    assert_eq!(
        decode(r#"{"text":"a","msg_type":"User"}"#).err(),
        Some(DecodeError::MissingField)
    );
    assert_eq!(
        decode(r#"{"author":"a","msg_type":"User"}"#).err(),
        Some(DecodeError::MissingField)
    );
}

#[test]
fn encoded_line_is_the_json_that_others_read() {
    let m = message("a\"b\\c\n\u{1}\u{e9}\u{1F600}", MessageType::Command, "Al\tice");
    let value: serde_json::Value = serde_json::from_str(&encode(&m)).unwrap();
    let object = value.as_object().unwrap();
    assert_eq!(object.len(), 3);
    assert_eq!(object.get("text").unwrap().as_str(), Some("a\"b\\c\n\u{1}\u{e9}\u{1F600}"));
    assert_eq!(object.get("msg_type").unwrap().as_str(), Some("Command"));
    assert_eq!(object.get("author").unwrap().as_str(), Some("Al\tice"));
    let m = message("n", MessageType::UserSetup(UserSetupType::UsernameConfirmed), "SYSTEM");
    let value: serde_json::Value = serde_json::from_str(&encode(&m)).unwrap();
    let kind = value.get("msg_type").unwrap().as_object().unwrap();
    assert_eq!(kind.len(), 1);
    assert_eq!(kind.get("UserSetup").unwrap().as_str(), Some("UsernameConfirmed"));
}

#[test]
fn quoted_text_is_what_others_write() {
    let texts = ["", "plain", "a\"b", "a\\b", "\n\r\t\u{8}\u{c}", "\u{0}\u{b}\u{1f}", "\u{7f}\u{e9}\u{1F600}"];
    for text in texts {
        let theirs = serde_json::to_string(text).unwrap();
        let ours = encode(&message(text, MessageType::User, ""));
        let expected = format!("{{\"text\":{},\"msg_type\":\"User\",\"author\":\"\"}}", theirs);
        assert_eq!(ours, expected);
    }
}

#[test]
fn decode_reads_the_json_that_others_write() {
    let mut object = serde_json::Map::new();
    object.insert("text".to_string(), serde_json::Value::String("hi \"you\"\n".to_string()));
    object.insert("msg_type".to_string(), serde_json::Value::String("SystemInfo".to_string()));
    object.insert("author".to_string(), serde_json::Value::String("SYSTEM".to_string()));
    let value = serde_json::Value::Object(object);
    let compact = serde_json::to_string(&value).unwrap();
    assert_same(&decode(&compact).unwrap(), &message("hi \"you\"\n", MessageType::SystemInfo, "SYSTEM"));
    let pretty = serde_json::to_string_pretty(&value).unwrap();
    assert_same(&decode(&pretty).unwrap(), &message("hi \"you\"\n", MessageType::SystemInfo, "SYSTEM"));
}

/// A text of `len` characters drawn from a few awkward ones, by a counter.
fn sample_text(seed: &mut u64, len: usize) -> String {
    let pool = [
        'a', 'Z', '0', ' ', '"', '\\', '/', '\n', '\r', '\t', '\u{0}', '\u{8}', '\u{c}', '\u{1b}',
        '\u{1f}', '\u{7f}', '{', '}', ':', ',', 'u', '\u{e9}', '\u{2028}', '\u{ffff}', '\u{1F600}',
    ];
    let mut text = String::new();
    for _ in 0..len {
        *seed = seed.wrapping_mul(6364136223846793005).wrapping_add(1442695040888963407);
        text.push(pool[(*seed >> 33) as usize % pool.len()]);
    }
    text
}

#[test]
fn many_lines_agree_with_what_others_read_and_write() {
    let kinds = [MessageType::SystemInfo, MessageType::User, MessageType::Command];
    let mut seed = 7u64;
    for round in 0..300usize {
        let text = sample_text(&mut seed, round % 9);
        let author = sample_text(&mut seed, round % 4);
        let kind = kinds[round % 3];
        let m = message(&text, kind, &author);
        let line = encode(&m);
        assert_same(&decode(&line).unwrap(), &m);
        let value: serde_json::Value = serde_json::from_str(&line).unwrap();
        assert_eq!(value.get("text").unwrap().as_str(), Some(text.as_str()));
        assert_eq!(value.get("author").unwrap().as_str(), Some(author.as_str()));
        let theirs = serde_json::to_string(&value).unwrap();
        assert_same(&decode(&theirs).unwrap(), &m);
    }
}

#[test]
fn line_splits_into_tokens() {
    let chars: Vec<char> = " {\"a\\n\" : ,}".chars().collect();
    let tokens = tokenize(&chars).unwrap();
    assert_eq!(tokens.len(), 5);
    assert!(matches!(tokens[0], Tok::Open));
    assert!(matches!(&tokens[1], Tok::Text(text) if text == "a\n"));
    assert!(matches!(tokens[2], Tok::Colon));
    assert!(matches!(tokens[3], Tok::Comma));
    assert!(matches!(tokens[4], Tok::Close));
    let chars: Vec<char> = "{ 1 }".chars().collect();
    assert!(tokenize(&chars).is_none());
    let chars: Vec<char> = "\"open".chars().collect();
    assert!(tokenize(&chars).is_none());
    assert!(tokenize(&Vec::new()).unwrap().is_empty());
}

#[test]
fn each_error_says_what_is_wrong() {
    assert_eq!(DecodeError::Malformed.describe(), "the line is no object of members");
    assert_eq!(
        DecodeError::UnknownField.describe(),
        "a member is none of text, msg_type and author"
    );
    assert_eq!(DecodeError::DuplicateField.describe(), "a member stands twice");
    assert_eq!(DecodeError::UnknownKind.describe(), "msg_type names no message kind");
    assert_eq!(DecodeError::MissingField.describe(), "a member is missing");
}
