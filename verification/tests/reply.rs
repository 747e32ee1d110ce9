use cluster_session::reply::Reply;
use redis::{from_redis_value, Value};

fn value_of(reply: &Reply) -> Value {
    match reply {
        Reply::Nil => Value::Nil,
        Reply::Int(number) => Value::Int(*number),
        Reply::Data(bytes) => Value::Data(bytes.clone()),
        Reply::Bulk(members) => Value::Bulk(members.iter().map(value_of).collect()),
        Reply::Status(line) => Value::Status(line.clone()),
        Reply::Okay => Value::Okay,
    }
}

fn samples() -> Vec<Reply> {
    vec![
        Reply::Nil,
        Reply::Int(0),
        Reply::Int(1),
        Reply::Int(-1),
        Reply::Int(i64::MIN),
        Reply::Okay,
        Reply::Status(String::new()),
        Reply::Status("0".to_string()),
        Reply::Status("1".to_string()),
        Reply::Status("QUEUED".to_string()),
        Reply::Status(" 5".to_string()),
        Reply::Status("+5".to_string()),
        Reply::Data(Vec::new()),
        Reply::Data(b"0".to_vec()),
        Reply::Data(b"1".to_vec()),
        Reply::Data(b"01".to_vec()),
        Reply::Data(b"-12".to_vec()),
        Reply::Data(b"+12".to_vec()),
        Reply::Data(b"-".to_vec()),
        Reply::Data(b"+".to_vec()),
        Reply::Data(b"-0".to_vec()),
        Reply::Data(b"+-1".to_vec()),
        Reply::Data(b"12 ".to_vec()),
        Reply::Data(b"1e3".to_vec()),
        Reply::Data(b"1.0".to_vec()),
        Reply::Data(b"00000000000000000000000000000000000012".to_vec()),
        Reply::Data(b"-9223372036854775808".to_vec()),
        Reply::Data(b"-9223372036854775809".to_vec()),
        Reply::Data(b"99999999999999999999999999".to_vec()),
        Reply::Data("\u{663}".as_bytes().to_vec()),
        Reply::Data("\u{ff11}".as_bytes().to_vec()),
        Reply::Status("-".to_string()),
        Reply::Status("-42".to_string()),
        Reply::Status("4\u{0}2".to_string()),
        Reply::Data(b"9223372036854775807".to_vec()),
        Reply::Data(b"9223372036854775808".to_vec()),
        Reply::Data(b"sess1".to_vec()),
        Reply::Data("gr\u{fc}n".as_bytes().to_vec()),
        Reply::Data(vec![0xc3]),
        Reply::Data(vec![0xed, 0xa0, 0x80]),
        Reply::Data(vec![0xc0, 0xaf]),
        Reply::Data(vec![0xf4, 0x90, 0x80, 0x80]),
        Reply::Bulk(Vec::new()),
        Reply::Bulk(vec![Reply::Data(b"a".to_vec()), Reply::Data(b"b".to_vec())]),
        Reply::Bulk(vec![Reply::Data(b"a".to_vec()), Reply::Nil]),
        Reply::Bulk(vec![Reply::Status("s".to_string()), Reply::Okay]),
        Reply::Bulk(vec![Reply::Data(vec![0xff])]),
        Reply::Bulk(vec![Reply::Int(4)]),
        Reply::Bulk(vec![Reply::Bulk(vec![Reply::Data(b"a".to_vec())])]),
    ]
}

#[test]
fn text_is_read_as_the_client_reads_a_string() {
    for reply in samples() {
        let expected: Option<String> = from_redis_value(&value_of(&reply)).ok();
        assert_eq!(reply.read_text(), expected, "{:?}", reply);
    }
}

#[test]
fn flag_is_read_as_the_client_reads_a_bool() {
    for reply in samples() {
        let expected: Option<bool> = from_redis_value(&value_of(&reply)).ok();
        assert_eq!(reply.read_flag(), expected, "{:?}", reply);
    }
}

#[test]
fn number_is_read_as_the_client_reads_an_integer() {
    for reply in samples() {
        let expected: Option<i64> = from_redis_value(&value_of(&reply)).ok();
        assert_eq!(reply.read_number(), expected, "{:?}", reply);
    }
}

#[test]
fn texts_are_read_as_the_client_reads_a_list_of_strings() {
    for reply in samples() {
        let expected: Option<Vec<String>> = from_redis_value(&value_of(&reply)).ok();
        assert_eq!(reply.read_texts(), expected, "{:?}", reply);
    }
}

#[test]
fn text_exact_values() {
    assert_eq!(Reply::Data(b"abc".to_vec()).read_text(), Some("abc".to_string()));
    assert_eq!(Reply::Data(Vec::new()).read_text(), Some(String::new()));
    assert_eq!(Reply::Okay.read_text(), Some("OK".to_string()));
    assert_eq!(Reply::Status("x".to_string()).read_text(), Some("x".to_string()));
    assert_eq!(Reply::Nil.read_text(), None);
    assert_eq!(Reply::Int(1).read_text(), None);
    assert_eq!(Reply::Data(vec![0x61, 0xff]).read_text(), None);
}

#[test]
fn flag_exact_values() {
    assert_eq!(Reply::Nil.read_flag(), Some(false));
    assert_eq!(Reply::Int(2).read_flag(), Some(true));
    assert_eq!(Reply::Data(b"1".to_vec()).read_flag(), Some(true));
    assert_eq!(Reply::Data(b"0".to_vec()).read_flag(), Some(false));
    assert_eq!(Reply::Data(b"10".to_vec()).read_flag(), None);
    assert_eq!(Reply::Bulk(Vec::new()).read_flag(), None);
}

#[test]
fn number_exact_values() {
    assert_eq!(Reply::Int(-9).read_number(), Some(-9));
    assert_eq!(Reply::Data(b"123".to_vec()).read_number(), Some(123));
    assert_eq!(Reply::Status("-123".to_string()).read_number(), Some(-123));
    assert_eq!(Reply::Data(b"12a".to_vec()).read_number(), None);
    assert_eq!(Reply::Nil.read_number(), None);
}

#[test]
fn texts_exact_values() {
    assert_eq!(Reply::Nil.read_texts(), Some(Vec::new()));
    assert_eq!(Reply::Data(b"k".to_vec()).read_texts(), Some(vec!["k".to_string()]));
    assert_eq!(
        Reply::Bulk(vec![Reply::Data(b"k1".to_vec()), Reply::Data(b"k2".to_vec())]).read_texts(),
        Some(vec!["k1".to_string(), "k2".to_string()])
    );
    assert_eq!(Reply::Bulk(vec![Reply::Int(1)]).read_texts(), None);
    assert_eq!(Reply::Int(1).read_texts(), None);
}
