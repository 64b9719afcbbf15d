use save_trim::codec::checked_stream;
use save_trim::codec::decode;
use save_trim::codec::decode_text;
use save_trim::codec::encode;
use save_trim::codec::encode_text;
use save_trim::codec::frame;
use save_trim::codec::same_bytes;
use save_trim::codec::unframe;
use save_trim::error::DecodeError;
use save_trim::error::EncodeError;
use save_trim::json::Json;

const INFINITY: &str = "0852cefd0e445e0228605787a763fe79d75bb4ad92c32a78d43b8aed";

// "Hello World!" as a gzip stream with a stored block.
const HELLO: [u8; 35] = [
    31, 139, 8, 0, 123, 0, 0, 0, 0, 3, 1, 12, 0, 243, 255, 72, 101, 108, 108, 111, 32, 87, 111,
    114, 108, 100, 33, 163, 28, 41, 28, 12, 0, 0, 0,
];

fn number(n: u64) -> Json {
    Json::Number(serde_json::Number::from(n))
}

fn object(members: Vec<(&str, Json)>) -> Json {
    Json::Object(members.into_iter().map(|(k, v)| (k.to_string(), v)).collect())
}

fn text(bytes: Vec<u8>) -> String {
    String::from_utf8(bytes).unwrap()
}

#[test]
fn decode_text_reads_every_kind_of_value() {
    let doc = decode_text(b"{\"z\": [1, -2, 2.5, true, null, \"s\"], \"a\": {}}").unwrap();
    let expected = object(vec![
        (
            "z",
            Json::Array(vec![
                number(1),
                Json::Number(serde_json::Number::from(-2i64)),
                Json::Number(serde_json::Number::from_f64(2.5).unwrap()),
                Json::Bool(true),
                Json::Null,
                Json::String("s".to_string()),
            ]),
        ),
        ("a", object(vec![])),
    ]);
    assert_eq!(doc, expected);
}

#[test]
fn decode_text_reads_a_literal_as_its_placeholder() {
    let doc = decode_text(b"{\"a\": Infinity}").unwrap();
    assert_eq!(doc, object(vec![("a", Json::String(INFINITY.to_string()))]));
}

#[test]
fn decode_text_refuses_a_literal_without_the_lead() {
    assert_eq!(
        decode_text(b"{\"a\":Infinity}"),
        Err(DecodeError::Malformed("expected value at line 1 column 6".to_string()))
    );
    assert!(matches!(decode_text(b"[NaN]"), Err(DecodeError::Malformed(_))));
}

#[test]
fn decode_text_keeps_the_parsers_position() {
    assert_eq!(
        decode_text(b"{\n  \"a\": 1,\n  oops\n}"),
        Err(DecodeError::Malformed("key must be a string at line 3 column 3".to_string()))
    );
    assert_eq!(
        decode_text(b""),
        Err(DecodeError::Malformed("EOF while parsing a value at line 1 column 0".to_string()))
    );
}

#[test]
fn decode_text_refuses_bytes_that_are_no_text() {
    assert!(matches!(decode_text(b"\"\xff\""), Err(DecodeError::Malformed(_))));
}

#[test]
fn encode_text_prints_members_in_their_order() {
    let doc = object(vec![
        ("zeta", number(1)),
        ("alpha", Json::Array(vec![Json::Bool(false), Json::Null])),
        ("mid", object(vec![("k", Json::String("v".to_string()))])),
        ("none", Json::Array(vec![])),
    ]);
    let expected = "{\n  \"zeta\": 1,\n  \"alpha\": [\n    false,\n    null\n  ],\n  \"mid\": {\n    \"k\": \"v\"\n  },\n  \"none\": []\n}";
    assert_eq!(text(encode_text(&doc).unwrap()), expected);
}

#[test]
fn literals_come_back_as_they_were() {
    let input = b"{\"a\": Infinity, \"b\": -Infinity, \"c\": NaN, \"d\": [1, 2.5, \"x\"], \"e\": {\"f\": null}}";
    let doc = decode_text(input).unwrap();
    let expected = "{\n  \"a\": Infinity,\n  \"b\": -Infinity,\n  \"c\": NaN,\n  \"d\": [\n    1,\n    2.5,\n    \"x\"\n  ],\n  \"e\": {\n    \"f\": null\n  }\n}";
    let output = encode_text(&doc).unwrap();
    assert_eq!(text(output.clone()), expected);
    let again = decode_text(&output).unwrap();
    assert_eq!(again, doc);
}

#[test]
fn unframe_reads_a_gzip_stream() {
    assert_eq!(unframe(&HELLO, true), Ok(b"Hello World!".to_vec()));
    assert_eq!(unframe(&HELLO, false), Ok(HELLO.to_vec()));
}

#[test]
fn unframe_refuses_what_is_no_gzip_stream() {
    assert!(matches!(unframe(b"{\"a\": 1}", true), Err(DecodeError::Compression(_))));
    assert!(matches!(unframe(b"", true), Err(DecodeError::Compression(_))));
    let mut damaged = HELLO.to_vec();
    damaged[20] ^= 1;
    assert!(matches!(unframe(&damaged, true), Err(DecodeError::Compression(_))));
    assert!(matches!(decode(b"{\"a\": 1}", true), Err(DecodeError::Compression(_))));
}

#[test]
fn frame_makes_a_stream_that_holds_the_text() {
    let plain = b"{\n  \"a\": [\n    1,\n    1,\n    1,\n    1\n  ]\n}".to_vec();
    let stream = frame(plain.clone(), true).unwrap();
    assert_ne!(stream, plain);
    assert_eq!(&stream[..3], &[31, 139, 8]);
    assert_eq!(unframe(&stream, true), Ok(plain.clone()));
    assert_eq!(frame(plain.clone(), false), Ok(plain));
}

#[test]
fn checked_stream_hands_on_only_a_stream_that_holds_the_text() {
    assert_eq!(checked_stream(b"Hello World!", Ok(HELLO.to_vec())), Ok(HELLO.to_vec()));
    assert!(matches!(
        checked_stream(b"Hello World?", Ok(HELLO.to_vec())),
        Err(EncodeError::Compression(_))
    ));
    assert!(matches!(
        checked_stream(b"Hello World!", Ok(b"no stream".to_vec())),
        Err(EncodeError::Compression(_))
    ));
    assert_eq!(
        checked_stream(b"Hello World!", Err("disk full".to_string())),
        Err(EncodeError::Compression("disk full".to_string()))
    );
}

#[test]
fn same_bytes_compares_length_and_content() {
    assert!(same_bytes(b"abc", b"abc"));
    assert!(same_bytes(b"", b""));
    assert!(!same_bytes(b"abc", b"abd"));
    assert!(!same_bytes(b"abc", b"ab"));
    assert!(!same_bytes(b"", b"a"));
}

#[test]
fn decode_and_encode_go_through_the_framing() {
    let doc = object(vec![("a", Json::String(INFINITY.to_string()))]);
    let plain = encode(&doc, false).unwrap();
    assert_eq!(text(plain.clone()), "{\n  \"a\": Infinity\n}");
    let stream = encode(&doc, true).unwrap();
    assert_eq!(unframe(&stream, true), Ok(plain.clone()));
    assert_eq!(decode(&stream, true), Ok(doc));
    assert_eq!(decode(&plain, false), decode(&stream, true));
}
