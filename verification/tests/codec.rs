use client_data::codec::DecodeError;
use client_data::data::Data;
use std::borrow::Cow;

fn record(base: &str, client_id: &str, client_secret: &str, redirect: &str, token: &str) -> Data {
    Data {
        base: Cow::Owned(String::from(base)),
        client_id: Cow::Owned(String::from(client_id)),
        client_secret: Cow::Owned(String::from(client_secret)),
        redirect: Cow::Owned(String::from(redirect)),
        token: Cow::Owned(String::from(token)),
    }
}

fn example() -> Data {
    record("https://example.test", "id123", "s3cr3t", "https://example.test/cb", "tok-abc")
}

#[test]
fn serialize_writes_one_named_line_per_field() {
    assert_eq!(
        example().serialize(),
        "base=https://example.test\nclient_id=id123\nclient_secret=s3cr3t\nredirect=https://example.test/cb\ntoken=tok-abc\n"
    );
}

#[test]
fn serialize_of_default() {
    assert_eq!(
        Data::default().serialize(),
        "base=\nclient_id=\nclient_secret=\nredirect=\ntoken=\n"
    );
}

#[test]
fn serialize_escapes_backslash_and_line_feed() {
    let r = record("a\\b", "two\nlines", "\\n", "x=y", "\n\\");
    assert_eq!(
        r.serialize(),
        "base=a\\\\b\nclient_id=two\\nlines\nclient_secret=\\\\n\nredirect=x=y\ntoken=\\n\\\\\n"
    );
}

#[test]
fn round_trip_of_the_example() {
    let r = example();
    assert_eq!(Data::deserialize(&r.serialize()), Ok(r));
}

#[test]
fn round_trip_of_default() {
    let r = Data::default();
    assert_eq!(Data::deserialize(&r.serialize()), Ok(Data::default()));
}

#[test]
fn round_trip_of_some_empty_fields() {
    let r = record("", "id", "", "", "t");
    assert_eq!(Data::deserialize(&r.serialize()), Ok(r));
}

#[test]
fn round_trip_of_awkward_values() {
    let values = [
        "\n",
        "\\",
        "\\n",
        "\\\\",
        "\n\n",
        "=",
        "a=b=c",
        "token=x\nbase=y",
        "ends with backslash\\",
        "\r\n",
        " leading and trailing ",
        "\t",
        "h\u{e9}llo \u{4e16}\u{754c} \u{1F600}",
        "\u{0}",
    ];
    for a in values {
        for b in values {
            let r = record(a, b, a, b, a);
            assert_eq!(Data::deserialize(&r.serialize()), Ok(r));
        }
    }
}

#[test]
fn round_trip_keeps_fields_apart() {
    let r = record("1", "2", "3", "4", "5");
    let back = Data::deserialize(&r.serialize()).unwrap();
    assert_eq!(back.base, "1");
    assert_eq!(back.client_id, "2");
    assert_eq!(back.client_secret, "3");
    assert_eq!(back.redirect, "4");
    assert_eq!(back.token, "5");
}

#[test]
fn deserialize_reads_lines_in_any_order() {
    let text = "token=tok-abc\nredirect=https://example.test/cb\nbase=https://example.test\nclient_secret=s3cr3t\nclient_id=id123\n";
    assert_eq!(Data::deserialize(text), Ok(example()));
}

#[test]
fn deserialize_unescapes_values() {
    let text = "base=a\\\\b\nclient_id=two\\nlines\nclient_secret=\\\\n\nredirect=x=y\ntoken=\n";
    assert_eq!(Data::deserialize(text), Ok(record("a\\b", "two\nlines", "\\n", "x=y", "")));
}

#[test]
fn deserialize_passes_over_other_names() {
    let text = "version=2\nbase=b\nclient_id=c\nclient_secret=s\n=nameless\nredirect=r\ntoken=t\nBase=upper\n";
    assert_eq!(Data::deserialize(text), Ok(record("b", "c", "s", "r", "t")));
}

#[test]
fn deserialize_without_token_is_refused() {
    let text = "base=https://example.test\nclient_id=id123\nclient_secret=s3cr3t\nredirect=https://example.test/cb\n";
    assert_eq!(Data::deserialize(text), Err(DecodeError::MissingField));
}

#[test]
fn deserialize_without_any_one_field_is_refused() {
    let lines = ["base=b\n", "client_id=c\n", "client_secret=s\n", "redirect=r\n", "token=t\n"];
    for skip in 0..lines.len() {
        let mut text = String::new();
        for (i, line) in lines.iter().enumerate() {
            if i != skip {
                text.push_str(line);
            }
        }
        assert_eq!(Data::deserialize(&text), Err(DecodeError::MissingField));
    }
}

#[test]
fn deserialize_of_empty_text_is_refused() {
    assert_eq!(Data::deserialize(""), Err(DecodeError::MissingField));
}

#[test]
fn deserialize_of_a_field_given_twice_is_refused() {
    let text = "base=b\nclient_id=c\nclient_secret=s\nredirect=r\ntoken=t\ntoken=t\n";
    assert_eq!(Data::deserialize(text), Err(DecodeError::DuplicateField));
    let text = "base=one\nbase=two\n";
    assert_eq!(Data::deserialize(text), Err(DecodeError::DuplicateField));
}

#[test]
fn deserialize_of_an_unfinished_line_is_refused() {
    let text = "base=b\nclient_id=c\nclient_secret=s\nredirect=r\ntoken=t";
    assert_eq!(Data::deserialize(text), Err(DecodeError::Malformed));
}

#[test]
fn deserialize_of_a_line_without_equals_sign_is_refused() {
    let text = "base=b\nclient_id=c\nclient_secret=s\nredirect=r\ntoken=t\nnoise\n";
    assert_eq!(Data::deserialize(text), Err(DecodeError::Malformed));
    assert_eq!(Data::deserialize("\n"), Err(DecodeError::Malformed));
}

#[test]
fn deserialize_of_a_broken_escape_is_refused() {
    let text = "base=b\\t\nclient_id=c\nclient_secret=s\nredirect=r\ntoken=t\n";
    assert_eq!(Data::deserialize(text), Err(DecodeError::Malformed));
    let text = "base=b\nclient_id=c\nclient_secret=s\nredirect=r\ntoken=t\\\n";
    assert_eq!(Data::deserialize(text), Err(DecodeError::Malformed));
}

#[test]
fn malformed_text_is_reported_before_repeated_or_absent_fields() {
    assert_eq!(Data::deserialize("base=1\nbase=2\nbroken"), Err(DecodeError::Malformed));
    assert_eq!(Data::deserialize("base=1\nbroken\n"), Err(DecodeError::Malformed));
}

#[test]
fn a_repeated_field_is_reported_before_an_absent_one() {
    assert_eq!(Data::deserialize("token=1\ntoken=2\n"), Err(DecodeError::DuplicateField));
}

#[test]
fn decode_errors_compare_by_kind() {
    assert_eq!(DecodeError::Malformed, DecodeError::Malformed);
    assert_ne!(DecodeError::Malformed, DecodeError::MissingField);
    assert_ne!(DecodeError::DuplicateField, DecodeError::MissingField);
}
