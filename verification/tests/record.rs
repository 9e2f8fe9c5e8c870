use client_data::data::Data;
use client_data::text::{clone_text, text, to_chars};
use std::borrow::Cow;

fn sample() -> Data {
    Data {
        base: Cow::Borrowed("https://example.test"),
        client_id: Cow::Borrowed("id123"),
        client_secret: Cow::Borrowed("s3cr3t"),
        redirect: Cow::Borrowed("https://example.test/cb"),
        token: Cow::Borrowed("tok-abc"),
    }
}

#[test]
fn default_has_five_empty_fields() {
    let d = Data::default();
    assert_eq!(d.base, "");
    assert_eq!(d.client_id, "");
    assert_eq!(d.client_secret, "");
    assert_eq!(d.redirect, "");
    assert_eq!(d.token, "");
}

#[test]
fn default_borrows_its_empty_strings() {
    let d = Data::default();
    assert!(matches!(d.base, Cow::Borrowed(_)));
    assert!(matches!(d.token, Cow::Borrowed(_)));
}

#[test]
fn default_equals_itself_and_another_default() {
    let a = Data::default();
    let b = Data::default();
    assert!(a == a);
    assert_eq!(a, b);
    assert_eq!(b, a);
}

#[test]
fn equal_fields_make_equal_records() {
    assert_eq!(sample(), sample());
}

#[test]
fn borrowed_and_owned_text_compare_equal() {
    let borrowed = sample();
    let owned = Data {
        base: Cow::Owned(String::from("https://example.test")),
        client_id: Cow::Owned(String::from("id123")),
        client_secret: Cow::Owned(String::from("s3cr3t")),
        redirect: Cow::Owned(String::from("https://example.test/cb")),
        token: Cow::Owned(String::from("tok-abc")),
    };
    assert_eq!(borrowed, owned);
}

#[test]
fn one_character_in_base_breaks_equality() {
    let mut other = sample();
    other.base = Cow::Borrowed("https://example.tesu");
    assert_ne!(sample(), other);
}

#[test]
fn one_character_in_client_id_breaks_equality() {
    let mut other = sample();
    other.client_id = Cow::Borrowed("id124");
    assert_ne!(sample(), other);
}

#[test]
fn one_character_in_client_secret_breaks_equality() {
    let mut other = sample();
    other.client_secret = Cow::Borrowed("s3cr3T");
    assert_ne!(sample(), other);
}

#[test]
fn one_character_in_redirect_breaks_equality() {
    let mut other = sample();
    other.redirect = Cow::Borrowed("https://example.test/cc");
    assert_ne!(sample(), other);
}

#[test]
fn one_character_in_token_breaks_equality() {
    let mut other = sample();
    other.token = Cow::Borrowed("tok-abd");
    assert_ne!(sample(), other);
}

#[test]
fn one_more_character_breaks_equality() {
    let mut other = sample();
    other.token = Cow::Owned(String::from("tok-abc "));
    assert_ne!(sample(), other);
    assert_ne!(Data::default(), Data { token: Cow::Borrowed(" "), ..Data::default() });
}

#[test]
fn swapped_field_values_break_equality() {
    let a = Data { base: Cow::Borrowed("x"), ..Data::default() };
    let b = Data { client_id: Cow::Borrowed("x"), ..Data::default() };
    assert_ne!(a, b);
}

#[test]
fn clone_is_equal_and_keeps_static_text_borrowed() {
    let mut d = sample();
    d.token = Cow::Owned(String::from("fresh"));
    let c = d.clone();
    assert_eq!(c, d);
    assert!(matches!(c.base, Cow::Borrowed(_)));
    assert!(matches!(c.token, Cow::Owned(_)));
    assert_eq!(c.token, "fresh");
}

#[test]
fn a_field_can_be_assigned() {
    let mut d = Data::default();
    d.token = Cow::Owned(String::from("new-token"));
    assert_eq!(d.token, "new-token");
    assert_ne!(d, Data::default());
}

#[test]
fn describe_lists_the_exposed_names() {
    assert_eq!(Data::describe(), vec!["base", "client_id", "redirect"]);
}

#[test]
fn describe_does_not_name_the_secrets() {
    let names = Data::describe();
    assert!(!names.contains(&"client_secret"));
    assert!(!names.contains(&"token"));
}

#[test]
fn project_example() {
    let r = sample();
    let shown = r.project();
    assert_eq!(
        shown,
        vec![
            ("base", "https://example.test"),
            ("client_id", "id123"),
            ("redirect", "https://example.test/cb"),
        ]
    );
    for (name, value) in shown.iter() {
        assert!(!name.contains("s3cr3t") && !name.contains("tok-abc"));
        assert!(!value.contains("s3cr3t") && !value.contains("tok-abc"));
    }
    let printed = format!("{:?}", shown);
    assert!(!printed.contains("s3cr3t"));
    assert!(!printed.contains("tok-abc"));
}

#[test]
fn project_of_default_shows_three_empty_values() {
    assert_eq!(
        Data::default().project(),
        vec![("base", ""), ("client_id", ""), ("redirect", "")]
    );
}

#[test]
fn project_names_are_the_described_names() {
    let described = Data::describe();
    for r in [Data::default(), sample()] {
        let names: Vec<&str> = r.project().iter().map(|e| e.0).collect();
        assert_eq!(names, described);
    }
}

#[test]
fn project_goes_by_field_not_by_content() {
    let r = Data {
        base: Cow::Borrowed("same"),
        client_id: Cow::Borrowed("id"),
        client_secret: Cow::Borrowed("same"),
        redirect: Cow::Borrowed("cb"),
        token: Cow::Borrowed("id"),
    };
    assert_eq!(r.project(), vec![("base", "same"), ("client_id", "id"), ("redirect", "cb")]);
}

#[test]
fn project_does_not_depend_on_the_secrets() {
    let a = sample();
    let mut b = sample();
    b.client_secret = Cow::Borrowed("another secret");
    b.token = Cow::Borrowed("");
    assert_eq!(a.project(), b.project());
}

#[test]
fn project_reads_the_current_values() {
    let mut r = sample();
    r.redirect = Cow::Owned(String::from("urn:ietf:wg:oauth:2.0:oob"));
    assert_eq!(r.project()[2], ("redirect", "urn:ietf:wg:oauth:2.0:oob"));
    assert_eq!(r.project().len(), 3);
}

#[test]
fn text_borrows_either_kind() {
    assert_eq!(text(&Cow::Borrowed("static")), "static");
    assert_eq!(text(&Cow::Owned(String::from("owned"))), "owned");
    assert_eq!(text(&Cow::Borrowed("")), "");
}

#[test]
fn clone_text_keeps_the_kind() {
    let b = clone_text(&Cow::Borrowed("static"));
    assert!(matches!(b, Cow::Borrowed("static")));
    let o = clone_text(&Cow::Owned(String::from("owned")));
    assert!(matches!(o, Cow::Owned(_)));
    assert_eq!(o, "owned");
}

#[test]
fn to_chars_gives_the_characters_in_order() {
    assert_eq!(to_chars(""), Vec::<char>::new());
    assert_eq!(to_chars("a=b"), vec!['a', '=', 'b']);
    assert_eq!(to_chars("h\u{e9}\u{1F600}"), vec!['h', '\u{e9}', '\u{1F600}']);
}
