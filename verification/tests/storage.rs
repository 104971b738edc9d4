use klldap::schema::{AttributeType, PublicSchema};
use klldap::storage::{
    attribute_value_to_db_bytes, deserialize_attribute, deserialize_attribute_value, first_number_candidate,
    is_backend_writable_readonly_attribute, next_number_candidate, number_taken_error, posix_creation_checks,
    NumberSearch, PosixCheck,
};
use klldap::types::{Attribute, AttributeName, AttributeValue, Cardinality, DateTime, Serialized};

fn text(s: &str) -> AttributeValue {
    AttributeValue::String(Cardinality::Singleton(s.to_string()))
}

#[test]
fn single_text_reads_back() {
    let v = text("héllo");
    let bytes = attribute_value_to_db_bytes(&v);
    assert_eq!(bytes, "héllo".as_bytes());
    let back = deserialize_attribute_value(&Serialized(bytes), AttributeType::String, false);
    assert_eq!(back, v);
}

#[test]
fn single_integer_reads_back() {
    for i in [0i64, 42, -7, i64::MIN, i64::MAX] {
        let v = AttributeValue::Integer(Cardinality::Singleton(i));
        let bytes = attribute_value_to_db_bytes(&v);
        assert_eq!(bytes, i.to_string().into_bytes());
        let back = deserialize_attribute_value(&Serialized(bytes), AttributeType::Integer, false);
        assert_eq!(back, v);
    }
}

#[test]
fn text_list_is_stored_as_json() {
    let v = AttributeValue::String(Cardinality::Unbounded(vec!["a\"b".to_string(), "c\n".to_string()]));
    let bytes = attribute_value_to_db_bytes(&v);
    assert_eq!(String::from_utf8(bytes.clone()).unwrap(), "[\"a\\\"b\",\"c\\n\"]");
    let back = deserialize_attribute_value(&Serialized(bytes), AttributeType::String, true);
    assert_eq!(back, v);
}

#[test]
fn text_list_from_plain_bytes_is_one_text() {
    let back = deserialize_attribute_value(&Serialized(b"plain".to_vec()), AttributeType::String, true);
    assert_eq!(back, AttributeValue::String(Cardinality::Unbounded(vec!["plain".to_string()])));
}

#[test]
fn date_is_stored_as_seconds() {
    let v = AttributeValue::DateTime(Cardinality::Singleton(DateTime { secs: 1700000000, nanos: 5 }));
    assert_eq!(attribute_value_to_db_bytes(&v), b"1700000000".to_vec());
}

#[test]
fn bad_integer_reads_as_zero() {
    let back = deserialize_attribute_value(&Serialized(b"12x".to_vec()), AttributeType::Integer, false);
    assert_eq!(back, AttributeValue::Integer(Cardinality::Singleton(0)));
}

#[test]
fn unknown_attribute_is_an_error() {
    let schema = PublicSchema::get();
    let e = deserialize_attribute(AttributeName::new("nosuch"), &Serialized(b"x".to_vec()), schema.user_attributes())
        .unwrap_err();
    assert_eq!(e, "Unable to find schema for attribute named 'nosuch'");
}

#[test]
fn backend_writable_names() {
    assert!(is_backend_writable_readonly_attribute("ou"));
    assert!(is_backend_writable_readonly_attribute("kerberossync"));
    assert!(!is_backend_writable_readonly_attribute("mail"));
}

#[test]
fn posix_numbers_out_of_range() {
    let attrs = vec![
        Attribute { name: AttributeName::new("uidnumber"), value: AttributeValue::Integer(Cardinality::Singleton(5)) },
        Attribute { name: AttributeName::new("gidnumber"), value: AttributeValue::Integer(Cardinality::Singleton(4000)) },
    ];
    let checks = posix_creation_checks(&attrs);
    assert_eq!(checks.len(), 1);
    assert!(matches!(&checks[0], PosixCheck::Invalid(m) if m == "uidnumber must be between 3000 and 60000"));

    let attrs = vec![Attribute {
        name: AttributeName::new("gidnumber"),
        value: AttributeValue::Integer(Cardinality::Singleton(4000)),
    }];
    let checks = posix_creation_checks(&attrs);
    assert!(matches!(&checks[0], PosixCheck::Taken(n, 4000) if n == "gidnumber"));
}

#[test]
fn posix_number_search() {
    assert!(matches!(first_number_candidate("uidNumber", 3000, 3001), NumberSearch::Check(3000)));
    assert!(matches!(first_number_candidate("uidNumber", 5, 4), NumberSearch::Exhausted(m) if m == "uidNumber start (5) > max (4)"));
    assert!(matches!(next_number_candidate("uidNumber", 3000, 3001, 3000), NumberSearch::Check(3001)));
    assert!(matches!(next_number_candidate("gidNumber", 3000, 3001, 3001),
        NumberSearch::Exhausted(m) if m == "No available gidNumber in range 3000-3001 (all taken)"));
    assert_eq!(number_taken_error(3000), "Number 3000 is already assigned to another user/group");
}

#[test]
fn avatar_texts_errors() {
    let bad = vec!["not base64!".to_string()];
    assert_eq!(
        klldap::deserialize::deserialize_attribute_value(&bad, AttributeType::Avatar, false),
        Err("Invalid base64 data for avatar".to_string())
    );
    let not_picture = vec!["aGVsbG8=".to_string()];
    assert_eq!(
        klldap::deserialize::deserialize_attribute_value(&not_picture, AttributeType::Avatar, false),
        Err("Failed to process avatar".to_string())
    );
    let empty = vec![String::new()];
    assert!(klldap::deserialize::deserialize_attribute_value(&empty, AttributeType::Avatar, true).is_ok());
}
