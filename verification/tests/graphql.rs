use klldap::graphql::{deserialize_attribute, extract_kerberos_sync, validate_ssh_public_key, AttributeValue};
use klldap::graphql_mutation::{consolidate_attributes, unpack_attributes};
use klldap::graphql_query::{
    get_hardcoded_group_details_value, get_hardcoded_group_value, get_hardcoded_user_value, group_attributes_from_schema,
    serialize_attribute_to_graphql, user_attributes_from_schema,
};
use klldap::graphql_schema::{extra_ldap_object_classes, ldap_object_classes, ObjectClassInfo};
use klldap::schema::PublicSchema;
use klldap::types::{
    Attribute, AttributeName, AttributeValue as DomainValue, Avatar, Cardinality, DateTime, Email, Group, GroupDetails,
    GroupId, GroupName, LdapObjectClass, User, UserId, Uuid,
};

fn graphql_value(name: &str, vals: &[&str]) -> AttributeValue {
    AttributeValue { name: name.to_string(), value: vals.iter().map(|s| s.to_string()).collect() }
}

fn date() -> DateTime {
    DateTime { secs: 42, nanos: 0 }
}

fn bob() -> User {
    User {
        user_id: UserId::new("bob"),
        email: Email::new("bob@example.com"),
        display_name: None,
        creation_date: date(),
        uuid: Uuid("u-1".to_string()),
        attributes: vec![],
        modified_date: DateTime { secs: 43, nanos: 0 },
        password_modified_date: DateTime { secs: 44, nanos: 0 },
        krb_principal_name: None,
    }
}

#[test]
fn ssh_key_checks() {
    assert!(validate_ssh_public_key("ssh-ed25519 AAAAC3Nza bob@host").is_ok());
    assert_eq!(validate_ssh_public_key("   ").unwrap_err(), "SSH public key cannot be empty");
    assert_eq!(
        validate_ssh_public_key(" rsa-key AAAA").unwrap_err(),
        "Invalid SSH public key format. Expected to start with ssh-, ecdsa-, sk-, or ssh-ed25519. Got: 'rsa-key'"
    );
    assert_eq!(validate_ssh_public_key("ssh-rsa").unwrap_err(), "Invalid SSH public key: missing space after key type");
    let long = format!("ssh-rsa {}", "A".repeat(5000));
    assert_eq!(validate_ssh_public_key(&long).unwrap_err(), "SSH public key is too long (max 4096 characters)");
}

#[test]
fn graphql_attributes_are_read_by_schema() {
    let schema = PublicSchema::get();
    let list = schema.user_attributes();
    let a = deserialize_attribute(list, graphql_value("first_name", &["Bob"]), false).unwrap();
    assert_eq!(a.name.as_str(), "firstname");
    assert_eq!(a.value, DomainValue::String(Cardinality::Singleton("Bob".to_string())));
    let e = deserialize_attribute(list, graphql_value("nosuch", &["x"]), true).unwrap_err();
    assert_eq!(e, "Attribute nosuch is not defined in the schema");
    let e = deserialize_attribute(list, graphql_value("uuid", &["x"]), true).unwrap_err();
    assert_eq!(e, "Permission denied: Attribute uuid is read-only");
    let e = deserialize_attribute(list, graphql_value("uidnumber", &["3000"]), false).unwrap_err();
    assert_eq!(e, "Permission denied: Attribute uidnumber is not editable by regular users");
    let a = deserialize_attribute(list, graphql_value("uidnumber", &["3000"]), true).unwrap();
    assert_eq!(a.value, DomainValue::Integer(Cardinality::Singleton(3000)));
    let e = deserialize_attribute(list, graphql_value("sshpublickey", &["bogus"]), true).unwrap_err();
    assert!(e.starts_with("Invalid SSH public key: "));
    let e = deserialize_attribute(list, graphql_value("avatar", &["***"]), true).unwrap_err();
    assert!(e.starts_with("Invalid base64 avatar data: "));
    let a = deserialize_attribute(list, graphql_value("avatar", &[""]), true).unwrap();
    assert_eq!(a.value, DomainValue::Avatar(Cardinality::Singleton(Avatar(vec![]))));
}

#[test]
fn kerberos_sync_request() {
    let schema = PublicSchema::get();
    let on = vec![Attribute { name: AttributeName::new("kerberossync"), value: DomainValue::Integer(Cardinality::Singleton(1)) }];
    assert!(extract_kerberos_sync(&schema, &on));
    assert!(!extract_kerberos_sync(&schema, &[]));
}

#[test]
fn values_as_graphql_texts() {
    assert_eq!(
        serialize_attribute_to_graphql(&DomainValue::Integer(Cardinality::Unbounded(vec![1, -2]))),
        vec!["1".to_string(), "-2".to_string()]
    );
    assert_eq!(
        serialize_attribute_to_graphql(&DomainValue::DateTime(Cardinality::Singleton(DateTime { secs: 0, nanos: 0 }))),
        vec!["1970-01-01T00:00:00+00:00".to_string()]
    );
    assert_eq!(
        serialize_attribute_to_graphql(&DomainValue::Avatar(Cardinality::Unbounded(vec![Avatar(vec![]), Avatar(vec![0xFF, 0xD8, 0xFF])]))),
        vec!["".to_string(), "/9j/".to_string()]
    );
    assert_eq!(
        serialize_attribute_to_graphql(&DomainValue::String(Cardinality::Singleton("x".to_string()))),
        vec!["x".to_string()]
    );
}

#[test]
fn built_in_user_fields() {
    let u = bob();
    assert_eq!(get_hardcoded_user_value(&u, "uid"), Some(DomainValue::String(Cardinality::Singleton("bob".to_string()))));
    assert_eq!(get_hardcoded_user_value(&u, "mail"), Some(DomainValue::String(Cardinality::Singleton("bob@example.com".to_string()))));
    assert_eq!(get_hardcoded_user_value(&u, "modified_date"), Some(DomainValue::DateTime(Cardinality::Singleton(DateTime { secs: 43, nanos: 0 }))));
    assert_eq!(get_hardcoded_user_value(&u, "cn"), None);
    assert_eq!(get_hardcoded_user_value(&u, "firstname"), None);
}

#[test]
fn built_in_group_fields() {
    let g = Group {
        id: GroupId(7),
        display_name: GroupName::new("admins"),
        creation_date: date(),
        uuid: Uuid("g-1".to_string()),
        users: vec![],
        attributes: vec![],
        modified_date: date(),
    };
    assert_eq!(get_hardcoded_group_value(&g, "groupid"), Some(DomainValue::Integer(Cardinality::Singleton(7))));
    assert_eq!(get_hardcoded_group_value(&g, "display_name"), Some(DomainValue::String(Cardinality::Singleton("admins".to_string()))));
    assert_eq!(get_hardcoded_group_value(&g, "mail"), None);
    let d = GroupDetails {
        group_id: GroupId(8),
        display_name: GroupName::new("staff"),
        creation_date: date(),
        uuid: Uuid("g-2".to_string()),
        attributes: vec![],
        modified_date: date(),
    };
    assert_eq!(get_hardcoded_group_details_value(&d, "uuid"), Some(DomainValue::String(Cardinality::Singleton("g-2".to_string()))));
}

#[test]
fn object_class_listing() {
    let default = vec![LdapObjectClass("top".to_string()), LdapObjectClass("person".to_string())];
    let extra = vec![LdapObjectClass("mailAccount".to_string())];
    let all: Vec<ObjectClassInfo> = ldap_object_classes(&default, &extra);
    assert_eq!(all.len(), 3);
    assert_eq!(all[0].object_class(), "top");
    assert!(all[1].is_hardcoded());
    assert_eq!(all[2].object_class(), "mailAccount");
    assert!(!all[2].is_hardcoded());
    assert_eq!(extra_ldap_object_classes(&extra), vec!["mailAccount".to_string()]);
}

fn av(name: &str, value: &str) -> AttributeValue {
    AttributeValue { name: name.to_string(), value: vec![value.to_string()] }
}

#[test]
fn test_attribute_consolidation_attr_precedence() {
    let attributes = vec![av("first_name", "expected-first"), av("last_name", "expected-last"), av("avatar", "expected-avatar")];
    let res = consolidate_attributes(
        attributes.clone(),
        Some("overridden-first".to_string()),
        Some("overridden-last".to_string()),
        Some("overriden-avatar".to_string()),
    );
    assert_eq!(res, vec![av("avatar", "expected-avatar"), av("first_name", "expected-first"), av("last_name", "expected-last")]);
}

#[test]
fn test_attribute_consolidation_field_fallback() {
    let attributes = Vec::new();
    let res = consolidate_attributes(
        attributes.clone(),
        Some("expected-first".to_string()),
        Some("expected-last".to_string()),
        Some("expected-avatar".to_string()),
    );
    assert_eq!(res, vec![av("avatar", "expected-avatar"), av("first_name", "expected-first"), av("last_name", "expected-last")]);
}

#[test]
fn test_attribute_consolidation_field_fallback_2() {
    let attributes = vec![av("First_Name", "expected-first")];
    let res = consolidate_attributes(
        attributes.clone(),
        Some("overriden-first".to_string()),
        Some("expected-last".to_string()),
        Some("expected-avatar".to_string()),
    );
    assert_eq!(res, vec![av("avatar", "expected-avatar"), av("first_name", "expected-first"), av("last_name", "expected-last")]);
}

#[test]
fn consolidation_keeps_last_and_skips_blank_avatar() {
    let attributes = vec![av("Mail", "a@x"), av("mail", "b@x")];
    let res = consolidate_attributes(attributes, None, None, Some("   ".to_string()));
    assert_eq!(res, vec![av("mail", "b@x")]);
}

#[test]
fn unpacking_sent_attributes() {
    let schema = PublicSchema::get();
    let sent = vec![av("mail", "bob@example.com"), av("display_name", "Bob"), av("first_name", "Bob"), av("mail", "ignored@x")];
    let u = unpack_attributes(sent, &schema, false).unwrap();
    assert_eq!(u.email.map(|e| e.as_str().to_string()), Some("bob@example.com".to_string()));
    assert_eq!(u.display_name, Some("Bob".to_string()));
    assert_eq!(u.attributes.len(), 1);
    assert_eq!(u.attributes[0].name.as_str(), "firstname");
    let e = unpack_attributes(vec![av("nosuch", "x")], &schema, false).err().unwrap();
    assert_eq!(e, "Attribute nosuch is not defined in the schema");
    let none = unpack_attributes(vec![], &schema, true).unwrap();
    assert!(none.email.is_none() && none.display_name.is_none() && none.attributes.is_empty());
}

#[test]
fn user_attributes_as_shown() {
    let schema = PublicSchema::get();
    let mut u = bob();
    u.attributes = vec![
        Attribute { name: AttributeName::new("firstname"), value: DomainValue::String(Cardinality::Singleton("Bob".to_string())) },
        Attribute { name: AttributeName::new("unknown"), value: DomainValue::String(Cardinality::Singleton("x".to_string())) },
    ];
    let shown = user_attributes_from_schema(&mut u, &schema);
    assert!(u.attributes.is_empty());
    let names: Vec<&str> = shown.iter().map(|a| a.name()).collect();
    assert_eq!(names, vec!["creationdate", "mail", "modifieddate", "passwordmodifieddate", "userid", "uuid", "firstname"]);
    assert_eq!(shown[1].value(), vec!["bob@example.com".to_string()]);
    assert_eq!(shown[6].schema().name, "firstname");
}

#[test]
fn group_attributes_as_shown() {
    let schema = PublicSchema::get();
    let mut g = Group {
        id: GroupId(3),
        display_name: GroupName::new("admins"),
        creation_date: date(),
        uuid: Uuid("g-3".to_string()),
        users: vec![],
        attributes: vec![Attribute { name: AttributeName::new("gidnumber"), value: DomainValue::Integer(Cardinality::Singleton(3000)) }],
        modified_date: date(),
    };
    let shown = group_attributes_from_schema(&mut g, &schema);
    let names: Vec<&str> = shown.iter().map(|a| a.name()).collect();
    assert_eq!(names, vec!["groupid", "creationdate", "modifieddate", "uuid", "displayname", "gidnumber"]);
    assert_eq!(shown[0].value(), vec!["3".to_string()]);
    assert!(g.attributes.is_empty());
}
