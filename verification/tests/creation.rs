use klldap::schema::PublicSchema;
use klldap::storage::PosixSettings;
use klldap::types::{Attribute, AttributeName, AttributeValue, Cardinality, UserId};
use klldap::user_creation::{find_free_number, plan_user_creation};

fn settings(assign: bool) -> PosixSettings {
    PosixSettings {
        user_uidnumber_assign: assign,
        user_uidnumber_start: 5000,
        user_uidnumber_max: 5002,
        user_gidnumber_assign: false,
        user_gidnumber_start: 5000,
        user_loginshell_assign: false,
        user_loginshell_default: "/bin/bash".to_string(),
        user_homedirectory_assign: true,
        user_homedirectory_prefix: "/home".to_string(),
        group_gidnumber_assign: false,
        group_gidnumber_start: 5000,
        group_gidnumber_max: 6000,
    }
}

fn number(name: &str, v: i64) -> Attribute {
    Attribute { name: AttributeName::new(name), value: AttributeValue::Integer(Cardinality::Singleton(v)) }
}

fn value_of<'a>(attrs: &'a [Attribute], name: &str) -> Option<&'a AttributeValue> {
    attrs.iter().find(|a| a.name.as_str() == name).map(|a| &a.value)
}

#[test]
fn user_creation_checks_numbers() {
    let schema = PublicSchema::get();
    let bob = UserId::new("bob");
    let out_of_range = plan_user_creation(&bob, vec![number("uidnumber", 100)], &[], &settings(false), &[], &[], &schema);
    assert_eq!(out_of_range.err(), Some("uidnumber must be between 3000 and 60000".to_string()));
    let taken = plan_user_creation(&bob, vec![number("uidnumber", 3001)], &[], &settings(false), &[3001], &[], &schema);
    assert_eq!(taken.err(), Some("Number 3001 is already assigned to another user/group".to_string()));
    let full = plan_user_creation(&bob, vec![], &[], &settings(true), &[5000, 5001, 5002], &[], &schema);
    assert_eq!(full.err(), Some("No available uidNumber in range 5000-5002 (all taken)".to_string()));
}

#[test]
fn user_creation_assigns_defaults() {
    let schema = PublicSchema::get();
    let bob = UserId::new("bob");
    let plan = plan_user_creation(&bob, vec![], &["staff".to_string()], &settings(true), &[5000], &[], &schema).unwrap();
    assert_eq!(value_of(&plan.attributes, "ou"), Some(&AttributeValue::String(Cardinality::Singleton("staff".to_string()))));
    assert_eq!(value_of(&plan.attributes, "uidnumber"), Some(&AttributeValue::Integer(Cardinality::Singleton(5001))));
    assert_eq!(
        value_of(&plan.attributes, "homedirectory"),
        Some(&AttributeValue::String(Cardinality::Singleton("/home/bob".to_string())))
    );
    let plan = plan_user_creation(&bob, vec![], &[], &settings(false), &[], &[], &schema).unwrap();
    assert_eq!(value_of(&plan.attributes, "ou"), Some(&AttributeValue::String(Cardinality::Singleton("people".to_string()))));
    assert_eq!(find_free_number("gidNumber", 10, 5, &[]), Err("gidNumber start (10) > max (5)".to_string()));
}
