use klldap::user_query::{user_filter_condition, UserCondition};
use klldap::group_query::{group_filter_condition, GroupCondition, GroupDateColumn};
use klldap::filters::{convert_group_filter, convert_user_filter, GroupRequestFilter, UserRequestFilter};
use klldap::proto::{LdapFilter, LdapResultCode};
use klldap::schema::{AttributeType, PublicSchema};
use klldap::schema_manager::{get_schema_manager, UserColumn, UserFieldType};
use klldap::subschema::subschema_entry;
use klldap::proto::LdapOp;
use klldap::types::{AttributeName, GroupName, UserId};
use klldap::utils::LdapInfo;

fn info() -> LdapInfo {
    LdapInfo::new("dc=example,dc=com", vec![], vec![]).unwrap()
}

fn eq(a: &str, v: &str) -> LdapFilter {
    LdapFilter::Equality(a.to_string(), v.to_string())
}

#[test]
fn user_filters() {
    let schema = PublicSchema::get();
    let info = info();
    assert_eq!(convert_user_filter(&info, &eq("uid", "Bob"), &schema), Ok(UserRequestFilter::UserId(UserId::new("bob"))));
    assert_eq!(
        convert_user_filter(&info, &eq("mail", "Bob@Example.com"), &schema),
        Ok(UserRequestFilter::Equality(UserColumn::LowercaseEmail, "bob@example.com".to_string()))
    );
    assert_eq!(convert_user_filter(&info, &LdapFilter::And(vec![]), &schema), Ok(UserRequestFilter::True));
    assert_eq!(convert_user_filter(&info, &LdapFilter::Or(vec![]), &schema), Ok(UserRequestFilter::False));
    assert_eq!(
        convert_user_filter(&info, &LdapFilter::Not(Box::new(eq("nosuchattr", "x"))), &schema),
        Ok(UserRequestFilter::True)
    );
    assert_eq!(
        convert_user_filter(&info, &eq("memberOf", "cn=admins,ou=groups,dc=example,dc=com"), &schema),
        Ok(UserRequestFilter::MemberOf(GroupName::new("admins")))
    );
    assert_eq!(
        convert_user_filter(&info, &LdapFilter::And(vec![eq("objectClass", "person"), eq("uid", "bob")]), &schema),
        Ok(UserRequestFilter::UserId(UserId::new("bob")))
    );
    let e = convert_user_filter(&info, &LdapFilter::GreaterOrEqual("Mail".to_string(), "x".to_string()), &schema).unwrap_err();
    assert_eq!(e.code, LdapResultCode::UnwillingToPerform);
    assert_eq!(e.message, "GreaterOrEqual not supported on this attribute: mail");
}

#[test]
fn group_filters() {
    let schema = PublicSchema::get();
    let info = info();
    assert_eq!(
        convert_group_filter(&info, &eq("cn", "admins"), &schema),
        Ok(GroupRequestFilter::DisplayName(GroupName::new("admins")))
    );
    assert_eq!(convert_group_filter(&info, &LdapFilter::Or(vec![]), &schema), Ok(GroupRequestFilter::False));
    assert_eq!(
        convert_group_filter(&info, &eq("member", "uid=bob,ou=people,dc=example,dc=com"), &schema),
        Ok(GroupRequestFilter::False)
    );
}

#[test]
fn schema_names() {
    let schema = PublicSchema::get();
    let manager = get_schema_manager();
    assert_eq!(manager.map_user_field(&AttributeName::new("uid"), &schema), UserFieldType::PrimaryField(UserColumn::UserId));
    assert_eq!(manager.map_user_field(&AttributeName::new("mail"), &schema), UserFieldType::PrimaryField(UserColumn::Email));
    assert_eq!(manager.map_user_field(&AttributeName::new("nosuch"), &schema), UserFieldType::NoMatch);
    assert_eq!(
        manager.map_user_field(&AttributeName::new("uidNumber"), &schema),
        UserFieldType::Attribute(AttributeName::new("uidnumber"), AttributeType::Integer, false)
    );
    assert_eq!(manager.get_canonical_name("MAIL"), "mail");
    assert_eq!(manager.get_canonical_name("whatever"), "whatever");
}

#[test]
fn subschema_entry_lists_attribute_types() {
    let schema = PublicSchema::get();
    match subschema_entry(&schema, "dc=example,dc=com", "20240101000000Z") {
        LdapOp::SearchResultEntry(e) => {
            assert_eq!(e.dn, "cn=Subschema,dc=example,dc=com");
            assert!(e.attributes.iter().any(|a| a.atype == "attributeTypes" && !a.vals.is_empty()));
            assert!(e.attributes.iter().any(|a| a.atype == "objectClasses" && !a.vals.is_empty()));
        }
        _ => panic!("expected an entry"),
    }
}

#[test]
fn refused_filters_quote_their_text() {
    let schema = PublicSchema::get();
    let info = info();
    let shown = "Approx(\"cn\", \"bob\")";
    let f = LdapFilter::Approx("cn".to_string(), "bob".to_string(), shown.to_string());
    let e = convert_user_filter(&info, &f, &schema).unwrap_err();
    assert_eq!(e.code, LdapResultCode::UnwillingToPerform);
    assert_eq!(e.message, format!("Unsupported user filter: {}", shown));
    let x = LdapFilter::Extensible("Extensible(LdapMatchingRuleAssertion { matching_rule: None })".to_string());
    let e = convert_group_filter(&info, &x, &schema).unwrap_err();
    assert_eq!(e.message, "Unsupported group filter: Extensible(LdapMatchingRuleAssertion { matching_rule: None })");
}

#[test]
fn conjunctions_are_flattened_and_failures_spread() {
    let schema = PublicSchema::get();
    let info = info();
    let refused = LdapFilter::Approx("cn".to_string(), "x".to_string(), "Approx".to_string());
    assert!(convert_user_filter(&info, &LdapFilter::And(vec![eq("uid", "a"), refused]), &schema).is_err());
    let nested = LdapFilter::And(vec![
        eq("uid", "a"),
        LdapFilter::And(vec![eq("uid", "b"), LdapFilter::Present("objectClass".to_string())]),
    ]);
    match convert_user_filter(&info, &nested, &schema).unwrap() {
        UserRequestFilter::And(v) => {
            assert_eq!(v.len(), 2);
            assert!(v.iter().all(|x| !matches!(x, UserRequestFilter::True | UserRequestFilter::And(_))));
        },
        other => panic!("unexpected {:?}", other),
    }
}

#[test]
fn group_queries_become_conditions() {
    assert_eq!(group_filter_condition(GroupRequestFilter::And(vec![])), GroupCondition::Const(true));
    assert_eq!(group_filter_condition(GroupRequestFilter::Or(vec![])), GroupCondition::Const(false));
    assert_eq!(
        group_filter_condition(GroupRequestFilter::DisplayName(GroupName::new("Ünïcode Group"))),
        GroupCondition::LowercaseNameIs("ünïcode group".to_string())
    );
    assert_eq!(
        group_filter_condition(GroupRequestFilter::Or(vec![
            GroupRequestFilter::GreaterOrEqual("CreationDate".to_string(), "2024".to_string()),
            GroupRequestFilter::Not(Box::new(GroupRequestFilter::LessOrEqual("other".to_string(), "1".to_string()))),
        ])),
        GroupCondition::Any(vec![
            GroupCondition::DateAtLeast(GroupDateColumn::CreationDate, "2024".to_string()),
            GroupCondition::Not(Box::new(GroupCondition::Const(false))),
        ])
    );
    assert_eq!(
        group_filter_condition(GroupRequestFilter::CustomAttributePresent(AttributeName::new("mail"))),
        GroupCondition::AttributeStored(AttributeName::new("mail"), None)
    );
}

#[test]
fn user_queries_become_conditions() {
    assert_eq!(user_filter_condition(UserRequestFilter::And(vec![])), UserCondition::Const(true));
    assert_eq!(
        user_filter_condition(UserRequestFilter::Equality(UserColumn::Email, "Bob@Example.COM".to_string())),
        UserCondition::ColumnIs(UserColumn::LowercaseEmail, "bob@example.com".to_string())
    );
    assert_eq!(
        user_filter_condition(UserRequestFilter::Or(vec![
            UserRequestFilter::UserId(UserId::new("bob")),
            UserRequestFilter::MemberOf(GroupName::new("Admins")),
        ])),
        UserCondition::Any(vec![
            UserCondition::UserIdIs(UserId::new("bob")),
            UserCondition::MemberOfLowercaseName("admins".to_string()),
        ])
    );
}

#[test]
fn negation_swaps_constants() {
    let schema = PublicSchema::get();
    let info = info();
    let always = LdapFilter::Present("objectClass".to_string());
    assert_eq!(convert_user_filter(&info, &always, &schema), Ok(UserRequestFilter::True));
    assert_eq!(convert_user_filter(&info, &LdapFilter::Not(Box::new(always)), &schema), Ok(UserRequestFilter::False));
    let never = eq("nosuchattr", "x");
    assert_eq!(convert_group_filter(&info, &never, &schema), Ok(GroupRequestFilter::False));
    assert_eq!(convert_group_filter(&info, &LdapFilter::Not(Box::new(never)), &schema), Ok(GroupRequestFilter::True));
    assert_eq!(
        convert_user_filter(&info, &LdapFilter::Not(Box::new(eq("uid", "bob"))), &schema),
        Ok(UserRequestFilter::Not(Box::new(UserRequestFilter::UserId(UserId::new("bob")))))
    );
}
