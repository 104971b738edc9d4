use klldap::compare::compare;
use klldap::handler::{
    extended_request_action, make_add_response, make_bind_response, make_extended_response, make_modify_response,
    no_bound_user_error, unauthorized_write_error, unbound_responses, whoami_response, ExtendedAction,
};
use klldap::proto::{
    LdapCompareRequest, LdapFilter, LdapOp, LdapPartialAttribute, LdapResultCode, LdapResultOp, LdapSearchRequest,
    LdapSearchResultEntry, LdapSearchScope,
};
use klldap::results::convert_users_to_ldap_op;
use klldap::root_dse::{is_root_dse_request, is_subschema_entry_request, root_dse_response};
use klldap::schema::PublicSchema;
use klldap::search::{do_search, finish_search, ListingFilter, SearchPlan};
use klldap::types::{Attribute, AttributeName, AttributeValue, Cardinality, DateTime, Email, User, UserAndGroups, UserId, Uuid};
use klldap::utils::LdapInfo;

fn date() -> DateTime {
    DateTime { secs: 42, nanos: 42 }
}

fn user(id: &str, attributes: Vec<Attribute>) -> User {
    User {
        user_id: UserId::new(id),
        email: Email::new("bob@bobmail.bob"),
        display_name: Some("Bob".to_string()),
        creation_date: date(),
        uuid: Uuid("698e1d5f-7a40-3151-8745-b9b8a37839da".to_string()),
        attributes,
        modified_date: date(),
        password_modified_date: date(),
        krb_principal_name: None,
    }
}

fn entry(dn: &str, atype: &str, val: &[u8]) -> LdapOp {
    LdapOp::SearchResultEntry(LdapSearchResultEntry {
        dn: dn.to_string(),
        attributes: vec![LdapPartialAttribute { atype: atype.to_string(), vals: vec![val.to_vec()] }],
    })
}

fn compare_result(code: LdapResultCode, dn: &str) -> LdapOp {
    LdapOp::CompareResult(LdapResultOp { code, matcheddn: dn.to_string(), message: String::new(), referral: vec![] })
}

#[test]
fn compare_true_on_exact_entry() {
    let dn = "uid=bob,ou=people,dc=example,dc=com";
    let ops = vec![
        entry("ou=people,dc=example,dc=com", "uid", b"bob"),
        entry("UID=Bob,ou=people,dc=example,dc=com", "UID", b"bob"),
    ];
    let req = LdapCompareRequest { dn: dn.to_string(), atype: "uid".to_string(), val: b"bob".to_vec() };
    assert_eq!(compare(req, ops, "dc=example,dc=com"), Ok(vec![compare_result(LdapResultCode::CompareTrue, dn)]));
}

#[test]
fn compare_false_and_not_found() {
    let dn = "uid=bob,ou=people,dc=example,dc=com";
    let ops = vec![entry(dn, "mail", b"bob@bobmail.bob")];
    let req = LdapCompareRequest { dn: dn.to_string(), atype: "mail".to_string(), val: b"wrong".to_vec() };
    assert_eq!(compare(req, ops.clone(), "dc=example,dc=com"), Ok(vec![compare_result(LdapResultCode::CompareFalse, dn)]));
    let req = LdapCompareRequest { dn: "uid=alice,ou=people,dc=example,dc=com".to_string(), atype: "mail".to_string(), val: vec![] };
    assert_eq!(
        compare(req, ops, "dc=example,dc=com"),
        Ok(vec![compare_result(LdapResultCode::NoSuchObject, "dc=example,dc=com")])
    );
}

#[test]
fn compare_user_through_search_entries() {
    let info = LdapInfo::new("dc=example,dc=com", vec![], vec![]).unwrap();
    let schema = PublicSchema::get();
    let users = vec![UserAndGroups { user: user("bob", vec![]), groups: None }];
    let ops = convert_users_to_ldap_op(users, &["uid".to_string(), "mail".to_string()], &info, &schema);
    assert_eq!(ops.len(), 1);
    let dn = "uid=bob,ou=people,dc=example,dc=com";
    let req = LdapCompareRequest { dn: dn.to_string(), atype: "uid".to_string(), val: b"bob".to_vec() };
    assert_eq!(compare(req, ops.clone(), "dc=example,dc=com"), Ok(vec![compare_result(LdapResultCode::CompareTrue, dn)]));
    let req = LdapCompareRequest { dn: dn.to_string(), atype: "mail".to_string(), val: b"completely-wrong-value".to_vec() };
    assert_eq!(compare(req, ops, "dc=example,dc=com"), Ok(vec![compare_result(LdapResultCode::CompareFalse, dn)]));
}

#[test]
fn user_entry_shows_custom_ou() {
    let info = LdapInfo::new("dc=example,dc=com", vec![], vec![]).unwrap();
    let schema = PublicSchema::get();
    let attrs = vec![Attribute {
        name: AttributeName::new("ou"),
        value: AttributeValue::String(Cardinality::Singleton("people\\home".to_string())),
    }];
    let users = vec![UserAndGroups { user: user("bob", attrs), groups: None }];
    let ops = convert_users_to_ldap_op(users, &["uid".to_string()], &info, &schema);
    match &ops[0] {
        LdapOp::SearchResultEntry(e) => assert_eq!(e.dn, "uid=bob,ou=home,ou=people,dc=example,dc=com"),
        _ => panic!("expected an entry"),
    }
}

fn search(base: &str, scope: LdapSearchScope) -> LdapSearchRequest {
    LdapSearchRequest { base: base.to_string(), scope, filter: LdapFilter::Present("objectClass".to_string()), attrs: vec![] }
}

#[test]
fn search_plans() {
    let base = vec![("dc".to_string(), "example".to_string()), ("dc".to_string(), "com".to_string())];
    let allowed = vec!["people".to_string(), "groups".to_string()];
    match do_search(&base, "dc=example,dc=com", &search("dc=example,dc=com", LdapSearchScope::Base), &allowed) {
        SearchPlan::Answer(v) => {
            assert_eq!(v.len(), 2);
            assert!(matches!(&v[0], LdapOp::SearchResultEntry(e) if e.dn == "dc=example,dc=com"));
        }
        _ => panic!("expected a direct answer"),
    }
    match do_search(&base, "dc=example,dc=com", &search("uid=bob,ou=people,dc=example,dc=com", LdapSearchScope::Base), &allowed) {
        SearchPlan::List(l) => {
            assert!(matches!(&l.users, Some(ListingFilter::Uid(u)) if u.as_str() == "bob"));
            assert!(l.groups.is_none());
            assert!(l.not_found_when_empty);
            assert!(matches!(finish_search(l, vec![], vec![]), Err(e) if e.code == LdapResultCode::NoSuchObject));
        }
        _ => panic!("expected a listing"),
    }
    match do_search(&base, "dc=example,dc=com", &search("ou=people,dc=example,dc=com", LdapSearchScope::OneLevel), &allowed) {
        SearchPlan::List(l) => {
            assert!(l.head.is_empty());
            assert!(l.retention.is_some());
            let done = finish_search(l, vec![], vec![]).unwrap();
            assert_eq!(done.len(), 1);
        }
        _ => panic!("expected a listing"),
    }
    match do_search(&base, "dc=example,dc=com", &search("dc=elsewhere,dc=org", LdapSearchScope::Subtree), &allowed) {
        SearchPlan::Answer(v) => assert_eq!(v.len(), 1),
        _ => panic!("expected an empty answer"),
    }
}

#[test]
fn root_dse_detection_and_answer() {
    let req = LdapSearchRequest {
        base: String::new(),
        scope: LdapSearchScope::Base,
        filter: LdapFilter::Present("objectClass".to_string()),
        attrs: vec![],
    };
    assert!(is_root_dse_request(&req));
    assert!(!is_subschema_entry_request(&req));
    match root_dse_response("dc=example,dc=com", None, "1.0.0") {
        LdapOp::SearchResultEntry(e) => {
            assert_eq!(e.dn, "");
            let ctx = e.attributes.iter().find(|a| a.atype == "namingContexts").unwrap();
            assert_eq!(ctx.vals, vec![b"dc=example,dc=com".to_vec()]);
        }
        _ => panic!("expected an entry"),
    }
}

#[test]
fn response_shapes() {
    let r = LdapResultOp { code: LdapResultCode::Success, matcheddn: String::new(), message: "m".to_string(), referral: vec![] };
    assert_eq!(make_add_response(LdapResultCode::Success, "m".to_string()), LdapOp::AddResponse(r.clone()));
    assert_eq!(make_modify_response(LdapResultCode::Success, "m".to_string()), LdapOp::ModifyResponse(r.clone()));
    assert_eq!(make_extended_response(LdapResultCode::Success, "m".to_string()), LdapOp::ExtendedResponse(r.clone()));
    assert_eq!(make_bind_response(LdapResultCode::Success, "m".to_string()), LdapOp::BindResponse(r));
    assert_eq!(no_bound_user_error().message, "No user currently bound");
    assert_eq!(unauthorized_write_error().message, "Unauthorized write");
    assert_eq!(unbound_responses().len(), 1);
}

#[test]
fn extended_request_decisions() {
    let pw = "1.3.6.1.4.1.4203.1.11.1";
    let who = "1.3.6.1.4.1.4203.1.11.3";
    assert!(matches!(extended_request_action(pw, None, true), ExtendedAction::ChangePassword));
    assert!(matches!(extended_request_action(who, None, true), ExtendedAction::WhoAmI));
    match extended_request_action(pw, Some("bad"), true) {
        ExtendedAction::Respond(v) => assert_eq!(
            v,
            vec![make_extended_response(LdapResultCode::ProtocolError, "Error while parsing password modify request: bad".to_string())]
        ),
        _ => panic!("expected a response"),
    }
    match extended_request_action(who, None, false) {
        ExtendedAction::Respond(v) => assert_eq!(v, unbound_responses()),
        _ => panic!("expected a response"),
    }
    match extended_request_action("1.2.3", None, true) {
        ExtendedAction::Respond(v) => assert_eq!(
            v,
            vec![make_extended_response(LdapResultCode::UnwillingToPerform, "Unsupported extended operation: 1.2.3".to_string())]
        ),
        _ => panic!("expected a response"),
    }
}

#[test]
fn whoami_answers() {
    let bob = user("bob", vec![Attribute {
        name: AttributeName::new("ou"),
        value: AttributeValue::String(Cardinality::Singleton("people\\home".to_string())),
    }]);
    assert_eq!(
        whoami_response(&UserId::new("bob"), Some(&bob), "dc=example,dc=com"),
        make_extended_response(LdapResultCode::Success, "dn:uid=bob,ou=home,ou=people,dc=example,dc=com".to_string())
    );
    assert_eq!(
        whoami_response(&UserId::new("bob"), None, "dc=example,dc=com"),
        make_extended_response(LdapResultCode::Success, "dn:uid=bob,ou=people,dc=example,dc=com".to_string())
    );
}
