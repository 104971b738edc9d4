use klldap::proto::{LdapFilter, LdapOp, LdapSearchScope, SubstringFilter};
use klldap::scope::{build_ou_entries, get_search_scope, make_ou_entry, ou_matches_filter, SearchScope};

fn make_dn(dn: &str) -> Vec<(String, String)> {
    dn.split(',')
        .map(|part| {
            let mut split = part.split('=');
            (split.next().unwrap().trim().to_string(), split.next().unwrap().trim().to_string())
        })
        .collect()
}

fn allowed() -> Vec<String> {
    vec!["people".to_string(), "groups".to_string()]
}

#[test]
fn test_search_scope_root() {
    let base_dn = make_dn("dc=example,dc=com");
    let dn = make_dn("dc=example,dc=com");
    let scope = get_search_scope(&base_dn, &dn, &LdapSearchScope::Base, &allowed());
    assert_eq!(scope, SearchScope::Root);
}

#[test]
fn test_search_scope_container_people() {
    let base_dn = make_dn("dc=example,dc=com");
    let dn = make_dn("ou=people,dc=example,dc=com");
    let scope = get_search_scope(&base_dn, &dn, &LdapSearchScope::OneLevel, &allowed());
    assert_eq!(scope, SearchScope::Container);
}

#[test]
fn test_search_scope_leaf_user() {
    let base_dn = make_dn("dc=example,dc=com");
    let dn = make_dn("uid=alice,ou=people,dc=example,dc=com");
    let scope = get_search_scope(&base_dn, &dn, &LdapSearchScope::Base, &allowed());
    assert_eq!(scope, SearchScope::LeafUser);
}

#[test]
fn test_search_scope_leaf_group() {
    let base_dn = make_dn("dc=example,dc=com");
    let dn = make_dn("cn=admins,ou=groups,dc=example,dc=com");
    let scope = get_search_scope(&base_dn, &dn, &LdapSearchScope::Base, &allowed());
    assert_eq!(scope, SearchScope::LeafGroup);
}

#[test]
fn test_search_scope_invalid() {
    let base_dn = make_dn("dc=example,dc=com");
    let dn = make_dn("ou=other,dc=evil,dc=com");
    let scope = get_search_scope(&base_dn, &dn, &LdapSearchScope::Subtree, &allowed());
    assert_eq!(scope, SearchScope::Invalid);
}

#[test]
fn test_search_scope_nested_ou_container() {
    let base_dn = make_dn("dc=example,dc=com");
    let dn = make_dn("ou=office,ou=people,dc=example,dc=com");
    let scope = get_search_scope(&base_dn, &dn, &LdapSearchScope::Subtree, &allowed());
    assert!(matches!(scope, SearchScope::Container | SearchScope::Unknown));
}

#[test]
fn test_ou_matches_filter_equality_ou() {
    let filter = LdapFilter::Equality("ou".to_string(), "office".to_string());
    assert!(ou_matches_filter("office", &filter));
    assert!(!ou_matches_filter("people", &filter));
}

#[test]
fn test_ou_matches_filter_objectclass() {
    let filter = LdapFilter::Equality("objectClass".to_string(), "organizationalUnit".to_string());
    assert!(ou_matches_filter("office", &filter));
}

#[test]
fn test_ou_matches_filter_and() {
    let filter = LdapFilter::And(vec![
        LdapFilter::Equality("objectClass".to_string(), "organizationalUnit".to_string()),
        LdapFilter::Equality("ou".to_string(), "office".to_string()),
    ]);
    assert!(ou_matches_filter("office", &filter));
    assert!(!ou_matches_filter("people", &filter));
}

#[test]
fn test_ou_matches_filter_present() {
    let filter = LdapFilter::Present("ou".to_string());
    assert!(ou_matches_filter("people", &filter));
    let filter2 = LdapFilter::Present("mail".to_string());
    assert!(!ou_matches_filter("people", &filter2));
}

#[test]
fn test_ou_matches_filter_or() {
    let filter = LdapFilter::Or(vec![
        LdapFilter::Equality("ou".to_string(), "office".to_string()),
        LdapFilter::Equality("ou".to_string(), "people".to_string()),
    ]);
    assert!(ou_matches_filter("office", &filter));
    assert!(ou_matches_filter("people", &filter));
    assert!(!ou_matches_filter("groups", &filter));
}

#[test]
fn test_ou_matches_filter_not() {
    let filter = LdapFilter::Not(Box::new(LdapFilter::Equality("ou".to_string(), "office".to_string())));
    assert!(ou_matches_filter("people", &filter));
    assert!(!ou_matches_filter("office", &filter));
}

#[test]
fn test_ou_matches_filter_default_true_for_unsupported() {
    let filter = LdapFilter::Substring(
        "cn".to_string(),
        SubstringFilter { initial: Some("a".to_string()), any: vec![], final_: None },
    );
    assert!(ou_matches_filter("office", &filter));
}

#[test]
fn test_make_ou_entry_simple() {
    let entry = make_ou_entry("people", "dc=example,dc=com", false);
    assert_eq!(entry.dn, "ou=people,dc=example,dc=com");
    assert_eq!(entry.attributes.len(), 2);
}

#[test]
fn test_make_ou_entry_with_operational() {
    let entry = make_ou_entry("office", "dc=example,dc=com", true);
    assert!(entry.attributes.iter().any(|a| a.atype == "hasSubordinates"));
    assert!(entry.attributes.iter().any(|a| a.atype == "structuralObjectClass"));
}

#[test]
fn test_make_ou_entry_empty_ou() {
    let entry = make_ou_entry("", "dc=example,dc=com", false);
    assert_eq!(entry.dn, "dc=example,dc=com");
}

#[test]
fn test_build_ou_entries() {
    let ous = vec!["people".to_string(), "groups".to_string()];
    let ops = build_ou_entries(&ous, "dc=example,dc=com", false);
    assert_eq!(ops.len(), 2);
    if let LdapOp::SearchResultEntry(e) = &ops[0] {
        assert!(e.dn.contains("ou=people"));
    }
}

#[test]
fn ou_filter_negation_flips() {
    let inner = LdapFilter::Present("mail".to_string());
    let not = LdapFilter::Not(Box::new(LdapFilter::Present("mail".to_string())));
    for ou in ["people", "office"] {
        assert_eq!(ou_matches_filter(ou, &not), !ou_matches_filter(ou, &inner));
    }
}

#[test]
fn nested_ou_entry_dn() {
    let entry = make_ou_entry("people\\home", "dc=example,dc=com", false);
    assert_eq!(entry.dn, "ou=home,ou=people,dc=example,dc=com");
    assert_eq!(entry.attributes[0].atype, "objectClass");
}
