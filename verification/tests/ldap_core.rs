use klldap::dn::{
    build_group_dn, build_user_dn, get_direct_child_ous, get_group_id_from_distinguished_name,
    get_group_id_from_distinguished_name_or_plain_name, get_internal_ou_from_dn_parts, get_leaf_ou,
    get_user_id_from_distinguished_name, get_user_id_from_distinguished_name_or_plain_name,
    internal_ou_to_ldap_rdn_chain, is_container_dn, is_subtree, ldap_rdn_chain_to_internal_ou,
    parse_distinguished_name, DEFAULT_PRIMARY_GROUP_OU, DEFAULT_PRIMARY_USER_OU,
};
use klldap::proto::{LdapError, LdapResult, LdapResultCode};
use klldap::text::{compare_str_case_insensitive, eq_case_insensitive};
use klldap::types::{AttributeName, Email, GroupName, LdapObjectClass, UserId};
use std::cmp::Ordering;
use klldap::utils::LdapInfo;

fn pairs(v: &[(&str, &str)]) -> Vec<(String, String)> {
    v.iter().map(|(k, v)| (k.to_string(), v.to_string())).collect()
}

#[test]
fn ldap_error_displays_message() {
    let err = LdapError { code: LdapResultCode::Other, message: "something went wrong".to_string() };
    assert_eq!(err.to_string(), "something went wrong");
}

#[test]
fn ldap_error_is_error_trait() {
    let err = LdapError { code: LdapResultCode::NoSuchObject, message: "not found".into() };
    assert!(err.to_string().contains("not found"));
}

#[test]
fn ldap_result_type_works() {
    let ok: LdapResult<i32> = Ok(42);
    assert_eq!(ok.unwrap(), 42);

    let err: LdapResult<()> = Err(LdapError { code: LdapResultCode::Other, message: "boom".into() });
    assert!(err.is_err());
}

#[test]
fn ldap_info_new_valid_base_dn() {
    let info = LdapInfo::new("dc=example,dc=com", vec![AttributeName::new("mail")], vec![])
        .expect("valid DN should parse");

    assert_eq!(info.base_dn, pairs(&[("dc", "example"), ("dc", "com")]));
    assert_eq!(info.base_dn_str, "dc=example,dc=com");
    assert_eq!(info.ignored_user_attributes.len(), 1);
    assert!(info.ignored_group_attributes.is_empty());
}

#[test]
fn ldap_info_new_lowercases_and_trims() {
    let info = LdapInfo::new("DC=Example, DC=COM", vec![], vec![]).unwrap();
    assert_eq!(info.base_dn_str, "dc=example,dc=com");
}

#[test]
fn ldap_info_new_rejects_malformed_dn() {
    assert!(LdapInfo::new("dc=example,dc", vec![], vec![]).is_err());
    assert!(LdapInfo::new("dc=example,,dc=com", vec![], vec![]).is_err());
    assert!(LdapInfo::new("dc=example=foo,dc=com", vec![], vec![]).is_err());
}

#[test]
fn ldap_info_reexports_are_available() {
    let _ = DEFAULT_PRIMARY_USER_OU;
    let _ = DEFAULT_PRIMARY_GROUP_OU;
}

#[test]
fn ldap_info_error_messages() {
    let e = LdapInfo::new("dc=example,dc", vec![], vec![]).err().unwrap();
    assert_eq!(e.code, LdapResultCode::InvalidDNSyntax);
    assert_eq!(e.message, "Missing DN value");
    let e = LdapInfo::new("dc=example=foo,dc=com", vec![], vec![]).err().unwrap();
    assert_eq!(e.message, "Too many elements in distinguished name: \"dc\", \"example\", \"foo\"");
}

#[test]
fn parse_dn_lowercases_and_trims() {
    let p = parse_distinguished_name("UID=Bob , OU=People,dc=example,dc=com").unwrap();
    assert_eq!(p, pairs(&[("uid", "bob"), ("ou", "people"), ("dc", "example"), ("dc", "com")]));
}

#[test]
fn internal_ou_and_rdn_chain() {
    let chain = internal_ou_to_ldap_rdn_chain("people\\home");
    assert_eq!(chain, pairs(&[("ou", "home"), ("ou", "people")]));
    assert_eq!(ldap_rdn_chain_to_internal_ou(&chain), "people\\home");
    assert!(internal_ou_to_ldap_rdn_chain("  ").is_empty());
    let dn = pairs(&[("uid", "bob"), ("ou", "home"), ("ou", "people"), ("dc", "example")]);
    assert_eq!(get_internal_ou_from_dn_parts(&dn), "people\\home");
}

#[test]
fn rdn_chain_round_trip_example() {
    for ou in ["people", "people\\home", "a\\b\\c"] {
        assert_eq!(ldap_rdn_chain_to_internal_ou(&internal_ou_to_ldap_rdn_chain(ou)), ou);
    }
}

#[test]
fn leaf_and_children() {
    assert_eq!(get_leaf_ou("people\\home"), "home");
    assert_eq!(get_leaf_ou("people"), "people");
    let allowed = vec!["people".to_string(), "people\\home".to_string(), "People\\Office".to_string(), "groups".to_string(), "people\\home\\deep".to_string()];
    assert_eq!(get_direct_child_ous("people", &allowed), vec!["people\\home".to_string(), "People\\Office".to_string()]);
    assert_eq!(get_direct_child_ous("", &allowed), vec!["people".to_string(), "groups".to_string()]);
}

#[test]
fn containers_and_subtrees() {
    let base = pairs(&[("dc", "example"), ("dc", "com")]);
    let allowed = vec!["people".to_string(), "people\\home".to_string()];
    assert!(is_container_dn(&pairs(&[("ou", "people"), ("dc", "example"), ("dc", "com")]), &base, &allowed));
    assert!(is_container_dn(&pairs(&[("ou", "home"), ("ou", "people"), ("dc", "example"), ("dc", "com")]), &base, &allowed));
    assert!(!is_container_dn(&pairs(&[("ou", "groups"), ("dc", "example"), ("dc", "com")]), &base, &allowed));
    assert!(is_subtree(&pairs(&[("ou", "people"), ("dc", "Example"), ("dc", "com")]), &base));
    assert!(is_subtree(&base, &base));
    assert!(!is_subtree(&pairs(&[("dc", "com")]), &base));
    assert!(is_subtree(&pairs(&[("dc", "com")]), &[]));
}

#[test]
fn entry_dns() {
    assert_eq!(build_user_dn(&UserId::new("bob"), "people\\home", "dc=example,dc=com"), "uid=bob,ou=home,ou=people,dc=example,dc=com");
    assert_eq!(build_group_dn(&GroupName::new("admins"), "groups", "dc=example,dc=com"), "cn=admins,ou=groups,dc=example,dc=com");
    assert_eq!(build_user_dn(&UserId::new("bob"), "", "dc=example,dc=com"), "uid=bob,dc=example,dc=com");
}

#[test]
fn user_and_group_ids_from_dns() {
    let base = pairs(&[("dc", "example"), ("dc", "com")]);
    let base_str = "dc=example,dc=com";
    let id = get_user_id_from_distinguished_name("uid=Bob,ou=people,dc=example,dc=com", &base, base_str).unwrap();
    assert_eq!(id.as_str(), "bob");
    let g = get_group_id_from_distinguished_name("cn=admins,ou=groups,dc=example,dc=com", &base, base_str).unwrap();
    assert_eq!(g.as_str(), "admins");
    let e = get_user_id_from_distinguished_name("cn=admins,ou=groups,dc=example,dc=com", &base, base_str).err().unwrap();
    assert_eq!(e.code, LdapResultCode::InvalidDNSyntax);
    assert!(e.message.starts_with("Unexpected DN format. Got \"cn=admins,ou=groups,dc=example,dc=com\", expected: "));
    let e = get_user_id_from_distinguished_name("uid=bob,ou=people,dc=other,dc=org", &base, base_str).err().unwrap();
    assert_eq!(e.message, "Not a subtree of the base tree");
    let plain = get_user_id_from_distinguished_name_or_plain_name("Alice", &base, base_str).unwrap();
    assert_eq!(plain.as_str(), "alice");
    let plain = get_group_id_from_distinguished_name_or_plain_name("Admins", &base, base_str).unwrap();
    assert_eq!(plain.as_str(), "Admins");
}

#[test]
fn names_compare_without_case() {
    assert_eq!(GroupName::new("Admins"), GroupName::new("aDMINS"));
    assert_ne!(GroupName::new("admins"), GroupName::new("admin"));
    assert_eq!(Email::new("Bob@Example.COM"), Email::new("bob@example.com"));
    assert_eq!(LdapObjectClass("InetOrgPerson".to_string()), LdapObjectClass("inetorgperson".to_string()));
    assert_eq!(compare_str_case_insensitive("abc", "ABD"), Ordering::Less);
    assert_eq!(compare_str_case_insensitive("ABC", "abc"), Ordering::Equal);
    assert_eq!(compare_str_case_insensitive("b", "A"), Ordering::Greater);
    assert_eq!(compare_str_case_insensitive("ab", "abc"), Ordering::Less);
    assert_eq!(compare_str_case_insensitive("ÄÖ", "äö"), Ordering::Equal);
    assert!(eq_case_insensitive("Straße", "STRAßE"));
}
