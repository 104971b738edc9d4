use klldap::create::{create_user_or_group, CreateRequest};
use klldap::modify::{handle_modify_change, modify_request_user, no_read_access_error, no_write_access_error, ModifyStep};
use klldap::proto::{LdapAddRequest, LdapModify, LdapModifyType, LdapPartialAttribute, LdapResultCode};
use klldap::types::{AttributeValue, Cardinality, UserId};
use klldap::utils::LdapInfo;

fn info() -> LdapInfo {
    LdapInfo::new("dc=example,dc=com", vec![], vec![]).unwrap()
}

fn attr(atype: &str, vals: &[&[u8]]) -> LdapPartialAttribute {
    LdapPartialAttribute { atype: atype.to_string(), vals: vals.iter().map(|v| v.to_vec()).collect() }
}

fn ou_value(ou: &str) -> AttributeValue {
    AttributeValue::String(Cardinality::Singleton(ou.to_string()))
}

#[test]
fn test_create_user() {
    let request = LdapAddRequest { dn: "uid=bob,ou=people,dc=example,dc=com".to_owned(), attributes: vec![attr("cn", &[b"Bob"])] };
    match create_user_or_group(&info(), request) {
        Ok(CreateRequest::User(u)) => {
            assert_eq!(u.user_id, UserId::new("bob"));
            assert_eq!(u.email.as_str(), "");
            assert_eq!(u.display_name, Some("Bob".to_string()));
            assert_eq!(u.attributes.len(), 1);
            assert_eq!(u.attributes[0].name.as_str(), "ou");
            assert_eq!(u.attributes[0].value, ou_value("people"));
        }
        _ => panic!("expected a user"),
    }
}

#[test]
fn create_test_create_group() {
    let request = LdapAddRequest { dn: "cn=bob,ou=groups,dc=example,dc=com".to_owned(), attributes: vec![attr("cn", &[b"Bobby"])] };
    match create_user_or_group(&info(), request) {
        Ok(CreateRequest::Group(g)) => {
            assert_eq!(g.display_name.as_str(), "bob");
            assert_eq!(g.attributes.len(), 1);
            assert_eq!(g.attributes[0].name.as_str(), "ou");
            assert_eq!(g.attributes[0].value, ou_value("groups"));
        }
        _ => panic!("expected a group"),
    }
}

#[test]
fn test_create_user_multiple_object_class() {
    let request = LdapAddRequest {
        dn: "uid=bob,ou=people,dc=example,dc=com".to_owned(),
        attributes: vec![attr("cn", &[b"Bob"]), attr("objectClass", &[b"top", b"person", b"inetOrgPerson"])],
    };
    match create_user_or_group(&info(), request) {
        Ok(CreateRequest::User(u)) => {
            assert_eq!(u.user_id, UserId::new("bob"));
            assert_eq!(u.display_name, Some("Bob".to_string()));
            assert_eq!(u.attributes.len(), 1);
            assert_eq!(u.attributes[0].value, ou_value("people"));
        }
        _ => panic!("expected a user"),
    }
}

#[test]
fn create_refuses_bad_dns() {
    let e = create_user_or_group(&info(), LdapAddRequest { dn: "uid=bob,dc=other,dc=org".to_owned(), attributes: vec![] })
        .err()
        .unwrap();
    assert_eq!(e.code, LdapResultCode::InvalidDNSyntax);
    let e = create_user_or_group(&info(), LdapAddRequest { dn: "uid=bob,ou".to_owned(), attributes: vec![] }).err().unwrap();
    assert_eq!(e.code, LdapResultCode::InvalidDNSyntax);
    assert_eq!(e.message, "Missing DN value");
}

fn change(op: LdapModifyType, atype: &str, vals: &[&[u8]]) -> LdapModify {
    LdapModify { operation: op, modification: attr(atype, vals) }
}

#[test]
fn test_modify_givenname_as_self() {
    let c = change(LdapModifyType::Replace, "givenName", &[b"Alice"]);
    match handle_modify_change(&UserId::new("test"), "test", true, &c, None) {
        Ok(ModifyStep::UpdateUser(req)) => {
            assert_eq!(req.user_id, UserId::new("test"));
            assert!(req.insert_attributes.iter().any(|a| a.name.as_str() == "first_name"));
        }
        _ => panic!("expected an update"),
    }
}

#[test]
fn test_modify_sn_as_admin() {
    let c = change(LdapModifyType::Replace, "sn", &[b"Smith"]);
    match handle_modify_change(&UserId::new("bob"), "admin", true, &c, None) {
        Ok(ModifyStep::UpdateUser(req)) => {
            assert_eq!(req.user_id, UserId::new("bob"));
            assert!(req.insert_attributes.iter().any(|a| a.name.as_str() == "last_name"));
        }
        _ => panic!("expected an update"),
    }
}

#[test]
fn test_modify_mail_as_admin() {
    let c = change(LdapModifyType::Replace, "mail", &[b"bob.smith@example.com"]);
    match handle_modify_change(&UserId::new("bob"), "admin", true, &c, None) {
        Ok(ModifyStep::UpdateUser(req)) => assert_eq!(req.email.map(|e| e.as_str().to_string()), Some("bob.smith@example.com".to_string())),
        _ => panic!("expected an update"),
    }
}

#[test]
fn test_modify_cn_displayname_as_self() {
    let c = change(LdapModifyType::Replace, "cn", &[b"Test User"]);
    match handle_modify_change(&UserId::new("test"), "test", true, &c, None) {
        Ok(ModifyStep::UpdateUser(req)) => assert_eq!(req.display_name, Some("Test User".to_string())),
        _ => panic!("expected an update"),
    }
}

#[test]
fn test_modify_avatar_and_sshpublickey_as_admin() {
    let png = b"iVBORw0KGgoAAAANSUhEUgAAAAEAAAABCAYAAAAfFcSJAAAADUlEQVR42mP8/5+hHgAHggJ/PchI7wAAAABJRU5ErkJggg==";
    let c = change(LdapModifyType::Replace, "avatar", &[png]);
    assert!(matches!(handle_modify_change(&UserId::new("bob"), "admin", true, &c, None), Ok(ModifyStep::UpdateUser(_))));
    let key: &[u8] = b"ssh-rsa AAAAB3NzaC1yc2EAAAADAQABCCCBAQCExampleRSAKeyForTestingOnly2048bit testuser@otherlab";
    let c = change(LdapModifyType::Replace, "sshPublicKey", &[key]);
    assert!(matches!(handle_modify_change(&UserId::new("bob"), "admin", true, &c, None), Ok(ModifyStep::UpdateUser(_))));
}

#[test]
fn test_modify_unsupported_attribute() {
    let c = change(LdapModifyType::Replace, "title", &[b"Manager"]);
    let e = handle_modify_change(&UserId::new("bob"), "admin", true, &c, None).err().unwrap();
    assert_eq!(e.code, LdapResultCode::UnwillingToPerform);
    assert_eq!(
        e.message,
        "Unsupported attribute for LDAP Modify: title (supported: givenName, sn, cn, mail, avatar, sshPublicKey, userPassword)"
    );
}

#[test]
fn test_modify_password_invalid_number_of_values() {
    let c = change(LdapModifyType::Replace, "userPassword", &[b"one", b"two"]);
    let e = handle_modify_change(&UserId::new("bob"), "admin", true, &c, None).err().unwrap();
    assert_eq!(e.code, LdapResultCode::InvalidAttributeSyntax);
    assert_eq!(e.message, "Wrong number of values for password attribute: 2");
}

#[test]
fn test_modify_password_bad_primary_dn() {
    let info = info();
    let e = modify_request_user("uid=bob,ou=people,dc=example,dc=fr", &info.base_dn, &info.base_dn_str).err().unwrap();
    assert_eq!(e.code, LdapResultCode::InvalidDNSyntax);
    assert_eq!(e.message, "Invalid username: Not a subtree of the base tree");
}

#[test]
fn test_modify_password_of_regular_as_admin() {
    let c = change(LdapModifyType::Replace, "userPassword", &[b"newpassword"]);
    match handle_modify_change(&UserId::new("bob"), "admin", true, &c, None) {
        Ok(ModifyStep::ChangePassword { user_id, password }) => {
            assert_eq!(user_id, UserId::new("bob"));
            assert_eq!(password, b"newpassword".to_vec());
        }
        _ => panic!("expected a password change"),
    }
}

#[test]
fn test_modify_password_of_other_regular_as_regular() {
    let e = no_write_access_error("test", &UserId::new("bob"));
    assert_eq!(e.code, LdapResultCode::InsufficentAccessRights);
    assert_eq!(e.message, "User `test` cannot modify user `bob` (no write permission)");
    assert_eq!(no_read_access_error("test", &UserId::new("bob")).message, "User `test` cannot modify user `bob`");
    let c = change(LdapModifyType::Replace, "userPassword", &[b"newpassword"]);
    let e = handle_modify_change(&UserId::new("bob"), "test", false, &c, None).err().unwrap();
    assert_eq!(e.message, "User `test` cannot modify the password of user `bob`");
}

#[test]
fn modify_refusals() {
    let bob = UserId::new("bob");
    let e = handle_modify_change(&bob, "admin", true, &change(LdapModifyType::Delete, "mail", &[]), None).err().unwrap();
    assert_eq!(e.message, "Deletion of `mail` is not allowed via LDAP Modify (use GraphQL or protected path)");
    let e = handle_modify_change(&bob, "admin", true, &change(LdapModifyType::Replace, "ou", &[b"x"]), None).err().unwrap();
    assert_eq!(e.message, "Direct modification of 'ou' via LDAP Modify is not supported.");
    let e = handle_modify_change(&bob, "admin", true, &change(LdapModifyType::Add, "title", &[b"x"]), None).err().unwrap();
    assert_eq!(e.message, "Add not supported for title");
    let e = handle_modify_change(&bob, "admin", true, &change(LdapModifyType::Replace, "sn", &[]), None).err().unwrap();
    assert_eq!(e.message, "No values provided for sn");
    let e = handle_modify_change(&bob, "admin", true, &change(LdapModifyType::Increment, "userPassword", &[b"x"]), None).err().unwrap();
    assert_eq!(e.message, "Unsupported operation: `Increment` for `userPassword`");
}

#[test]
fn ssh_key_additions_need_current_keys() {
    let bob = UserId::new("bob");
    let key: &[u8] = b"ssh-ed25519 AAAA k2";
    let c = change(LdapModifyType::Add, "sshPublicKey", &[key]);
    assert!(matches!(handle_modify_change(&bob, "admin", true, &c, None), Ok(ModifyStep::ReadSshKeys)));
    match handle_modify_change(&bob, "admin", true, &c, Some(vec!["ssh-ed25519 AAAA k1".to_string()])) {
        Ok(ModifyStep::UpdateUser(req)) => {
            assert_eq!(req.insert_attributes.len(), 1);
            assert_eq!(
                req.insert_attributes[0].value,
                AttributeValue::String(Cardinality::Unbounded(vec!["ssh-ed25519 AAAA k1".to_string(), "ssh-ed25519 AAAA k2".to_string()]))
            );
        }
        _ => panic!("expected an update"),
    }
    let d = change(LdapModifyType::Delete, "sshPublicKey", &[b"ssh-ed25519 AAAA k1"]);
    match handle_modify_change(&bob, "admin", true, &d, Some(vec!["ssh-ed25519 AAAA k1".to_string()])) {
        Ok(ModifyStep::UpdateUser(req)) => {
            assert_eq!(req.delete_attributes.len(), 1);
            assert_eq!(req.delete_attributes[0].as_str(), "sshpublickey");
        }
        _ => panic!("expected an update"),
    }
}
