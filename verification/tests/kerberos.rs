use klldap::kerberos::{
    delete_kerberos_principal, derive_domain_from_base_dn, derive_realm_from_base_dn, get_keycloak_suggested_config,
    get_kerberos_principal_name, keycloak_realm_params, keycloak_service_principal, load_full_keycloak_config,
    replace_char_with, sync_kerberos_if_enabled, sync_kerberos_principal, KadminAction, KadminStage, KeycloakConfig,
    KeycloakRealmGenerationOptions,
};
use klldap::keycloak::{creation_accepted, custom_ldap_mappers, deletion_accepted, ldap_component_settings, realm_hsts_header};

#[test]
fn realm_and_domain_from_base_dn() {
    assert_eq!(derive_domain_from_base_dn("dc=Example,dc=com"), "example.com");
    assert_eq!(derive_domain_from_base_dn("ou=x,dc=a,dc=b,dc=c"), "a.b.c");
    assert_eq!(derive_realm_from_base_dn("dc=example,dc=com", None), "EXAMPLE.COM");
    assert_eq!(derive_realm_from_base_dn("dc=example,dc=com", Some("lab.local")), "LAB.LOCAL");
    assert_eq!(derive_realm_from_base_dn("dc=example,dc=com", Some("")), "EXAMPLE.COM");
}

#[test]
fn principal_names() {
    assert_eq!(get_kerberos_principal_name("testuser1", "TESTLABBY.LOCAL"), "testuser1@TESTLABBY.LOCAL");
    assert_eq!(keycloak_service_principal("  ", "example.com", "EXAMPLE.COM"), "HTTP/keycloak.example.com@EXAMPLE.COM");
    assert_eq!(keycloak_service_principal("keycloak", "example.com", "EXAMPLE.COM"), "HTTP/keycloak.example.com@EXAMPLE.COM");
    assert_eq!(keycloak_service_principal(" sso.example.com ", "example.com", "EXAMPLE.COM"), "HTTP/sso.example.com@EXAMPLE.COM");
}

#[test]
fn password_sync_steps() {
    let start = sync_kerberos_principal("bob", "pw", "EXAMPLE.COM", KadminStage::Start, Ok(()));
    assert!(matches!(start, KadminAction::InitWithKeytab { ref keytab_path, ref admin_principal, ref realm }
        if keytab_path == "/data/kadm5.keytab" && admin_principal == "admin/admin@EXAMPLE.COM" && realm == "EXAMPLE.COM"));
    let next = sync_kerberos_principal("bob", "pw", "EXAMPLE.COM", KadminStage::Initialized, Ok(()));
    assert!(matches!(next, KadminAction::ChangePassword { ref username, ref password, .. } if username == "bob" && password == "pw"));
    let fallback = sync_kerberos_principal("bob", "pw", "EXAMPLE.COM", KadminStage::PasswordChanged, Err("no such principal".to_string()));
    assert!(matches!(fallback, KadminAction::CreatePrincipal { .. }));
    let done = sync_kerberos_principal("bob", "pw", "EXAMPLE.COM", KadminStage::PasswordChanged, Ok(()));
    assert!(matches!(done, KadminAction::Succeed));
    let failed = sync_kerberos_principal("bob", "pw", "EXAMPLE.COM", KadminStage::PrincipalCreated, Err("boom".to_string()));
    assert!(matches!(failed, KadminAction::Fail { context: Some(ref c), ref cause }
        if c == "Failed to create new Kerberos principal" && cause == "boom"));
    let init_failed = sync_kerberos_principal("bob", "pw", "EXAMPLE.COM", KadminStage::Initialized, Err("no keytab".to_string()));
    assert!(matches!(init_failed, KadminAction::Fail { context: Some(_), ref cause } if cause == "no keytab"));
}

#[test]
fn sync_disabled_does_nothing() {
    assert!(matches!(
        sync_kerberos_if_enabled(false, "bob", "pw", "EXAMPLE.COM", KadminStage::Start, Ok(())),
        KadminAction::Succeed
    ));
    assert!(matches!(
        sync_kerberos_if_enabled(true, "bob", "pw", "EXAMPLE.COM", KadminStage::Start, Ok(())),
        KadminAction::InitWithKeytab { .. }
    ));
}

#[test]
fn principal_deletion_steps() {
    let del = delete_kerberos_principal("bob", "EXAMPLE.COM", KadminStage::Initialized, Ok(()));
    assert!(matches!(del, KadminAction::DeletePrincipal { ref principal } if principal == "bob@EXAMPLE.COM"));
    assert!(matches!(
        delete_kerberos_principal("bob", "EXAMPLE.COM", KadminStage::Initialized, Err("down".to_string())),
        KadminAction::Succeed
    ));
    assert!(matches!(
        delete_kerberos_principal("bob", "EXAMPLE.COM", KadminStage::PrincipalDeleted, Err("x".to_string())),
        KadminAction::Fail { context: None, ref cause } if cause == "x"
    ));
}

#[test]
fn keycloak_configuration() {
    let s = get_keycloak_suggested_config("dc=example,dc=com", None);
    assert_eq!(s.url, "http://keycloak.example.com");
    assert_eq!(s.realm, "example.com");
    assert_eq!(s.admin_username, "admin");
    assert_eq!(s.keycloak_hostname, "keycloak");
    let (c, p) = load_full_keycloak_config(None, "dc=example,dc=com", Some("Lab.Local"), None);
    assert_eq!(c, KeycloakConfig { url: "http://keycloak.example.com".into(), realm: "lab.local".into(), admin_user: "admin".into() });
    assert_eq!(p, "admin");
    let saved = KeycloakConfig { url: "u".into(), realm: "r".into(), admin_user: "a".into() };
    let (c, p) = load_full_keycloak_config(Some(saved.clone()), "dc=example,dc=com", None, Some("secret"));
    assert_eq!(c, saved);
    assert_eq!(p, "secret");
}

#[test]
fn generated_realm_values() {
    let options = KeycloakRealmGenerationOptions {
        realm: "Example".to_string(),
        use_ldaps: true,
        external_keycloak: false,
        external_keycloak_url: String::new(),
        keycloak_hostname: "keycloak".to_string(),
        enable_hsts: true,
        enable_brute_force: false,
    };
    let p = keycloak_realm_params(&options, "dc=example,dc=com", None);
    assert_eq!(p.realm, "example");
    assert_eq!(p.ssl_required, "external");
    assert_eq!(p.connection_url, "ldaps://lldap:636");
    assert_eq!(p.bind_dn, "uid=keycloak,ou=people,example,dc=com");
    assert_eq!(p.users_dn, "ou=people,example,dc=com");
    assert_eq!(p.kerberos_realm, "EXAMPLE.COM");
    assert_eq!(p.server_principal, "HTTP/keycloak.example.com@EXAMPLE.COM");
    assert_eq!(p.strict_transport_security, "max-age=31536000; includeSubDomains");
    assert!(!p.brute_force_protected);
    assert_eq!(replace_char_with("a.b.c", '.', ",dc="), "a,dc=b,dc=c");
}

#[test]
fn keycloak_status_and_settings() {
    assert!(creation_accepted(201));
    assert!(creation_accepted(409));
    assert!(!creation_accepted(400));
    assert!(deletion_accepted(204));
    assert!(deletion_accepted(404));
    assert!(!deletion_accepted(500));
    assert_eq!(custom_ldap_mappers().len(), 13);
    let settings = ldap_component_settings("example", "ldap://lldap:389", "sync", "pw");
    assert_eq!(settings.len(), 31);
    assert_eq!(realm_hsts_header(false), "");
    assert_eq!(realm_hsts_header(true), "max-age=31536000; includeSubDomains");
}

#[test]
fn principal_in_directory_realm() {
    let realm = derive_realm_from_base_dn("dc=testlabby,dc=local", None);
    assert_eq!(realm, "TESTLABBY.LOCAL");
    assert_eq!(get_kerberos_principal_name("testuser1", &realm), "testuser1@TESTLABBY.LOCAL");
    let realm = derive_realm_from_base_dn("dc=testlabby,dc=local", Some(""));
    assert_eq!(get_kerberos_principal_name("testuser1", &realm), "testuser1@TESTLABBY.LOCAL");
}
