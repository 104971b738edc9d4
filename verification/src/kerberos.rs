//! Kerberos realm naming, principal synchronisation and Keycloak federation settings.
//!
//! The realm and the domain come from the directory's base DN ("dc=example,dc=com"
//! gives the domain "example.com" and the realm "EXAMPLE.COM"). Talking to the
//! Kerberos admin service is done by the caller, one step at a time: the functions
//! here decide the next step from the answer to the previous one.
use vstd::prelude::*;
use crate::text::{
    char_string, copy_str, join, join_strings, push_str, split, split_str, starts_with, to_lowercase, to_uppercase,
    trim, trim_str, unicode_lower, unicode_upper, views,
};

verus! {

/// The values of the `dc=` pieces, in order (the prefix is matched exactly).
pub open spec fn dc_values(pieces: Seq<Seq<char>>) -> Seq<Seq<char>>
    decreases pieces.len(),
{
    if pieces.len() == 0 {
        Seq::<Seq<char>>::empty()
    } else {
        let r = dc_values(pieces.drop_last());
        let p = pieces.last();
        if p.len() >= 3 && p.take(3) == seq!['d', 'c', '='] {
            r.push(p.skip(3))
        } else {
            r
        }
    }
}

/// The DNS domain of a base DN: its `dc=` values joined with dots, lowercased.
pub open spec fn domain_of(base_dn: Seq<char>) -> Seq<char> {
    unicode_lower(join(dc_values(split(base_dn, ',')), seq!['.']))
}

/// The Kerberos realm: the configured realm name when one is set and not empty,
/// else the domain; uppercased.
pub open spec fn realm_of(base_dn: Seq<char>, realm_name: Option<Seq<char>>) -> Seq<char> {
    match realm_name {
        Some(r) if r.len() > 0 => unicode_upper(r),
        _ => unicode_upper(unicode_upper(domain_of(base_dn))),
    }
}

fn dc_prefix() -> (r: String)
    ensures
        r@ == seq!['d', 'c', '='],
{
    let mut s = char_string('d');
    crate::text::push_char(&mut s, 'c');
    crate::text::push_char(&mut s, '=');
    assert(s@ =~= seq!['d', 'c', '=']);
    s
}

/// The DNS domain named by a base DN ("dc=example,dc=com" gives "example.com").
pub fn derive_domain_from_base_dn(base_dn: &str) -> (r: String)
    ensures
        r@ == domain_of(base_dn@),
{
    let pieces = split_str(base_dn, ',');
    let ghost ps = views(pieces@);
    let prefix = dc_prefix();
    let mut vals: Vec<String> = Vec::new();
    let mut i: usize = 0;
    while i < pieces.len()
        invariant
            i <= pieces@.len(),
            ps == views(pieces@),
            prefix@ == seq!['d', 'c', '='],
            views(vals@) == dc_values(ps.take(i as int)),
        decreases pieces@.len() - i,
    {
        let ghost before = views(vals@);
        assert(ps.take(i + 1).drop_last() =~= ps.take(i as int));
        assert(ps.take(i + 1).last() == pieces@[i as int]@);
        if starts_with(pieces[i].as_str(), prefix.as_str()) {
            let v = crate::text::chars_of(pieces[i].as_str());
            let mut rest = crate::text::empty_string();
            crate::text::push_chars(&mut rest, &v, 3, v.len());
            assert(rest@ =~= pieces@[i as int]@.skip(3));
            vals.push(rest);
            assert(views(vals@) =~= before.push(pieces@[i as int]@.skip(3)));
        }
        i += 1;
    }
    assert(ps.take(pieces@.len() as int) =~= ps);
    let dot = char_string('.');
    let joined = join_strings(&vals, dot.as_str());
    to_lowercase(joined.as_str())
}

/// The Kerberos realm of the directory: `realm_name` when set and not empty, else
/// the domain of the base DN; uppercased.
pub fn derive_realm_from_base_dn(base_dn: &str, realm_name: Option<&str>) -> (r: String)
    ensures
        r@ == realm_of(base_dn@, match realm_name {
            Some(s) => Some(s@),
            None => None,
        }),
{
    match realm_name {
        Some(name) => {
            if !name.is_empty() {
                return to_uppercase(name);
            }
        },
        None => {},
    }
    let domain = derive_domain_from_base_dn(base_dn);
    let upper = to_uppercase(domain.as_str());
    to_uppercase(upper.as_str())
}

/// The principal of a user in a realm: `user@REALM`.
pub open spec fn principal_text(username: Seq<char>, realm: Seq<char>) -> Seq<char> {
    username + seq!['@'] + realm
}

/// The full Kerberos principal name of a user ("testuser1@TESTLABBY.LOCAL").
pub fn get_kerberos_principal_name(username: &str, realm_upper: &str) -> (r: String)
    ensures
        r@ == principal_text(username@, realm_upper@),
{
    let mut s = copy_str(username);
    crate::text::push_char(&mut s, '@');
    push_str(&mut s, realm_upper);
    s
}

/// The keytab that authenticates the directory to the Kerberos admin service.
pub const ADMIN_KEYTAB_PATH: &'static str = "/data/kadm5.keytab";

/// A step of work with the Kerberos admin service.
pub enum KadminAction {
    /// Open an admin handle with the keytab, as the admin principal of the realm.
    InitWithKeytab { keytab_path: String, admin_principal: String, realm: String },
    /// Change the password of an existing principal.
    ChangePassword { username: String, password: String, realm: String },
    /// Create a principal with a password.
    CreatePrincipal { username: String, password: String, realm: String },
    /// Delete a principal.
    DeletePrincipal { principal: String },
    /// Done, successfully.
    Succeed,
    /// Done, with an error: a description of the step that failed (if any), and the cause.
    Fail { context: Option<String>, cause: String },
}

/// Which step the answer given with it belongs to.
#[derive(Clone, Copy, Debug, PartialEq, Eq, Structural)]
pub enum KadminStage {
    Start,
    Initialized,
    PasswordChanged,
    PrincipalCreated,
    PrincipalDeleted,
}

/// The admin principal of a realm: `admin/admin@REALM`.
pub open spec fn admin_principal_text(realm: Seq<char>) -> Seq<char> {
    "admin/admin@"@ + realm
}

fn init_action(realm_upper: &str) -> (r: KadminAction)
    ensures
        r matches KadminAction::InitWithKeytab { keytab_path, admin_principal, realm }
            && keytab_path@ == ADMIN_KEYTAB_PATH@ && admin_principal@ == admin_principal_text(
            realm_upper@,
        ) && realm@ == realm_upper@,
{
    let mut admin = copy_str("admin/admin@");
    push_str(&mut admin, realm_upper);
    KadminAction::InitWithKeytab {
        keytab_path: copy_str(ADMIN_KEYTAB_PATH),
        admin_principal: admin,
        realm: copy_str(realm_upper),
    }
}

/// Whether an action is the opening of an admin handle for a realm.
pub open spec fn is_init_for(a: KadminAction, realm_upper: Seq<char>) -> bool {
    a matches KadminAction::InitWithKeytab { keytab_path, admin_principal, realm }
        && keytab_path@ == ADMIN_KEYTAB_PATH@ && admin_principal@ == admin_principal_text(
        realm_upper,
    ) && realm@ == realm_upper
}

/// Whether `r` is the right next step in setting a user's Kerberos password.
pub open spec fn is_sync_step(
    r: KadminAction,
    username: Seq<char>,
    plain_password: Seq<char>,
    realm_upper: Seq<char>,
    stage: KadminStage,
    reply: Result<(), String>,
) -> bool {
    match stage {
            KadminStage::Start => is_init_for(r, realm_upper),
            KadminStage::Initialized => match reply {
                Ok(()) => r matches KadminAction::ChangePassword { username: u, password: p, realm }
                    && u@ == username && p@ == plain_password && realm@ == realm_upper,
                Err(e) => r matches KadminAction::Fail { context: Some(c), cause } && c@
                    == "Failed to initialize Kerberos admin handle with keytab (check keytab exists/permissions)"@
                    && cause == e,
            },
            KadminStage::PasswordChanged => match reply {
                Ok(()) => r is Succeed,
                Err(_) => r matches KadminAction::CreatePrincipal { username: u, password: p, realm }
                    && u@ == username && p@ == plain_password && realm@ == realm_upper,
            },
            KadminStage::PrincipalCreated => match reply {
                Ok(()) => r is Succeed,
                Err(e) => r matches KadminAction::Fail { context: Some(c), cause } && c@
                    == "Failed to create new Kerberos principal"@ && cause == e,
            },
            KadminStage::PrincipalDeleted => r matches KadminAction::Fail { context: None, cause }
                && cause@ == "unexpected Kerberos admin step"@,
        }
}

/// The next step in setting a user's Kerberos password: open the admin handle;
/// then try to change the password; if that fails (most often because the
/// principal does not exist yet), create the principal with the password.
/// `reply` is the answer to the step named by `stage` (ignored at the start).
pub fn sync_kerberos_principal(
    username: &str,
    plain_password: &str,
    realm_upper: &str,
    stage: KadminStage,
    reply: Result<(), String>,
) -> (r: KadminAction)
    ensures
        is_sync_step(r, username@, plain_password@, realm_upper@, stage, reply),
{
    match stage {
        KadminStage::Start => init_action(realm_upper),
        KadminStage::Initialized => match reply {
            Ok(()) => KadminAction::ChangePassword {
                username: copy_str(username),
                password: copy_str(plain_password),
                realm: copy_str(realm_upper),
            },
            Err(e) => KadminAction::Fail {
                context: Some(
                    copy_str(
                        "Failed to initialize Kerberos admin handle with keytab (check keytab exists/permissions)",
                    ),
                ),
                cause: e,
            },
        },
        KadminStage::PasswordChanged => match reply {
            Ok(()) => KadminAction::Succeed,
            Err(_) => KadminAction::CreatePrincipal {
                username: copy_str(username),
                password: copy_str(plain_password),
                realm: copy_str(realm_upper),
            },
        },
        KadminStage::PrincipalCreated => match reply {
            Ok(()) => KadminAction::Succeed,
            Err(e) => KadminAction::Fail {
                context: Some(copy_str("Failed to create new Kerberos principal")),
                cause: e,
            },
        },
        KadminStage::PrincipalDeleted => KadminAction::Fail {
            context: None,
            cause: copy_str("unexpected Kerberos admin step"),
        },
    }
}

/// The next step in deleting a user's principal: open the admin handle; when it
/// cannot be opened, Kerberos is not available and there is nothing to delete
/// (success); else delete `user@REALM`, whose failure is an error.
pub fn delete_kerberos_principal(
    username: &str,
    realm_upper: &str,
    stage: KadminStage,
    reply: Result<(), String>,
) -> (r: KadminAction)
    ensures
        match stage {
            KadminStage::Start => is_init_for(r, realm_upper@),
            KadminStage::Initialized => match reply {
                Ok(()) => r matches KadminAction::DeletePrincipal { principal } && principal@
                    == principal_text(username@, realm_upper@),
                Err(_) => r is Succeed,
            },
            KadminStage::PrincipalDeleted => match reply {
                Ok(()) => r is Succeed,
                Err(e) => r matches KadminAction::Fail { context: None, cause } && cause == e,
            },
            _ => r matches KadminAction::Fail { context: None, cause } && cause@
                == "unexpected Kerberos admin step"@,
        },
{
    match stage {
        KadminStage::Start => init_action(realm_upper),
        KadminStage::Initialized => match reply {
            Ok(()) => KadminAction::DeletePrincipal {
                principal: get_kerberos_principal_name(username, realm_upper),
            },
            Err(_) => KadminAction::Succeed,
        },
        KadminStage::PrincipalDeleted => match reply {
            Ok(()) => KadminAction::Succeed,
            Err(e) => KadminAction::Fail { context: None, cause: e },
        },
        _ => KadminAction::Fail { context: None, cause: copy_str("unexpected Kerberos admin step") },
    }
}

/// Like `sync_kerberos_principal` when the user has Kerberos sync enabled; else
/// there is nothing to do.
pub fn sync_kerberos_if_enabled(
    sync_enabled: bool,
    user_id: &str,
    plain_password: &str,
    realm_upper: &str,
    stage: KadminStage,
    reply: Result<(), String>,
) -> (r: KadminAction)
    ensures
        !sync_enabled ==> r is Succeed,
        sync_enabled ==> is_sync_step(r, user_id@, plain_password@, realm_upper@, stage, reply),
{
    if sync_enabled {
        sync_kerberos_principal(user_id, plain_password, realm_upper, stage, reply)
    } else {
        KadminAction::Succeed
    }
}

/// Where the Keycloak admin API is and which realm and admin user to use.
#[derive(Clone, Debug, PartialEq, Eq)]
pub struct KeycloakConfig {
    pub url: String,
    pub realm: String,
    pub admin_user: String,
}

/// The settings proposed to the administrator before any were saved.
#[derive(Clone, Debug, PartialEq, Eq)]
pub struct KeycloakSuggestedConfig {
    pub url: String,
    pub realm: String,
    pub admin_username: String,
    pub keycloak_hostname: String,
}

/// What the administrator chose for a generated Keycloak realm.
#[derive(Clone, Debug, PartialEq, Eq)]
pub struct KeycloakRealmGenerationOptions {
    pub realm: String,
    pub use_ldaps: bool,
    pub external_keycloak: bool,
    pub external_keycloak_url: String,
    pub keycloak_hostname: String,
    pub enable_hsts: bool,
    pub enable_brute_force: bool,
}

/// The text of an optional string.
pub open spec fn opt_view(o: Option<&str>) -> Option<Seq<char>> {
    match o {
        Some(s) => Some(s@),
        None => None,
    }
}

/// The Keycloak URL proposed for a domain: `http://keycloak.<domain>`.
pub open spec fn keycloak_url_text(domain: Seq<char>) -> Seq<char> {
    "http://keycloak."@ + domain
}

/// The settings proposed when none were saved: Keycloak at `keycloak.<domain>`,
/// the lowercased realm, the `admin` user.
pub fn get_keycloak_suggested_config(base_dn: &str, realm_name: Option<&str>) -> (r: KeycloakSuggestedConfig)
    ensures
        r.url@ == keycloak_url_text(domain_of(base_dn@)),
        r.realm@ == unicode_lower(realm_of(base_dn@, opt_view(realm_name))),
        r.admin_username@ == "admin"@,
        r.keycloak_hostname@ == "keycloak"@,
{
    let realm = derive_realm_from_base_dn(base_dn, realm_name);
    let domain = derive_domain_from_base_dn(base_dn);
    let mut url = copy_str("http://keycloak.");
    push_str(&mut url, domain.as_str());
    KeycloakSuggestedConfig {
        url,
        realm: to_lowercase(realm.as_str()),
        admin_username: copy_str("admin"),
        keycloak_hostname: copy_str("keycloak"),
    }
}

/// The Keycloak settings and admin password in force: the saved settings when
/// there are some, else the proposed ones; the configured password, else `admin`.
pub fn load_full_keycloak_config(
    saved: Option<KeycloakConfig>,
    base_dn: &str,
    realm_name: Option<&str>,
    admin_password: Option<&str>,
) -> (r: (KeycloakConfig, String))
    ensures
        match saved {
            Some(c) => r.0 == c,
            None => r.0.url@ == keycloak_url_text(domain_of(base_dn@)) && r.0.realm@
                == unicode_lower(realm_of(base_dn@, opt_view(realm_name))) && r.0.admin_user@
                == "admin"@,
        },
        r.1@ == (match admin_password {
            Some(p) => p@,
            None => "admin"@,
        }),
{
    let config = match saved {
        Some(c) => c,
        None => {
            let realm = derive_realm_from_base_dn(base_dn, realm_name);
            let domain = derive_domain_from_base_dn(base_dn);
            let mut url = copy_str("http://keycloak.");
            push_str(&mut url, domain.as_str());
            KeycloakConfig { url, realm: to_lowercase(realm.as_str()), admin_user: copy_str("admin") }
        },
    };
    let password = match admin_password {
        Some(p) => copy_str(p),
        None => copy_str("admin"),
    };
    (config, password)
}

/// The text with every `c` replaced by `t`.
pub open spec fn replace_char(s: Seq<char>, c: char, t: Seq<char>) -> Seq<char>
    decreases s.len(),
{
    if s.len() == 0 {
        s
    } else if s.last() == c {
        replace_char(s.drop_last(), c, t) + t
    } else {
        replace_char(s.drop_last(), c, t).push(s.last())
    }
}

/// The string with every `c` replaced by `t` (`str::replace` with a `char`).
pub fn replace_char_with(s: &str, c: char, t: &str) -> (r: String)
    ensures
        r@ == replace_char(s@, c, t@),
{
    let v = crate::text::chars_of(s);
    let mut r = crate::text::empty_string();
    let mut i: usize = 0;
    while i < v.len()
        invariant
            i <= v@.len(),
            v@ == s@,
            r@ == replace_char(v@.take(i as int), c, t@),
        decreases v@.len() - i,
    {
        assert(v@.take(i + 1).drop_last() =~= v@.take(i as int));
        if v[i] == c {
            push_str(&mut r, t);
        } else {
            crate::text::push_char(&mut r, v[i]);
        }
        i += 1;
    }
    assert(v@.take(v@.len() as int) =~= v@);
    r
}

/// The host name of Keycloak: the one given when it is set and not `keycloak`,
/// else `keycloak.<domain>`.
pub open spec fn keycloak_host(given: Seq<char>, domain: Seq<char>) -> Seq<char> {
    if trim(given).len() == 0 || trim(given) == "keycloak"@ {
        "keycloak."@ + domain
    } else {
        given
    }
}

fn is_keycloak_default(trimmed: &str) -> (r: bool)
    ensures
        r == (trimmed@ == "keycloak"@),
{
    crate::text::str_eq(trimmed, "keycloak")
}

/// The service principal that Keycloak uses for SPNEGO: `HTTP/<host>@REALM`, with the
/// host given (trimmed), or `keycloak.<domain>` when it is empty or just `keycloak`.
pub fn keycloak_service_principal(hostname_input: &str, domain: &str, realm: &str) -> (r: String)
    ensures
        r@ == "HTTP/"@ + keycloak_host(trim(hostname_input@), domain@) + seq!['@'] + realm@,
{
    let t = trim_str(hostname_input);
    proof {
        crate::text::lemma_trim_ends(hostname_input@);
        crate::text::lemma_trim_noop(trim(hostname_input@));
    }
    let host = if t.as_str().is_empty() || is_keycloak_default(t.as_str()) {
        let mut h = copy_str("keycloak.");
        push_str(&mut h, domain);
        h
    } else {
        t
    };
    let mut p = copy_str("HTTP/");
    push_str(&mut p, host.as_str());
    crate::text::push_char(&mut p, '@');
    push_str(&mut p, realm);
    p
}

/// The values that a generated Keycloak realm holds besides its fixed settings.
pub struct KeycloakRealmParams {
    pub realm: String,
    pub ssl_required: String,
    pub connection_url: String,
    pub bind_dn: String,
    pub users_dn: String,
    pub groups_dn: String,
    pub kerberos_realm: String,
    pub server_principal: String,
    pub strict_transport_security: String,
    pub brute_force_protected: bool,
}

/// The DN suffix written into a generated realm: the lowercased realm with each dot
/// turned into `,dc=`.
pub open spec fn realm_dn_suffix(realm_upper: Seq<char>) -> Seq<char> {
    replace_char(unicode_lower(realm_upper), '.', ",dc="@)
}

/// The Keycloak host of a generated realm: the external URL when Keycloak is
/// external and one is given; else the host name chosen, or `keycloak.<domain>`.
pub open spec fn realm_keycloak_host(o: KeycloakRealmGenerationOptions, domain: Seq<char>) -> Seq<char> {
    if o.external_keycloak && trim(o.external_keycloak_url@).len() > 0 {
        o.external_keycloak_url@
    } else {
        keycloak_host(o.keycloak_hostname@, domain)
    }
}

/// The variable values of a generated Keycloak realm (the rest of its JSON is fixed).
pub fn keycloak_realm_params(
    options: &KeycloakRealmGenerationOptions,
    base_dn: &str,
    realm_name: Option<&str>,
) -> (r: KeycloakRealmParams)
    ensures
        r.realm@ == unicode_lower(options.realm@),
        r.ssl_required@ == (if options.use_ldaps { "external"@ } else { "none"@ }),
        r.connection_url@ == (if options.use_ldaps { "ldaps://lldap:636"@ } else { "ldap://lldap:389"@ }),
        r.bind_dn@ == "uid=keycloak,ou=people,"@ + realm_dn_suffix(realm_of(base_dn@, opt_view(realm_name))),
        r.users_dn@ == "ou=people,"@ + realm_dn_suffix(realm_of(base_dn@, opt_view(realm_name))),
        r.groups_dn@ == "ou=groups,"@ + realm_dn_suffix(realm_of(base_dn@, opt_view(realm_name))),
        r.kerberos_realm@ == realm_of(base_dn@, opt_view(realm_name)),
        r.server_principal@ == "HTTP/"@ + realm_keycloak_host(*options, domain_of(base_dn@)) + seq!['@']
            + realm_of(base_dn@, opt_view(realm_name)),
        r.strict_transport_security@ == (if options.enable_hsts {
            "max-age=31536000; includeSubDomains"@
        } else {
            Seq::<char>::empty()
        }),
        r.brute_force_protected == options.enable_brute_force,
{
    let realm_lower = to_lowercase(options.realm.as_str());
    let realm_upper = derive_realm_from_base_dn(base_dn, realm_name);
    let domain = derive_domain_from_base_dn(base_dn);
    let ext = trim_str(options.external_keycloak_url.as_str());
    let given = trim_str(options.keycloak_hostname.as_str());
    let hostname = if options.external_keycloak && !ext.as_str().is_empty() {
        options.external_keycloak_url.clone()
    } else if given.as_str().is_empty() || is_keycloak_default(given.as_str()) {
        let mut h = copy_str("keycloak.");
        push_str(&mut h, domain.as_str());
        h
    } else {
        options.keycloak_hostname.clone()
    };
    let lower_realm = to_lowercase(realm_upper.as_str());
    let suffix = replace_char_with(lower_realm.as_str(), '.', ",dc=");
    let mut bind_dn = copy_str("uid=keycloak,ou=people,");
    push_str(&mut bind_dn, suffix.as_str());
    let mut users_dn = copy_str("ou=people,");
    push_str(&mut users_dn, suffix.as_str());
    let mut groups_dn = copy_str("ou=groups,");
    push_str(&mut groups_dn, suffix.as_str());
    let mut server_principal = copy_str("HTTP/");
    push_str(&mut server_principal, hostname.as_str());
    crate::text::push_char(&mut server_principal, '@');
    push_str(&mut server_principal, realm_upper.as_str());
    KeycloakRealmParams {
        realm: realm_lower,
        ssl_required: if options.use_ldaps { copy_str("external") } else { copy_str("none") },
        connection_url: if options.use_ldaps {
            copy_str("ldaps://lldap:636")
        } else {
            copy_str("ldap://lldap:389")
        },
        bind_dn,
        users_dn,
        groups_dn,
        kerberos_realm: realm_upper,
        server_principal,
        strict_transport_security: if options.enable_hsts {
            copy_str("max-age=31536000; includeSubDomains")
        } else {
            crate::text::empty_string()
        },
        brute_force_protected: options.enable_brute_force,
    }
}

} // verus!
