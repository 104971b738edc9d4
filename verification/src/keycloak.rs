//! What the directory asks Keycloak to set up when it federates a realm: the LDAP
//! user storage component, the attribute mappers, and which answers count as done.
//! The HTTP exchanges themselves are the caller's.
use vstd::prelude::*;
use crate::kerberos::{replace_char, replace_char_with};
use crate::text::{copy_str, push_str, to_uppercase, unicode_upper, views};

verus! {

/// A Keycloak attribute mapper of the LDAP storage: its name, the LDAP attribute,
/// the Keycloak user attribute, whether LDAP must hold it, and whether it holds
/// several values.
pub struct LdapMapper {
    pub name: String,
    pub ldap_attribute: String,
    pub model_attribute: String,
    pub mandatory: bool,
    pub multivalued: bool,
}

/// A mapper as plain values.
pub open spec fn mapper_view(m: LdapMapper) -> (Seq<char>, Seq<char>, Seq<char>, bool, bool) {
    (m.name@, m.ldap_attribute@, m.model_attribute@, m.mandatory, m.multivalued)
}

/// The mappers the directory creates: identity, POSIX, Kerberos, SSH, OU and
/// Kerberos synchronisation, each read-only and always read from LDAP.
pub open spec fn custom_mapper_table() -> Seq<(Seq<char>, Seq<char>, Seq<char>, bool, bool)> {
    seq![
        ("first name"@, "givenName"@, "firstName"@, false, false),
        ("last name"@, "sn"@, "lastName"@, false, false),
        ("email"@, "mail"@, "email"@, false, false),
        ("username"@, "uid"@, "username"@, true, false),
        ("display name"@, "cn"@, "displayName"@, false, false),
        ("uid number"@, "uidNumber"@, "uidNumber"@, false, false),
        ("gid number"@, "gidNumber"@, "gidNumber"@, false, false),
        ("home directory"@, "homeDirectory"@, "homeDirectory"@, false, false),
        ("login shell"@, "loginShell"@, "loginShell"@, false, false),
        ("krb principal name"@, "krbPrincipalName"@, "krbPrincipalName"@, false, false),
        ("ssh public key"@, "sshPublicKey"@, "sshPublicKey"@, false, true),
        ("ou"@, "ou"@, "ou"@, false, false),
        ("kerberos sync"@, "kerberossync"@, "kerberosSync"@, false, false),
    ]
}

fn push_mapper(
    v: &mut Vec<LdapMapper>,
    name: &str,
    ldap_attribute: &str,
    model_attribute: &str,
    mandatory: bool,
    multivalued: bool,
)
    ensures
        final(v)@.map_values(|m: LdapMapper| mapper_view(m)) == old(v)@.map_values(|m: LdapMapper| mapper_view(m)).push(
            (name@, ldap_attribute@, model_attribute@, mandatory, multivalued),
        ),
{
    let ghost before = v@;
    v.push(
        LdapMapper {
            name: copy_str(name),
            ldap_attribute: copy_str(ldap_attribute),
            model_attribute: copy_str(model_attribute),
            mandatory,
            multivalued,
        },
    );
    assert(v@.map_values(|m: LdapMapper| mapper_view(m)) =~= before.map_values(|m: LdapMapper| mapper_view(m)).push(
        (name@, ldap_attribute@, model_attribute@, mandatory, multivalued),
    ));
}

/// The attribute mappers the directory creates on the LDAP storage of a realm.
pub fn custom_ldap_mappers() -> (r: Vec<LdapMapper>)
    ensures
        r@.map_values(|m: LdapMapper| mapper_view(m)) == custom_mapper_table(),
{
    let mut v: Vec<LdapMapper> = Vec::new();
    assert(v@.map_values(|m: LdapMapper| mapper_view(m)) =~= Seq::empty());
    push_mapper(&mut v, "first name", "givenName", "firstName", false, false);
    push_mapper(&mut v, "last name", "sn", "lastName", false, false);
    push_mapper(&mut v, "email", "mail", "email", false, false);
    push_mapper(&mut v, "username", "uid", "username", true, false);
    push_mapper(&mut v, "display name", "cn", "displayName", false, false);
    push_mapper(&mut v, "uid number", "uidNumber", "uidNumber", false, false);
    push_mapper(&mut v, "gid number", "gidNumber", "gidNumber", false, false);
    push_mapper(&mut v, "home directory", "homeDirectory", "homeDirectory", false, false);
    push_mapper(&mut v, "login shell", "loginShell", "loginShell", false, false);
    push_mapper(&mut v, "krb principal name", "krbPrincipalName", "krbPrincipalName", false, false);
    push_mapper(&mut v, "ssh public key", "sshPublicKey", "sshPublicKey", false, true);
    push_mapper(&mut v, "ou", "ou", "ou", false, false);
    push_mapper(&mut v, "kerberos sync", "kerberossync", "kerberosSync", false, false);
    v
}

/// Whether an answer to a creation counts as done: success, or the thing exists already.
pub fn creation_accepted(status: u16) -> (r: bool)
    ensures
        r == ((200 <= status && status <= 299) || status == 409),
{
    (200 <= status && status <= 299) || status == 409
}

/// Whether an answer to a deletion counts as done: success, or the thing is gone already.
pub fn deletion_accepted(status: u16) -> (r: bool)
    ensures
        r == ((200 <= status && status <= 299) || status == 404),
{
    (200 <= status && status <= 299) || status == 404
}

/// The base DN that Keycloak derives from a realm name (`example.com` gives
/// `dc=example,dc=com`).
pub open spec fn realm_base_dn(realm: Seq<char>) -> Seq<char> {
    "dc="@ + replace_char(realm, '.', ",dc="@)
}

/// The settings of the LDAP user storage component that federates the directory
/// into realm `realm`, reached at `lldap_url` with the synchronisation account.
pub open spec fn ldap_component_table(
    realm: Seq<char>,
    lldap_url: Seq<char>,
    sync_username: Seq<char>,
    sync_password: Seq<char>,
) -> Seq<(Seq<char>, Seq<char>)> {
    let base = realm_base_dn(realm);
    let upper = unicode_upper(realm);
    seq![
        ("vendor"@, "other"@),
        ("connectionUrl"@, lldap_url),
        ("bindDn"@, "uid="@ + sync_username + ",ou=people,"@ + base),
        ("bindCredential"@, sync_password),
        ("usersDn"@, "ou=people,"@ + base),
        ("groupsDn"@, "ou=groups,"@ + base),
        ("userObjectClasses"@, "top, person, inetOrgPerson, posixAccount, ldapPublicKey"@),
        ("rdnLDAPAttribute"@, "uid"@),
        ("uuidLDAPAttribute"@, "entryUUID"@),
        ("usernameLDAPAttribute"@, "uid"@),
        ("customUserSearchFilter"@, "(&(!(objectClass=organizationalUnit))(kerberossync=1))"@),
        ("searchScope"@, "2"@),
        ("validatePasswordPolicy"@, "false"@),
        ("trustEmail"@, "true"@),
        ("syncRegistrations"@, "true"@),
        ("fullSyncPeriod"@, "86400"@),
        ("changedSyncPeriod"@, "300"@),
        ("editMode"@, "READ_ONLY"@),
        ("importEnabled"@, "true"@),
        ("pagination"@, "true"@),
        ("allowKerberosAuthentication"@, "true"@),
        ("kerberosRealm"@, upper),
        ("serverPrincipal"@, "HTTP/keycloak."@ + realm + "@"@ + upper),
        ("keyTab"@, "/keytab/keycloak-http.keytab"@),
        ("krbPrincipalAttribute"@, "krbPrincipalName"@),
        ("useKerberosForPasswordAuthentication"@, "false"@),
        ("useTruststoreSpi"@, "always"@),
        ("connectionPooling"@, "true"@),
        ("cachePolicy"@, "DEFAULT"@),
        ("usePasswordModifyExtendedOp"@, "false"@),
        ("connectionTrace"@, "false"@),
    ]
}

/// Settings as plain values.
pub open spec fn setting_views(v: Seq<(String, String)>) -> Seq<(Seq<char>, Seq<char>)> {
    v.map_values(|p: (String, String)| (p.0@, p.1@))
}

fn push_setting(v: &mut Vec<(String, String)>, k: &str, val: &str)
    ensures
        setting_views(final(v)@) == setting_views(old(v)@).push((k@, val@)),
{
    let ghost before = v@;
    v.push((copy_str(k), copy_str(val)));
    assert(setting_views(v@) =~= setting_views(before).push((k@, val@)));
}

/// The settings of the LDAP user storage component for a realm (each value is
/// sent as a one-element list).
#[verifier::rlimit(40)]
pub fn ldap_component_settings(realm: &str, lldap_url: &str, sync_username: &str, sync_password: &str) -> (r: Vec<
    (String, String),
>)
    ensures
        setting_views(r@) == ldap_component_table(realm@, lldap_url@, sync_username@, sync_password@),
{
    let suffix = replace_char_with(realm, '.', ",dc=");
    let mut base = copy_str("dc=");
    push_str(&mut base, suffix.as_str());
    let upper = to_uppercase(realm);
    let mut bind_dn = copy_str("uid=");
    push_str(&mut bind_dn, sync_username);
    push_str(&mut bind_dn, ",ou=people,");
    push_str(&mut bind_dn, base.as_str());
    let mut users_dn = copy_str("ou=people,");
    push_str(&mut users_dn, base.as_str());
    let mut groups_dn = copy_str("ou=groups,");
    push_str(&mut groups_dn, base.as_str());
    let mut principal = copy_str("HTTP/keycloak.");
    push_str(&mut principal, realm);
    push_str(&mut principal, "@");
    push_str(&mut principal, upper.as_str());
    let mut v: Vec<(String, String)> = Vec::new();
    assert(setting_views(v@) =~= Seq::empty());
    push_setting(&mut v, "vendor", "other");
    push_setting(&mut v, "connectionUrl", lldap_url);
    push_setting(&mut v, "bindDn", bind_dn.as_str());
    push_setting(&mut v, "bindCredential", sync_password);
    push_setting(&mut v, "usersDn", users_dn.as_str());
    push_setting(&mut v, "groupsDn", groups_dn.as_str());
    push_setting(&mut v, "userObjectClasses", "top, person, inetOrgPerson, posixAccount, ldapPublicKey");
    push_setting(&mut v, "rdnLDAPAttribute", "uid");
    push_setting(&mut v, "uuidLDAPAttribute", "entryUUID");
    push_setting(&mut v, "usernameLDAPAttribute", "uid");
    push_setting(&mut v, "customUserSearchFilter", "(&(!(objectClass=organizationalUnit))(kerberossync=1))");
    push_setting(&mut v, "searchScope", "2");
    push_setting(&mut v, "validatePasswordPolicy", "false");
    push_setting(&mut v, "trustEmail", "true");
    push_setting(&mut v, "syncRegistrations", "true");
    push_setting(&mut v, "fullSyncPeriod", "86400");
    push_setting(&mut v, "changedSyncPeriod", "300");
    push_setting(&mut v, "editMode", "READ_ONLY");
    push_setting(&mut v, "importEnabled", "true");
    push_setting(&mut v, "pagination", "true");
    push_setting(&mut v, "allowKerberosAuthentication", "true");
    push_setting(&mut v, "kerberosRealm", upper.as_str());
    push_setting(&mut v, "serverPrincipal", principal.as_str());
    push_setting(&mut v, "keyTab", "/keytab/keycloak-http.keytab");
    push_setting(&mut v, "krbPrincipalAttribute", "krbPrincipalName");
    push_setting(&mut v, "useKerberosForPasswordAuthentication", "false");
    push_setting(&mut v, "useTruststoreSpi", "always");
    push_setting(&mut v, "connectionPooling", "true");
    push_setting(&mut v, "cachePolicy", "DEFAULT");
    push_setting(&mut v, "usePasswordModifyExtendedOp", "false");
    push_setting(&mut v, "connectionTrace", "false");
    v
}

/// The HSTS header a new realm sends: a year with subdomains when asked for, else none.
pub fn realm_hsts_header(enable_hsts: bool) -> (r: &'static str)
    ensures
        enable_hsts ==> r@ == "max-age=31536000; includeSubDomains"@,
        !enable_hsts ==> r@ == ""@,
{
    if enable_hsts {
        "max-age=31536000; includeSubDomains"
    } else {
        ""
    }
}

} // verus!
