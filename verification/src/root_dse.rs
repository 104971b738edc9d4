//! The root DSE (the entry with the empty DN) and the recognition of the
//! requests for it and for the subschema entry.
use vstd::prelude::*;
use crate::kerberos::{derive_realm_from_base_dn, realm_of};
use crate::proto::{
    attrs_view, text_attr, text_attribute, LdapFilter, LdapOp, LdapPartialAttribute, LdapSearchRequest,
    LdapSearchResultEntry, LdapSearchScope,
};
use crate::text::{concat, contains_str, copy_str, eq_ic, eq_ignore_ascii_case, has_substring, lower, str_eq, to_ascii_lowercase, views};

verus! {

/// The OID of the password modify extended operation (`ldap3_proto::proto::OID_PASSWORD_MODIFY`,
/// whose source defines it as this literal).
#[verifier::external_body]
pub(crate) fn oid_password_modify() -> (r: String)
    ensures
        r@ == "1.3.6.1.4.1.4203.1.11.1"@,
{
    ldap3_proto::proto::OID_PASSWORD_MODIFY.to_string()
}

/// The OID of the "who am I?" extended operation (`ldap3_proto::proto::OID_WHOAMI`, whose
/// source defines it as this literal).
#[verifier::external_body]
pub(crate) fn oid_whoami() -> (r: String)
    ensures
        r@ == "1.3.6.1.4.1.4203.1.11.3"@,
{
    ldap3_proto::proto::OID_WHOAMI.to_string()
}

/// The attributes of the root DSE for base DN `base`, Kerberos realm `realm` and
/// server version `version`.
pub open spec fn root_dse_attributes(base: Seq<char>, realm: Seq<char>, version: Seq<char>) -> Seq<
    (Seq<char>, Seq<Seq<u8>>),
> {
    seq![
        text_attr("objectClass"@, seq!["top"@]),
        text_attr("vendorName"@, seq!["LLDAP"@]),
        text_attr("vendorVersion"@, seq!["lldap_"@ + version]),
        text_attr("supportedLDAPVersion"@, seq!["3"@]),
        text_attr("supportedExtension"@, seq!["1.3.6.1.4.1.4203.1.11.1"@, "1.3.6.1.4.1.4203.1.11.3"@]),
        text_attr("supportedControl"@, seq!["1.2.840.113556.1.4.319"@, "1.3.6.1.4.1.4203.1.9.1"@]),
        text_attr("defaultNamingContext"@, seq![base]),
        text_attr("namingContexts"@, seq![base]),
        text_attr("schemaNamingContext"@, seq!["cn=Subschema,"@ + base]),
        text_attr("configurationNamingContext"@, seq![base]),
        text_attr("isGlobalCatalogReady"@, seq!["false"@]),
        text_attr("subschemaSubentry"@, seq!["cn=Subschema,"@ + base]),
        text_attr("krb5RealmName"@, seq![realm]),
        text_attr("supportedSASLMechanisms"@, seq!["GSSAPI"@, "GSS-SPNEGO"@, "DIGEST-MD5"@]),
        text_attr("defaultRealm"@, seq![realm]),
    ]
}

fn push_attr(v: &mut Vec<LdapPartialAttribute>, a: LdapPartialAttribute)
    ensures
        attrs_view(final(v)@) == attrs_view(old(v)@).push(crate::proto::attr_view(a)),
{
    let ghost before = v@;
    v.push(a);
    assert(attrs_view(v@) =~= attrs_view(before).push(crate::proto::attr_view(a)));
}

fn texts1(a: &str) -> (r: Vec<String>)
    ensures
        views(r@) == seq![a@],
{
    let mut v: Vec<String> = Vec::new();
    v.push(copy_str(a));
    assert(views(v@) =~= seq![a@]);
    v
}

fn texts2(a: &str, b: &str) -> (r: Vec<String>)
    ensures
        views(r@) == seq![a@, b@],
{
    let mut v: Vec<String> = Vec::new();
    v.push(copy_str(a));
    v.push(copy_str(b));
    assert(views(v@) =~= seq![a@, b@]);
    v
}

fn texts3(a: &str, b: &str, c: &str) -> (r: Vec<String>)
    ensures
        views(r@) == seq![a@, b@, c@],
{
    let mut v: Vec<String> = Vec::new();
    v.push(copy_str(a));
    v.push(copy_str(b));
    v.push(copy_str(c));
    assert(views(v@) =~= seq![a@, b@, c@]);
    v
}

/// The root DSE of a directory with base DN `base_dn`: naming contexts, the
/// subschema entry, the supported extensions, controls and SASL mechanisms, and
/// the Kerberos realm (the configured `realm_name` when set and not empty, else
/// the DNS domain of the base DN; uppercased). `version` is the server's version.
pub fn root_dse_response(base_dn: &str, realm_name: Option<&str>, version: &str) -> (r: LdapOp)
    ensures
        r matches LdapOp::SearchResultEntry(e) && e.dn@.len() == 0 && attrs_view(e.attributes@)
            == root_dse_attributes(
            base_dn@,
            realm_of(base_dn@, match realm_name {
                Some(s) => Some(s@),
                None => None,
            }),
            version@,
        ),
{
    let realm = derive_realm_from_base_dn(base_dn, realm_name);
    let sub = concat("cn=Subschema,", base_dn);
    let vendor_version = concat("lldap_", version);
    let mut attributes: Vec<LdapPartialAttribute> = Vec::new();
    assert(attrs_view(attributes@) =~= Seq::empty());
    push_attr(&mut attributes, text_attribute("objectClass", &texts1("top")));
    push_attr(&mut attributes, text_attribute("vendorName", &texts1("LLDAP")));
    push_attr(&mut attributes, text_attribute("vendorVersion", &texts1(vendor_version.as_str())));
    push_attr(&mut attributes, text_attribute("supportedLDAPVersion", &texts1("3")));
    let pm = oid_password_modify();
    let wa = oid_whoami();
    push_attr(&mut attributes, text_attribute("supportedExtension", &texts2(pm.as_str(), wa.as_str())));
    push_attr(
        &mut attributes,
        text_attribute("supportedControl", &texts2("1.2.840.113556.1.4.319", "1.3.6.1.4.1.4203.1.9.1")),
    );
    push_attr(&mut attributes, text_attribute("defaultNamingContext", &texts1(base_dn)));
    push_attr(&mut attributes, text_attribute("namingContexts", &texts1(base_dn)));
    push_attr(&mut attributes, text_attribute("schemaNamingContext", &texts1(sub.as_str())));
    push_attr(&mut attributes, text_attribute("configurationNamingContext", &texts1(base_dn)));
    push_attr(&mut attributes, text_attribute("isGlobalCatalogReady", &texts1("false")));
    push_attr(&mut attributes, text_attribute("subschemaSubentry", &texts1(sub.as_str())));
    push_attr(&mut attributes, text_attribute("krb5RealmName", &texts1(realm.as_str())));
    push_attr(
        &mut attributes,
        text_attribute("supportedSASLMechanisms", &texts3("GSSAPI", "GSS-SPNEGO", "DIGEST-MD5")),
    );
    push_attr(&mut attributes, text_attribute("defaultRealm", &texts1(realm.as_str())));
    let dn = String::new();
    LdapOp::SearchResultEntry(LdapSearchResultEntry { dn, attributes })
}

/// Whether a search asks for the root DSE: empty base, base scope, and a
/// presence filter on `objectClass` (any case).
pub open spec fn root_dse_request(base: Seq<char>, scope: LdapSearchScope, filter: LdapFilter) -> bool {
    base.len() == 0 && scope == LdapSearchScope::Base && match filter {
        LdapFilter::Present(a) => eq_ic(a@, "objectclass"@),
        _ => false,
    }
}

/// Whether a filter is an equality on `objectClass` (any case).
pub open spec fn class_equality(f: LdapFilter) -> bool {
    match f {
        LdapFilter::Equality(a, _) => eq_ic(a@, "objectclass"@),
        _ => false,
    }
}

/// Whether a search asks for the root DSE.
pub fn is_root_dse_request(request: &LdapSearchRequest) -> (r: bool)
    ensures
        r == root_dse_request(request.base@, request.scope, request.filter),
{
    proof {
        reveal_strlit("");
        if request.base@.len() == 0 {
            assert(request.base@ =~= ""@);
        }
    }
    if !str_eq(request.base.as_str(), "") || request.scope != LdapSearchScope::Base {
        return false;
    }
    match &request.filter {
        LdapFilter::Present(a) => eq_ignore_ascii_case(a.as_str(), "objectclass"),
        _ => false,
    }
}

/// Whether a filter of a subschema request is acceptable: a presence test of
/// `objectClass`; an equality on `objectClass` with `*`, `top` or `subschema`; a
/// conjunction or disjunction holding some equality on `objectClass`; or any
/// other kind of filter.
pub open spec fn subschema_filter_ok(f: LdapFilter) -> bool {
    match f {
        LdapFilter::Present(a) => eq_ic(a@, "objectclass"@),
        LdapFilter::Equality(a, v) => eq_ic(a@, "objectclass"@) && (v@ == "*"@ || eq_ic(v@, "top"@) || eq_ic(
            v@,
            "subschema"@,
        )),
        LdapFilter::And(fs) => exists|k: int| 0 <= k < fs@.len() && class_equality(#[trigger] fs@[k]),
        LdapFilter::Or(fs) => exists|k: int| 0 <= k < fs@.len() && class_equality(#[trigger] fs@[k]),
        _ => true,
    }
}

/// Whether a search asks for the subschema entry: the base holds `cn=subschema`
/// (any case), the scope is base or subtree, and the filter is acceptable.
pub open spec fn subschema_request(base: Seq<char>, scope: LdapSearchScope, filter: LdapFilter) -> bool {
    &&& has_substring(lower(base), "cn=subschema"@)
    &&& (scope == LdapSearchScope::Base || scope == LdapSearchScope::Subtree)
    &&& subschema_filter_ok(filter)
}

/// Whether one of the filters is an equality on `objectClass`.
fn some_class_equality(fs: &Vec<LdapFilter>) -> (r: bool)
    ensures
        r == exists|k: int| 0 <= k < fs@.len() && class_equality(#[trigger] fs@[k]),
{
    let mut i: usize = 0;
    while i < fs.len()
        invariant
            i <= fs@.len(),
            forall|k: int| 0 <= k < i ==> !class_equality(#[trigger] fs@[k]),
        decreases fs@.len() - i,
    {
        match &fs[i] {
            LdapFilter::Equality(a, _) => {
                if eq_ignore_ascii_case(a.as_str(), "objectclass") {
                    assert(class_equality(fs@[i as int]));
                    return true;
                }
            },
            _ => {},
        }
        i += 1;
    }
    false
}

/// Whether a search asks for the subschema entry.
pub fn is_subschema_entry_request(request: &LdapSearchRequest) -> (r: bool)
    ensures
        r == subschema_request(request.base@, request.scope, request.filter),
{
    let base_lower = to_ascii_lowercase(request.base.as_str());
    let base_matches = contains_str(base_lower.as_str(), "cn=subschema");
    let scope_ok = request.scope == LdapSearchScope::Base || request.scope == LdapSearchScope::Subtree;
    let filter_ok = match &request.filter {
        LdapFilter::Present(a) => eq_ignore_ascii_case(a.as_str(), "objectclass"),
        LdapFilter::Equality(a, v) => eq_ignore_ascii_case(a.as_str(), "objectclass") && (str_eq(v.as_str(), "*")
            || eq_ignore_ascii_case(v.as_str(), "top") || eq_ignore_ascii_case(v.as_str(), "subschema")),
        LdapFilter::And(fs) => some_class_equality(fs),
        LdapFilter::Or(fs) => some_class_equality(fs),
        _ => true,
    };
    base_matches && scope_ok && filter_ok
}

} // verus!
