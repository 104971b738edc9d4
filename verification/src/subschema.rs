//! The subschema entry (`cn=Subschema`) that tells LDAP clients the syntaxes,
//! matching rules, attribute types and object classes the directory serves.
use vstd::prelude::*;
use crate::dn::pairs_view;
use crate::proto::{attrs_view, text_attr, text_attribute, LdapOp, LdapPartialAttribute, LdapSearchResultEntry};
use crate::schema::{attr_views, AttrView, AttributeSchema, AttributeType, PublicSchema};
use crate::schema_manager::{get_preferred_ldap_name, preferred_name};
use crate::text::{concat, copy_str, eq_ignore_ascii_case, join, join_strings, lower, push_str, str_eq, to_ascii_lowercase, views};

verus! {

/// The syntaxes the directory declares.
pub open spec fn ldap_syntaxes() -> Seq<Seq<char>> {
    seq![
        "( 1.3.6.1.1.16.1 DESC 'UUID' )"@,
        "( 1.3.6.1.4.1.1466.115.121.1.3 DESC 'Attribute Type Description' )"@,
        "( 1.3.6.1.4.1.1466.115.121.1.12 DESC 'Distinguished Name' )"@,
        "( 1.3.6.1.4.1.1466.115.121.1.15 DESC 'Directory String' )"@,
        "( 1.3.6.1.4.1.1466.115.121.1.24 DESC 'Generalized Time' )"@,
        "( 1.3.6.1.4.1.1466.115.121.1.27 DESC 'Integer' )"@,
        "( 1.3.6.1.4.1.1466.115.121.1.28 DESC 'JPEG' X-NOT-HUMAN-READABLE 'TRUE' )"@,
        "( 1.3.6.1.4.1.1466.115.121.1.34 DESC 'Name And Optional UID' )"@,
        "( 1.3.6.1.4.1.1466.115.121.1.37 DESC 'Object Class Description' )"@,
        "( 1.3.6.1.4.1.1466.115.121.1.38 DESC 'OID' )"@,
        "( 1.3.6.1.4.1.1466.115.121.1.54 DESC 'LDAP Syntax Description' )"@,
        "( 1.3.6.1.4.1.1466.115.121.1.58 DESC 'Substring Assertion' )"@,
    ]
}

/// The matching rules the directory declares.
pub open spec fn matching_rules() -> Seq<Seq<char>> {
    seq![
        "( 1.3.6.1.1.16.2 NAME 'UUIDMatch' SYNTAX 1.3.6.1.1.16.1 )"@,
        "( 1.3.6.1.1.16.3 NAME 'UUIDOrderingMatch' SYNTAX 1.3.6.1.1.16.1 )"@,
        "( 2.5.13.0 NAME 'objectIdentifierMatch' SYNTAX 1.3.6.1.4.1.1466.115.121.1.38 )"@,
        "( 2.5.13.1 NAME 'distinguishedNameMatch' SYNTAX 1.3.6.1.4.1.1466.115.121.1.12 )"@,
        "( 2.5.13.2 NAME 'caseIgnoreMatch' SYNTAX 1.3.6.1.4.1.1466.115.121.1.15 )"@,
        "( 2.5.13.4 NAME 'caseIgnoreSubstringsMatch' SYNTAX 1.3.6.1.4.1.1466.115.121.1.58 )"@,
        "( 2.5.13.23 NAME 'uniqueMemberMatch' SYNTAX 1.3.6.1.4.1.1466.115.121.1.34 )"@,
        "( 2.5.13.27 NAME 'generalizedTimeMatch' SYNTAX 1.3.6.1.4.1.1466.115.121.1.24 )"@,
        "( 2.5.13.28 NAME 'generalizedTimeOrderingMatch' SYNTAX 1.3.6.1.4.1.1466.115.121.1.24 )"@,
        "( 2.5.13.30 NAME 'objectIdentifierFirstComponentMatch' SYNTAX 1.3.6.1.4.1.1466.115.121.1.38 )"@,
    ]
}

/// The core attribute types (object class, cn, sn, uid), each with its OID.
pub open spec fn core_attribute_types() -> Seq<(Seq<char>, Seq<char>)> {
    seq![
        ("2.5.4.0"@, "( 2.5.4.0 NAME 'objectClass' DESC 'RFC4512' EQUALITY objectIdentifierMatch SYNTAX 1.3.6.1.4.1.1466.115.121.1.38 )"@),
        ("2.5.4.3"@, "( 2.5.4.3 NAME ( 'cn' 'commonName' 'displayname' 'display_name' ) DESC 'RFC4519' EQUALITY caseIgnoreMatch SUBSTR caseIgnoreSubstringsMatch SYNTAX 1.3.6.1.4.1.1466.115.121.1.15{256} SINGLE-VALUE )"@),
        ("2.5.4.4"@, "( 2.5.4.4 NAME ( 'sn' 'surname' 'lastname' 'last_name' ) DESC 'RFC2256' EQUALITY caseIgnoreMatch SUBSTR caseIgnoreSubstringsMatch SYNTAX 1.3.6.1.4.1.1466.115.121.1.15{256} SINGLE-VALUE )"@),
        ("0.9.2342.19200300.100.1.1"@, "( 0.9.2342.19200300.100.1.1 NAME ( 'uid' 'user_id' 'userid' 'id' ) DESC 'User identifier' EQUALITY caseIgnoreMatch SUBSTR caseIgnoreSubstringsMatch SYNTAX 1.3.6.1.4.1.1466.115.121.1.15{256} SINGLE-VALUE )"@),
    ]
}

/// The standard attribute types with registered OIDs.
pub open spec fn standard_attribute_types() -> Seq<(Seq<char>, Seq<char>)> {
    seq![
        ("2.5.4.42"@, "( 2.5.4.42 NAME ( 'givenName' 'givenname' 'firstname' 'first_name' ) DESC 'RFC4519 givenName' EQUALITY caseIgnoreMatch SUBSTR caseIgnoreSubstringsMatch SYNTAX 1.3.6.1.4.1.1466.115.121.1.15{256} SINGLE-VALUE )"@),
        ("0.9.2342.19200300.100.1.3"@, "( 0.9.2342.19200300.100.1.3 NAME ( 'mail' 'email' 'rfc822Mailbox' ) DESC 'RFC1274/2307 mail' EQUALITY caseIgnoreMatch SUBSTR caseIgnoreSubstringsMatch SYNTAX 1.3.6.1.4.1.1466.115.121.1.15{256} SINGLE-VALUE )"@),
        ("2.5.4.11"@, "( 2.5.4.11 NAME ( 'ou' 'organizationalUnit' 'organizationalunit' 'organizationalUnitName' ) DESC 'RFC4519 ou' EQUALITY caseIgnoreMatch SUBSTR caseIgnoreSubstringsMatch SYNTAX 1.3.6.1.4.1.1466.115.121.1.15{256} SINGLE-VALUE )"@),
        ("1.3.6.1.1.1.1.0"@, "( 1.3.6.1.1.1.1.0 NAME ( 'uidNumber' 'uidnumber' 'uid_number' 'uidNumber' ) DESC 'RFC2307 uidNumber' EQUALITY integerMatch SYNTAX 1.3.6.1.4.1.1466.115.121.1.27 SINGLE-VALUE )"@),
        ("1.3.6.1.1.1.1.1"@, "( 1.3.6.1.1.1.1.1 NAME ( 'gidNumber' 'gidnumber' 'gid_number' 'gidNumber' ) DESC 'RFC2307 gidNumber' EQUALITY integerMatch SYNTAX 1.3.6.1.4.1.1466.115.121.1.27 SINGLE-VALUE )"@),
        ("1.3.6.1.1.1.1.3"@, "( 1.3.6.1.1.1.1.3 NAME ( 'homeDirectory' 'homedirectory' 'home_directory' 'homeDirectory' ) DESC 'RFC2307 homeDirectory' EQUALITY caseIgnoreMatch SYNTAX 1.3.6.1.4.1.1466.115.121.1.15{256} SINGLE-VALUE )"@),
        ("1.3.6.1.1.1.1.4"@, "( 1.3.6.1.1.1.1.4 NAME ( 'loginShell' 'loginshell' 'login_shell' 'loginShell' ) DESC 'RFC2307 loginShell' EQUALITY caseIgnoreMatch SYNTAX 1.3.6.1.4.1.1466.115.121.1.15{256} SINGLE-VALUE )"@),
        ("1.3.6.1.1.1.1.8"@, "( 1.3.6.1.1.1.1.8 NAME ( 'sshPublicKey' 'sshpublickey' 'sshPublicKey' 'ssHPublicKey' ) DESC 'OpenSSH/LDAP sshPublicKey' EQUALITY caseIgnoreMatch SYNTAX 1.3.6.1.4.1.1466.115.121.1.15 )"@),
        ("1.3.6.1.4.1.5322.1.1.2"@, "( 1.3.6.1.4.1.5322.1.1.2 NAME ( 'krbPrincipalName' 'krb_principal_name' 'krbPrincipalName' ) DESC 'Kerberos principal name' EQUALITY caseIgnoreMatch SUBSTR caseIgnoreSubstringsMatch SYNTAX 1.3.6.1.4.1.1466.115.121.1.15{256} SINGLE-VALUE NO-USER-MODIFICATION USAGE directoryOperation )"@),
    ]
}

/// The operational attribute types.
pub open spec fn operational_attribute_types() -> Seq<(Seq<char>, Seq<char>)> {
    seq![
        ("1.3.6.1.1.16.4"@, "( 1.3.6.1.1.16.4 NAME ( 'entryUUID' 'uuid' ) DESC 'UUID' EQUALITY UUIDMatch ORDERING UUIDOrderingMatch SYNTAX 1.3.6.1.1.16.1 SINGLE-VALUE NO-USER-MODIFICATION USAGE directoryOperation )"@),
        ("2.5.18.1"@, "( 2.5.18.1 NAME ( 'createTimestamp' 'creationdate' 'creation_date' 'creationTimestamp' ) DESC 'RFC4512' EQUALITY generalizedTimeMatch ORDERING generalizedTimeOrderingMatch SYNTAX 1.3.6.1.4.1.1466.115.121.1.24 SINGLE-VALUE NO-USER-MODIFICATION USAGE directoryOperation )"@),
        ("2.5.18.2"@, "( 2.5.18.2 NAME ( 'modifyTimestamp' 'modifieddate' 'modified_date' 'modifydate' 'modifyTimestamp' ) DESC 'RFC4512' EQUALITY generalizedTimeMatch ORDERING generalizedTimeOrderingMatch SYNTAX 1.3.6.1.4.1.1466.115.121.1.24 SINGLE-VALUE NO-USER-MODIFICATION USAGE directoryOperation )"@),
        ("1.2.840.113556.1.2.102"@, "( 1.2.840.113556.1.2.102 NAME 'memberOf' DESC 'Group membership' EQUALITY distinguishedNameMatch SYNTAX 1.3.6.1.4.1.1466.115.121.1.12 NO-USER-MODIFICATION USAGE dSAOperation )"@),
        ("1.3.6.1.4.1.1466.101.120.6"@, "( 1.3.6.1.4.1.1466.101.120.6 NAME 'hasSubordinates' DESC 'X.500 Has Subordinates' EQUALITY booleanMatch SYNTAX 1.3.6.1.4.1.1466.115.121.1.7 SINGLE-VALUE NO-USER-MODIFICATION USAGE directoryOperation )"@),
        ("2.5.21.1"@, "( 2.5.21.1 NAME 'structuralObjectClass' DESC 'X.500 Structural Object Class' EQUALITY objectIdentifierMatch SYNTAX 1.3.6.1.4.1.1466.115.121.1.38 SINGLE-VALUE NO-USER-MODIFICATION USAGE directoryOperation )"@),
        ("2.5.21.2"@, "( 2.5.21.2 NAME 'subschemaSubentry' DESC 'X.500 Subschema Subentry' EQUALITY distinguishedNameMatch SYNTAX 1.3.6.1.4.1.1466.115.121.1.12 SINGLE-VALUE NO-USER-MODIFICATION USAGE directoryOperation )"@),
        ("1.3.6.1.4.1.42.2.27.8.1.16"@, "( 1.3.6.1.4.1.42.2.27.8.1.16 NAME ( 'pwdChangedTime' 'passwordmodifieddate' 'password_modified_date' ) DESC 'Password last changed time' EQUALITY generalizedTimeMatch SYNTAX 1.3.6.1.4.1.1466.115.121.1.24 SINGLE-VALUE NO-USER-MODIFICATION USAGE dSAOperation )"@),
    ]
}

/// The names (compared lowercased) whose attribute types are already declared above.
pub open spec fn covered_names() -> Seq<Seq<char>> {
    seq![
        "objectclass"@,
        "cn"@,
        "sn"@,
        "uid"@,
        "givenname"@,
        "mail"@,
        "ou"@,
        "uidnumber"@,
        "gidnumber"@,
        "homedirectory"@,
        "loginshell"@,
        "sshpublickey"@,
        "displayname"@,
        "firstname"@,
        "lastname"@,
        "jpegphoto"@,
        "createtimestamp"@,
        "createTimestamp"@,
        "creationdate"@,
        "creation_date"@,
        "creationTimestamp"@,
        "modifytimestamp"@,
        "modifyTimestamp"@,
        "modifieddate"@,
        "modified_date"@,
        "modifydate"@,
        "pwdchangedtime"@,
        "pwdChangedTime"@,
        "passwordmodifieddate"@,
        "password_modified_date"@,
        "entryuuid"@,
        "entryUUID"@,
        "uuid"@,
        "hasSubordinates"@,
        "structuralObjectClass"@,
        "subschemaSubentry"@,
        "memberof"@,
        "memberOf"@,
        "krbprincipalname"@,
        "krb_principal_name"@,
        "krbPrincipalName"@,
    ]
}

/// The names `inetOrgPerson` may hold before the schema's own attributes.
pub open spec fn inet_may_base() -> Seq<Seq<char>> {
    seq![
        "givenName"@,
        "mail"@,
        "uid"@,
        "displayName"@,
        "employeeNumber"@,
        "employeeType"@,
        "jpegPhoto"@,
        "labeledURI"@,
        "manager"@,
        "mobile"@,
        "pager"@,
        "photo"@,
        "roomNumber"@,
        "secretary"@,
        "uidNumber"@,
        "gidNumber"@,
        "homeDirectory"@,
        "loginShell"@,
        "sshPublicKey"@,
        "krbPrincipalName"@,
        "ou"@,
        "avatar"@,
        "description"@,
        "kerberosSync"@,
    ]
}

/// The syntax OID of an attribute type.
pub open spec fn syntax_oid(t: AttributeType) -> Seq<char> {
    match t {
        AttributeType::String => "1.3.6.1.4.1.1466.115.121.1.15"@,
        AttributeType::Integer => "1.3.6.1.4.1.1466.115.121.1.27"@,
        AttributeType::DateTime => "1.3.6.1.4.1.1466.115.121.1.24"@,
        AttributeType::Avatar => "1.3.6.1.4.1.1466.115.121.1.28"@,
    }
}

/// The OID of a schema attribute without a registered one.
pub open spec fn custom_oid(name: Seq<char>) -> Seq<char> {
    if name == "avatar"@ {
        "10.0"@
    } else if name == "sshpublickey"@ {
        "10.1"@
    } else if name == "kerberossync"@ {
        "1.3.6.1.4.1.5322.1.1.1"@
    } else if name == "groupid"@ {
        "10.2"@
    } else {
        "10.99"@
    }
}

/// Whether a schema attribute is operational: read-only, or a timestamp or UUID.
pub open spec fn is_operational_attr(a: AttrView) -> bool {
    let l = lower(a.name);
    a.is_readonly || l == "creationdate"@ || l == "modifieddate"@ || l == "passwordmodifieddate"@
        || l == "uuid"@ || l == "entryuuid"@
}

/// A name in single quotes.
pub open spec fn quoted(s: Seq<char>) -> Seq<char> {
    "'"@ + s + "'"@
}

/// The quoted aliases other than the preferred name, in order.
pub open spec fn quoted_others(aliases: Seq<Seq<char>>, pref: Seq<char>) -> Seq<Seq<char>>
    decreases aliases.len(),
{
    if aliases.len() == 0 {
        Seq::empty()
    } else {
        let r = quoted_others(aliases.drop_last(), pref);
        if aliases.last() != pref {
            r.push(quoted(aliases.last()))
        } else {
            r
        }
    }
}

/// The NAME list of a schema attribute: its preferred name, then its other aliases.
pub open spec fn name_list(a: AttrView) -> Seq<char> {
    let pref = preferred_name(a);
    if a.aliases.len() == 0 {
        quoted(pref)
    } else {
        join(seq![quoted(pref)] + quoted_others(a.aliases, pref), " "@)
    }
}

/// The attribute type description of a schema attribute.
pub open spec fn custom_attribute_type(a: AttrView) -> Seq<char> {
    "( "@ + custom_oid(a.name) + " NAME ( "@ + name_list(a) + " ) DESC 'LLDAP "@ + a.name + " ("@
        + (if a.is_list { "multi"@ } else { "single"@ }) + ")' EQUALITY "@
        + (if a.attribute_type == AttributeType::Integer { "integerMatch"@ } else { "caseIgnoreMatch"@ })
        + " SYNTAX "@ + syntax_oid(a.attribute_type) + (if !a.is_list { " SINGLE-VALUE"@ } else { ""@ })
        + (if is_operational_attr(a) { " NO-USER-MODIFICATION USAGE directoryOperation"@ } else { ""@ }) + " )"@
}

/// The (OID, description) of each schema attribute whose preferred name is not covered.
pub open spec fn custom_candidates(attrs: Seq<AttrView>) -> Seq<(Seq<char>, Seq<char>)>
    decreases attrs.len(),
{
    if attrs.len() == 0 {
        Seq::empty()
    } else {
        let r = custom_candidates(attrs.drop_last());
        let a = attrs.last();
        if covered_names().contains(lower(preferred_name(a))) {
            r
        } else {
            r.push((custom_oid(a.name), custom_attribute_type(a)))
        }
    }
}

/// The OIDs of a list of (OID, description) pairs.
pub open spec fn oids(s: Seq<(Seq<char>, Seq<char>)>) -> Seq<Seq<char>> {
    s.map_values(|p: (Seq<char>, Seq<char>)| p.0)
}

/// The descriptions of the first pair with each OID, in order.
pub open spec fn first_per_oid(s: Seq<(Seq<char>, Seq<char>)>) -> Seq<Seq<char>>
    decreases s.len(),
{
    if s.len() == 0 {
        Seq::empty()
    } else {
        let r = first_per_oid(s.drop_last());
        if oids(s.drop_last()).contains(s.last().0) {
            r
        } else {
            r.push(s.last().1)
        }
    }
}

/// The attribute types served: the core, the standard, the schema's own (users
/// then groups) and the operational ones, one per OID.
pub open spec fn attribute_types(user: Seq<AttrView>, group: Seq<AttrView>) -> Seq<Seq<char>> {
    first_per_oid(
        core_attribute_types() + standard_attribute_types() + custom_candidates(user + group)
            + operational_attribute_types(),
    )
}

/// The preferred names of schema attributes.
pub open spec fn preferred_names(attrs: Seq<AttrView>) -> Seq<Seq<char>> {
    attrs.map_values(|a: AttrView| preferred_name(a))
}

/// The lowercased names.
pub open spec fn lowered(s: Seq<Seq<char>>) -> Seq<Seq<char>> {
    s.map_values(|x: Seq<char>| lower(x))
}

/// `base` extended with each name whose lowercase is not yet there.
pub open spec fn may_extend(base: Seq<Seq<char>>, names: Seq<Seq<char>>) -> Seq<Seq<char>>
    decreases names.len(),
{
    if names.len() == 0 {
        base
    } else {
        let r = may_extend(base, names.drop_last());
        if lowered(r).contains(lower(names.last())) {
            r
        } else {
            r.push(names.last())
        }
    }
}

/// The object classes served; `inetOrgPerson` may hold the names of `inet_may`.
pub open spec fn object_classes(inet_may: Seq<Seq<char>>) -> Seq<Seq<char>> {
    seq![
        "( 2.5.6.0 NAME 'top' DESC 'RFC4512' ABSTRACT MUST objectClass )"@,
        "( 2.5.6.6 NAME 'person' DESC 'RFC4519' STRUCTURAL MUST ( cn $ sn $ objectClass ) MAY ( userPassword $ telephoneNumber $ seeAlso $ description $ givenName $ mail ) )"@,
        "( 2.5.6.7 NAME 'organizationalPerson' DESC 'RFC4519' STRUCTURAL SUP person MAY ( title $ ou $ o $ l $ st $ postalAddress ) )"@,
        "( 1.3.6.1.1.3.1 NAME 'inetOrgPerson' DESC 'RFC2798' STRUCTURAL SUP organizationalPerson MUST ( cn $ sn $ objectClass ) MAY ( "@ + join(inet_may, " $ "@) + " ) )"@,
        "( 1.3.6.1.1.1.2.0 NAME 'posixAccount' DESC 'RFC2307' STRUCTURAL MUST ( cn $ uid $ uidNumber $ gidNumber $ homeDirectory $ objectClass ) MAY ( userPassword $ loginShell $ gecos $ description $ sshPublicKey $ avatar $ kerberosSync ) )"@,
        "( 2.5.6.9 NAME 'groupOfNames' DESC 'RFC4519' STRUCTURAL MUST ( member $ cn $ objectClass ) MAY ( businessCategory $ seeAlso $ owner $ ou $ o $ description ) )"@,
        "( 2.5.6.17 NAME 'groupOfUniqueNames' DESC 'RFC4519' STRUCTURAL MUST ( uniqueMember $ cn $ objectClass ) MAY ( businessCategory $ seeAlso $ owner $ ou $ o $ description ) )"@,
        "( 1.3.6.1.1.1.2.2 NAME 'posixGroup' DESC 'RFC2307' STRUCTURAL MUST ( cn $ gidNumber $ objectClass ) MAY ( userPassword $ memberUid $ description $ gidNumber ) )"@,
    ]
}

/// The attributes of the subschema entry of a schema (`user` and `group` attribute
/// lists) under base DN `base`, stamped with time `time`.
pub open spec fn subschema_attributes(
    user: Seq<AttrView>,
    group: Seq<AttrView>,
    base: Seq<char>,
    time: Seq<char>,
) -> Seq<(Seq<char>, Seq<Seq<u8>>)> {
    seq![
        text_attr("structuralObjectClass"@, seq!["subentry"@]),
        text_attr("objectClass"@, seq!["top"@, "subentry"@, "subschema"@, "extensibleObject"@]),
        text_attr("cn"@, seq!["Subschema"@]),
        text_attr("createTimestamp"@, seq![time]),
        text_attr("modifyTimestamp"@, seq![time]),
        text_attr("ldapSyntaxes"@, ldap_syntaxes()),
        text_attr("matchingRules"@, matching_rules()),
        text_attr("attributeTypes"@, attribute_types(user, group)),
        text_attr("objectClasses"@, object_classes(may_extend(inet_may_base(), preferred_names(user)))),
        text_attr("subschemaSubentry"@, seq!["cn=Subschema,"@ + base]),
    ]
}

/// Whether `r` is the subschema entry of `schema` under `base` at time `time`.
pub open spec fn subschema_entry_ok(schema: PublicSchema, base: Seq<char>, time: Seq<char>, r: LdapOp) -> bool {
    r matches LdapOp::SearchResultEntry(e) && e.dn@ == "cn=Subschema,"@ + base && attrs_view(e.attributes@)
        == subschema_attributes(
        attr_views(schema.0.user_attributes.attributes@),
        attr_views(schema.0.group_attributes.attributes@),
        base,
        time,
    )
}

fn push_text(v: &mut Vec<String>, s: &str)
    ensures
        views(final(v)@) == views(old(v)@).push(s@),
{
    let ghost before = v@;
    v.push(copy_str(s));
    assert(views(v@) =~= views(before).push(s@));
}

fn push_pair(v: &mut Vec<(String, String)>, a: &str, b: &str)
    ensures
        pairs_view(final(v)@) == pairs_view(old(v)@).push((a@, b@)),
{
    let ghost before = v@;
    v.push((copy_str(a), copy_str(b)));
    assert(pairs_view(v@) =~= pairs_view(before).push((a@, b@)));
}

/// The declared syntaxes.
fn syntaxes() -> (r: Vec<String>)
    ensures
        views(r@) == ldap_syntaxes(),
{
    let mut v: Vec<String> = Vec::new();
    push_text(&mut v, "( 1.3.6.1.1.16.1 DESC 'UUID' )");
    push_text(&mut v, "( 1.3.6.1.4.1.1466.115.121.1.3 DESC 'Attribute Type Description' )");
    push_text(&mut v, "( 1.3.6.1.4.1.1466.115.121.1.12 DESC 'Distinguished Name' )");
    push_text(&mut v, "( 1.3.6.1.4.1.1466.115.121.1.15 DESC 'Directory String' )");
    push_text(&mut v, "( 1.3.6.1.4.1.1466.115.121.1.24 DESC 'Generalized Time' )");
    push_text(&mut v, "( 1.3.6.1.4.1.1466.115.121.1.27 DESC 'Integer' )");
    push_text(&mut v, "( 1.3.6.1.4.1.1466.115.121.1.28 DESC 'JPEG' X-NOT-HUMAN-READABLE 'TRUE' )");
    push_text(&mut v, "( 1.3.6.1.4.1.1466.115.121.1.34 DESC 'Name And Optional UID' )");
    push_text(&mut v, "( 1.3.6.1.4.1.1466.115.121.1.37 DESC 'Object Class Description' )");
    push_text(&mut v, "( 1.3.6.1.4.1.1466.115.121.1.38 DESC 'OID' )");
    push_text(&mut v, "( 1.3.6.1.4.1.1466.115.121.1.54 DESC 'LDAP Syntax Description' )");
    push_text(&mut v, "( 1.3.6.1.4.1.1466.115.121.1.58 DESC 'Substring Assertion' )");
    v
}

/// The declared matching rules.
fn rules() -> (r: Vec<String>)
    ensures
        views(r@) == matching_rules(),
{
    let mut v: Vec<String> = Vec::new();
    push_text(&mut v, "( 1.3.6.1.1.16.2 NAME 'UUIDMatch' SYNTAX 1.3.6.1.1.16.1 )");
    push_text(&mut v, "( 1.3.6.1.1.16.3 NAME 'UUIDOrderingMatch' SYNTAX 1.3.6.1.1.16.1 )");
    push_text(&mut v, "( 2.5.13.0 NAME 'objectIdentifierMatch' SYNTAX 1.3.6.1.4.1.1466.115.121.1.38 )");
    push_text(&mut v, "( 2.5.13.1 NAME 'distinguishedNameMatch' SYNTAX 1.3.6.1.4.1.1466.115.121.1.12 )");
    push_text(&mut v, "( 2.5.13.2 NAME 'caseIgnoreMatch' SYNTAX 1.3.6.1.4.1.1466.115.121.1.15 )");
    push_text(&mut v, "( 2.5.13.4 NAME 'caseIgnoreSubstringsMatch' SYNTAX 1.3.6.1.4.1.1466.115.121.1.58 )");
    push_text(&mut v, "( 2.5.13.23 NAME 'uniqueMemberMatch' SYNTAX 1.3.6.1.4.1.1466.115.121.1.34 )");
    push_text(&mut v, "( 2.5.13.27 NAME 'generalizedTimeMatch' SYNTAX 1.3.6.1.4.1.1466.115.121.1.24 )");
    push_text(&mut v, "( 2.5.13.28 NAME 'generalizedTimeOrderingMatch' SYNTAX 1.3.6.1.4.1.1466.115.121.1.24 )");
    push_text(&mut v, "( 2.5.13.30 NAME 'objectIdentifierFirstComponentMatch' SYNTAX 1.3.6.1.4.1.1466.115.121.1.38 )");
    v
}

/// The core attribute types.
fn core_types() -> (r: Vec<(String, String)>)
    ensures
        pairs_view(r@) == core_attribute_types(),
{
    let mut v: Vec<(String, String)> = Vec::new();
    push_pair(&mut v, "2.5.4.0", "( 2.5.4.0 NAME 'objectClass' DESC 'RFC4512' EQUALITY objectIdentifierMatch SYNTAX 1.3.6.1.4.1.1466.115.121.1.38 )");
    push_pair(&mut v, "2.5.4.3", "( 2.5.4.3 NAME ( 'cn' 'commonName' 'displayname' 'display_name' ) DESC 'RFC4519' EQUALITY caseIgnoreMatch SUBSTR caseIgnoreSubstringsMatch SYNTAX 1.3.6.1.4.1.1466.115.121.1.15{256} SINGLE-VALUE )");
    push_pair(&mut v, "2.5.4.4", "( 2.5.4.4 NAME ( 'sn' 'surname' 'lastname' 'last_name' ) DESC 'RFC2256' EQUALITY caseIgnoreMatch SUBSTR caseIgnoreSubstringsMatch SYNTAX 1.3.6.1.4.1.1466.115.121.1.15{256} SINGLE-VALUE )");
    push_pair(&mut v, "0.9.2342.19200300.100.1.1", "( 0.9.2342.19200300.100.1.1 NAME ( 'uid' 'user_id' 'userid' 'id' ) DESC 'User identifier' EQUALITY caseIgnoreMatch SUBSTR caseIgnoreSubstringsMatch SYNTAX 1.3.6.1.4.1.1466.115.121.1.15{256} SINGLE-VALUE )");
    v
}

/// The standard attribute types.
fn standard_types() -> (r: Vec<(String, String)>)
    ensures
        pairs_view(r@) == standard_attribute_types(),
{
    let mut v: Vec<(String, String)> = Vec::new();
    push_pair(&mut v, "2.5.4.42", "( 2.5.4.42 NAME ( 'givenName' 'givenname' 'firstname' 'first_name' ) DESC 'RFC4519 givenName' EQUALITY caseIgnoreMatch SUBSTR caseIgnoreSubstringsMatch SYNTAX 1.3.6.1.4.1.1466.115.121.1.15{256} SINGLE-VALUE )");
    push_pair(&mut v, "0.9.2342.19200300.100.1.3", "( 0.9.2342.19200300.100.1.3 NAME ( 'mail' 'email' 'rfc822Mailbox' ) DESC 'RFC1274/2307 mail' EQUALITY caseIgnoreMatch SUBSTR caseIgnoreSubstringsMatch SYNTAX 1.3.6.1.4.1.1466.115.121.1.15{256} SINGLE-VALUE )");
    push_pair(&mut v, "2.5.4.11", "( 2.5.4.11 NAME ( 'ou' 'organizationalUnit' 'organizationalunit' 'organizationalUnitName' ) DESC 'RFC4519 ou' EQUALITY caseIgnoreMatch SUBSTR caseIgnoreSubstringsMatch SYNTAX 1.3.6.1.4.1.1466.115.121.1.15{256} SINGLE-VALUE )");
    push_pair(&mut v, "1.3.6.1.1.1.1.0", "( 1.3.6.1.1.1.1.0 NAME ( 'uidNumber' 'uidnumber' 'uid_number' 'uidNumber' ) DESC 'RFC2307 uidNumber' EQUALITY integerMatch SYNTAX 1.3.6.1.4.1.1466.115.121.1.27 SINGLE-VALUE )");
    push_pair(&mut v, "1.3.6.1.1.1.1.1", "( 1.3.6.1.1.1.1.1 NAME ( 'gidNumber' 'gidnumber' 'gid_number' 'gidNumber' ) DESC 'RFC2307 gidNumber' EQUALITY integerMatch SYNTAX 1.3.6.1.4.1.1466.115.121.1.27 SINGLE-VALUE )");
    push_pair(&mut v, "1.3.6.1.1.1.1.3", "( 1.3.6.1.1.1.1.3 NAME ( 'homeDirectory' 'homedirectory' 'home_directory' 'homeDirectory' ) DESC 'RFC2307 homeDirectory' EQUALITY caseIgnoreMatch SYNTAX 1.3.6.1.4.1.1466.115.121.1.15{256} SINGLE-VALUE )");
    push_pair(&mut v, "1.3.6.1.1.1.1.4", "( 1.3.6.1.1.1.1.4 NAME ( 'loginShell' 'loginshell' 'login_shell' 'loginShell' ) DESC 'RFC2307 loginShell' EQUALITY caseIgnoreMatch SYNTAX 1.3.6.1.4.1.1466.115.121.1.15{256} SINGLE-VALUE )");
    push_pair(&mut v, "1.3.6.1.1.1.1.8", "( 1.3.6.1.1.1.1.8 NAME ( 'sshPublicKey' 'sshpublickey' 'sshPublicKey' 'ssHPublicKey' ) DESC 'OpenSSH/LDAP sshPublicKey' EQUALITY caseIgnoreMatch SYNTAX 1.3.6.1.4.1.1466.115.121.1.15 )");
    push_pair(&mut v, "1.3.6.1.4.1.5322.1.1.2", "( 1.3.6.1.4.1.5322.1.1.2 NAME ( 'krbPrincipalName' 'krb_principal_name' 'krbPrincipalName' ) DESC 'Kerberos principal name' EQUALITY caseIgnoreMatch SUBSTR caseIgnoreSubstringsMatch SYNTAX 1.3.6.1.4.1.1466.115.121.1.15{256} SINGLE-VALUE NO-USER-MODIFICATION USAGE directoryOperation )");
    v
}

/// The operational attribute types.
fn operational_types() -> (r: Vec<(String, String)>)
    ensures
        pairs_view(r@) == operational_attribute_types(),
{
    let mut v: Vec<(String, String)> = Vec::new();
    push_pair(&mut v, "1.3.6.1.1.16.4", "( 1.3.6.1.1.16.4 NAME ( 'entryUUID' 'uuid' ) DESC 'UUID' EQUALITY UUIDMatch ORDERING UUIDOrderingMatch SYNTAX 1.3.6.1.1.16.1 SINGLE-VALUE NO-USER-MODIFICATION USAGE directoryOperation )");
    push_pair(&mut v, "2.5.18.1", "( 2.5.18.1 NAME ( 'createTimestamp' 'creationdate' 'creation_date' 'creationTimestamp' ) DESC 'RFC4512' EQUALITY generalizedTimeMatch ORDERING generalizedTimeOrderingMatch SYNTAX 1.3.6.1.4.1.1466.115.121.1.24 SINGLE-VALUE NO-USER-MODIFICATION USAGE directoryOperation )");
    push_pair(&mut v, "2.5.18.2", "( 2.5.18.2 NAME ( 'modifyTimestamp' 'modifieddate' 'modified_date' 'modifydate' 'modifyTimestamp' ) DESC 'RFC4512' EQUALITY generalizedTimeMatch ORDERING generalizedTimeOrderingMatch SYNTAX 1.3.6.1.4.1.1466.115.121.1.24 SINGLE-VALUE NO-USER-MODIFICATION USAGE directoryOperation )");
    push_pair(&mut v, "1.2.840.113556.1.2.102", "( 1.2.840.113556.1.2.102 NAME 'memberOf' DESC 'Group membership' EQUALITY distinguishedNameMatch SYNTAX 1.3.6.1.4.1.1466.115.121.1.12 NO-USER-MODIFICATION USAGE dSAOperation )");
    push_pair(&mut v, "1.3.6.1.4.1.1466.101.120.6", "( 1.3.6.1.4.1.1466.101.120.6 NAME 'hasSubordinates' DESC 'X.500 Has Subordinates' EQUALITY booleanMatch SYNTAX 1.3.6.1.4.1.1466.115.121.1.7 SINGLE-VALUE NO-USER-MODIFICATION USAGE directoryOperation )");
    push_pair(&mut v, "2.5.21.1", "( 2.5.21.1 NAME 'structuralObjectClass' DESC 'X.500 Structural Object Class' EQUALITY objectIdentifierMatch SYNTAX 1.3.6.1.4.1.1466.115.121.1.38 SINGLE-VALUE NO-USER-MODIFICATION USAGE directoryOperation )");
    push_pair(&mut v, "2.5.21.2", "( 2.5.21.2 NAME 'subschemaSubentry' DESC 'X.500 Subschema Subentry' EQUALITY distinguishedNameMatch SYNTAX 1.3.6.1.4.1.1466.115.121.1.12 SINGLE-VALUE NO-USER-MODIFICATION USAGE directoryOperation )");
    push_pair(&mut v, "1.3.6.1.4.1.42.2.27.8.1.16", "( 1.3.6.1.4.1.42.2.27.8.1.16 NAME ( 'pwdChangedTime' 'passwordmodifieddate' 'password_modified_date' ) DESC 'Password last changed time' EQUALITY generalizedTimeMatch SYNTAX 1.3.6.1.4.1.1466.115.121.1.24 SINGLE-VALUE NO-USER-MODIFICATION USAGE dSAOperation )");
    v
}

/// The names already covered.
#[verifier::rlimit(60)]
fn covered() -> (r: Vec<String>)
    ensures
        views(r@) == covered_names(),
{
    let mut v: Vec<String> = Vec::new();
    push_text(&mut v, "objectclass");
    push_text(&mut v, "cn");
    push_text(&mut v, "sn");
    push_text(&mut v, "uid");
    push_text(&mut v, "givenname");
    push_text(&mut v, "mail");
    push_text(&mut v, "ou");
    push_text(&mut v, "uidnumber");
    push_text(&mut v, "gidnumber");
    push_text(&mut v, "homedirectory");
    push_text(&mut v, "loginshell");
    push_text(&mut v, "sshpublickey");
    push_text(&mut v, "displayname");
    push_text(&mut v, "firstname");
    push_text(&mut v, "lastname");
    push_text(&mut v, "jpegphoto");
    push_text(&mut v, "createtimestamp");
    push_text(&mut v, "createTimestamp");
    push_text(&mut v, "creationdate");
    push_text(&mut v, "creation_date");
    push_text(&mut v, "creationTimestamp");
    push_text(&mut v, "modifytimestamp");
    push_text(&mut v, "modifyTimestamp");
    push_text(&mut v, "modifieddate");
    push_text(&mut v, "modified_date");
    push_text(&mut v, "modifydate");
    push_text(&mut v, "pwdchangedtime");
    push_text(&mut v, "pwdChangedTime");
    push_text(&mut v, "passwordmodifieddate");
    push_text(&mut v, "password_modified_date");
    push_text(&mut v, "entryuuid");
    push_text(&mut v, "entryUUID");
    push_text(&mut v, "uuid");
    push_text(&mut v, "hasSubordinates");
    push_text(&mut v, "structuralObjectClass");
    push_text(&mut v, "subschemaSubentry");
    push_text(&mut v, "memberof");
    push_text(&mut v, "memberOf");
    push_text(&mut v, "krbprincipalname");
    push_text(&mut v, "krb_principal_name");
    push_text(&mut v, "krbPrincipalName");
    v
}

/// The base names of `inetOrgPerson`.
fn inet_base() -> (r: Vec<String>)
    ensures
        views(r@) == inet_may_base(),
{
    let mut v: Vec<String> = Vec::new();
    push_text(&mut v, "givenName");
    push_text(&mut v, "mail");
    push_text(&mut v, "uid");
    push_text(&mut v, "displayName");
    push_text(&mut v, "employeeNumber");
    push_text(&mut v, "employeeType");
    push_text(&mut v, "jpegPhoto");
    push_text(&mut v, "labeledURI");
    push_text(&mut v, "manager");
    push_text(&mut v, "mobile");
    push_text(&mut v, "pager");
    push_text(&mut v, "photo");
    push_text(&mut v, "roomNumber");
    push_text(&mut v, "secretary");
    push_text(&mut v, "uidNumber");
    push_text(&mut v, "gidNumber");
    push_text(&mut v, "homeDirectory");
    push_text(&mut v, "loginShell");
    push_text(&mut v, "sshPublicKey");
    push_text(&mut v, "krbPrincipalName");
    push_text(&mut v, "ou");
    push_text(&mut v, "avatar");
    push_text(&mut v, "description");
    push_text(&mut v, "kerberosSync");
    v
}

/// Whether `items` holds `x` exactly.
fn holds_text(items: &Vec<String>, x: &str) -> (r: bool)
    ensures
        r == views(items@).contains(x@),
{
    let mut i: usize = 0;
    while i < items.len()
        invariant
            i <= items@.len(),
            forall|j: int| 0 <= j < i ==> items@[j]@ != x@,
        decreases items@.len() - i,
    {
        if str_eq(items[i].as_str(), x) {
            assert(views(items@)[i as int] == x@);
            return true;
        }
        i += 1;
    }
    assert forall|j: int| 0 <= j < views(items@).len() implies views(items@)[j] != x@ by {
        assert(views(items@)[j] == items@[j]@);
    }
    false
}

/// Whether `items` holds `x` up to ASCII case.
fn holds_ignoring_case(items: &Vec<String>, x: &str) -> (r: bool)
    ensures
        r == lowered(views(items@)).contains(lower(x@)),
{
    let mut i: usize = 0;
    while i < items.len()
        invariant
            i <= items@.len(),
            forall|j: int| 0 <= j < i ==> lower(items@[j]@) != lower(x@),
        decreases items@.len() - i,
    {
        if eq_ignore_ascii_case(items[i].as_str(), x) {
            assert(lowered(views(items@))[i as int] == lower(x@));
            return true;
        }
        i += 1;
    }
    assert forall|j: int| 0 <= j < lowered(views(items@)).len() implies lowered(views(items@))[j] != lower(x@) by {
        assert(lowered(views(items@))[j] == lower(items@[j]@));
    }
    false
}

/// The syntax OID of an attribute type.
fn syntax_of(t: AttributeType) -> (r: &'static str)
    ensures
        r@ == syntax_oid(t),
{
    match t {
        AttributeType::String => "1.3.6.1.4.1.1466.115.121.1.15",
        AttributeType::Integer => "1.3.6.1.4.1.1466.115.121.1.27",
        AttributeType::DateTime => "1.3.6.1.4.1.1466.115.121.1.24",
        AttributeType::Avatar => "1.3.6.1.4.1.1466.115.121.1.28",
    }
}

/// The OID given to a schema attribute without a registered one.
fn oid_of(name: &str) -> (r: &'static str)
    ensures
        r@ == custom_oid(name@),
{
    if str_eq(name, "avatar") {
        "10.0"
    } else if str_eq(name, "sshpublickey") {
        "10.1"
    } else if str_eq(name, "kerberossync") {
        "1.3.6.1.4.1.5322.1.1.1"
    } else if str_eq(name, "groupid") {
        "10.2"
    } else {
        "10.99"
    }
}

/// Whether a schema attribute is operational.
fn operational(a: &AttributeSchema) -> (r: bool)
    ensures
        r == is_operational_attr(a@),
{
    let l = to_ascii_lowercase(a.name.as_str());
    a.is_readonly || str_eq(l.as_str(), "creationdate") || str_eq(l.as_str(), "modifieddate")
        || str_eq(l.as_str(), "passwordmodifieddate") || str_eq(l.as_str(), "uuid")
        || str_eq(l.as_str(), "entryuuid")
}

/// A name in single quotes.
fn quote(s: &str) -> (r: String)
    ensures
        r@ == quoted(s@),
{
    let mut r = copy_str("'");
    push_str(&mut r, s);
    push_str(&mut r, "'");
    r
}

/// The NAME list of a schema attribute whose preferred name is `pref`.
fn names_of(a: &AttributeSchema, pref: &str) -> (r: String)
    requires
        pref@ == preferred_name(a@),
    ensures
        r@ == name_list(a@),
{
    if a.aliases.len() == 0 {
        return quote(pref);
    }
    let ghost al = views(a.aliases@);
    let mut names: Vec<String> = Vec::new();
    names.push(quote(pref));
    assert(views(names@) =~= seq![quoted(pref@)] + quoted_others(al.take(0), pref@));
    let mut i: usize = 0;
    while i < a.aliases.len()
        invariant
            i <= a.aliases@.len(),
            al == views(a.aliases@),
            views(names@) == seq![quoted(pref@)] + quoted_others(al.take(i as int), pref@),
        decreases a.aliases@.len() - i,
    {
        let ghost before = views(names@);
        assert(al.take(i + 1).drop_last() =~= al.take(i as int));
        assert(al.take(i + 1).last() == a.aliases@[i as int]@);
        if !str_eq(a.aliases[i].as_str(), pref) {
            names.push(quote(a.aliases[i].as_str()));
            assert(views(names@) =~= before.push(quoted(a.aliases@[i as int]@)));
            assert(views(names@) =~= seq![quoted(pref@)] + quoted_others(al.take(i + 1), pref@));
        }
        i += 1;
    }
    assert(al.take(al.len() as int) =~= al);
    join_strings(&names, " ")
}

/// The attribute type description of a schema attribute.
fn custom_type(a: &AttributeSchema, pref: &str) -> (r: String)
    requires
        pref@ == preferred_name(a@),
    ensures
        r@ == custom_attribute_type(a@),
{
    let mut s = copy_str("( ");
    push_str(&mut s, oid_of(a.name.as_str()));
    push_str(&mut s, " NAME ( ");
    let names = names_of(a, pref);
    push_str(&mut s, names.as_str());
    push_str(&mut s, " ) DESC 'LLDAP ");
    push_str(&mut s, a.name.as_str());
    push_str(&mut s, " (");
    push_str(&mut s, if a.is_list { "multi" } else { "single" });
    push_str(&mut s, ")' EQUALITY ");
    push_str(&mut s, if a.attribute_type == AttributeType::Integer { "integerMatch" } else { "caseIgnoreMatch" });
    push_str(&mut s, " SYNTAX ");
    push_str(&mut s, syntax_of(a.attribute_type));
    push_str(&mut s, if !a.is_list { " SINGLE-VALUE" } else { "" });
    push_str(&mut s, if operational(a) { " NO-USER-MODIFICATION USAGE directoryOperation" } else { "" });
    push_str(&mut s, " )");
    s
}

/// Appends the candidates of `attrs` to `out`.
fn add_custom_candidates(
    out: &mut Vec<(String, String)>,
    attrs: &Vec<AttributeSchema>,
    cov: &Vec<String>,
    Ghost(prev): Ghost<Seq<AttrView>>,
)
    requires
        pairs_view(old(out)@) == custom_candidates(prev),
        views(cov@) == covered_names(),
    ensures
        pairs_view(final(out)@) == custom_candidates(prev + attr_views(attrs@)),
{
    let ghost av = attr_views(attrs@);
    let mut i: usize = 0;
    assert(prev + av.take(0) =~= prev);
    while i < attrs.len()
        invariant
            i <= attrs@.len(),
            av == attr_views(attrs@),
            views(cov@) == covered_names(),
            pairs_view(out@) == custom_candidates(prev + av.take(i as int)),
        decreases attrs@.len() - i,
    {
        let a = &attrs[i];
        let ghost s = prev + av.take(i + 1);
        assert(s.drop_last() =~= prev + av.take(i as int));
        assert(s.last() == a@);
        let pref = get_preferred_ldap_name(a);
        let l = to_ascii_lowercase(pref.as_str());
        if !holds_text(cov, l.as_str()) {
            let ghost before = out@;
            let oid = copy_str(oid_of(a.name.as_str()));
            let desc = custom_type(a, pref.as_str());
            out.push((oid, desc));
            assert(pairs_view(out@) =~= pairs_view(before).push((custom_oid(a@.name), custom_attribute_type(a@))));
        }
        i += 1;
    }
    assert(av.take(av.len() as int) =~= av);
}

/// The description of the first pair with each OID, in order.
fn first_per_oid_of(c: &Vec<(String, String)>) -> (r: Vec<String>)
    ensures
        views(r@) == first_per_oid(pairs_view(c@)),
{
    let ghost pv = pairs_view(c@);
    let mut out: Vec<String> = Vec::new();
    let mut i: usize = 0;
    while i < c.len()
        invariant
            i <= c@.len(),
            pv == pairs_view(c@),
            views(out@) == first_per_oid(pv.take(i as int)),
        decreases c@.len() - i,
    {
        let ghost s = pv.take(i + 1);
        assert(s.drop_last() =~= pv.take(i as int));
        assert(s.last() == pv[i as int]);
        let mut seen = false;
        let mut j: usize = 0;
        while j < i
            invariant
                j <= i < c@.len(),
                pv == pairs_view(c@),
                s == pv.take(i + 1),
                !seen ==> forall|k: int| 0 <= k < j ==> pv[k].0 != pv[i as int].0,
                seen ==> oids(s.drop_last()).contains(s.last().0),
            decreases i - j,
        {
            if str_eq(c[j].0.as_str(), c[i].0.as_str()) {
                assert(oids(s.drop_last())[j as int] == pv[j as int].0);
                seen = true;
            }
            j += 1;
        }
        if !seen {
            assert forall|k: int| 0 <= k < oids(s.drop_last()).len() implies oids(s.drop_last())[k] != s.last().0 by {
                assert(oids(s.drop_last())[k] == pv[k].0);
            }
            let ghost before = views(out@);
            out.push(c[i].1.clone());
            assert(views(out@) =~= before.push(pv[i as int].1));
        }
        i += 1;
    }
    assert(pv.take(pv.len() as int) =~= pv);
    out
}

/// `base` extended with the preferred name of each attribute whose lowercase is not yet there.
fn extend_may(base: Vec<String>, attrs: &Vec<AttributeSchema>) -> (r: Vec<String>)
    ensures
        views(r@) == may_extend(views(base@), preferred_names(attr_views(attrs@))),
{
    let ghost names = preferred_names(attr_views(attrs@));
    let ghost b = views(base@);
    let mut out = base;
    let mut i: usize = 0;
    while i < attrs.len()
        invariant
            i <= attrs@.len(),
            names == preferred_names(attr_views(attrs@)),
            views(out@) == may_extend(b, names.take(i as int)),
        decreases attrs@.len() - i,
    {
        let pref = get_preferred_ldap_name(&attrs[i]);
        assert(names.take(i + 1).drop_last() =~= names.take(i as int));
        assert(names.take(i + 1).last() == pref@);
        if !holds_ignoring_case(&out, pref.as_str()) {
            let ghost before = views(out@);
            out.push(pref);
            assert(views(out@) =~= before.push(names[i as int]));
        }
        i += 1;
    }
    assert(names.take(names.len() as int) =~= names);
    out
}

/// The object classes, `inetOrgPerson` holding `inet_may`.
fn object_class_list(inet_may: &Vec<String>) -> (r: Vec<String>)
    ensures
        views(r@) == object_classes(views(inet_may@)),
{
    let mut v: Vec<String> = Vec::new();
    push_text(&mut v, "( 2.5.6.0 NAME 'top' DESC 'RFC4512' ABSTRACT MUST objectClass )");
    push_text(&mut v, "( 2.5.6.6 NAME 'person' DESC 'RFC4519' STRUCTURAL MUST ( cn $ sn $ objectClass ) MAY ( userPassword $ telephoneNumber $ seeAlso $ description $ givenName $ mail ) )");
    push_text(&mut v, "( 2.5.6.7 NAME 'organizationalPerson' DESC 'RFC4519' STRUCTURAL SUP person MAY ( title $ ou $ o $ l $ st $ postalAddress ) )");
    let may = join_strings(inet_may, " $ ");
    let mut inet = copy_str("( 1.3.6.1.1.3.1 NAME 'inetOrgPerson' DESC 'RFC2798' STRUCTURAL SUP organizationalPerson MUST ( cn $ sn $ objectClass ) MAY ( ");
    push_str(&mut inet, may.as_str());
    push_str(&mut inet, " ) )");
    push_text(&mut v, inet.as_str());
    push_text(&mut v, "( 1.3.6.1.1.1.2.0 NAME 'posixAccount' DESC 'RFC2307' STRUCTURAL MUST ( cn $ uid $ uidNumber $ gidNumber $ homeDirectory $ objectClass ) MAY ( userPassword $ loginShell $ gecos $ description $ sshPublicKey $ avatar $ kerberosSync ) )");
    push_text(&mut v, "( 2.5.6.9 NAME 'groupOfNames' DESC 'RFC4519' STRUCTURAL MUST ( member $ cn $ objectClass ) MAY ( businessCategory $ seeAlso $ owner $ ou $ o $ description ) )");
    push_text(&mut v, "( 2.5.6.17 NAME 'groupOfUniqueNames' DESC 'RFC4519' STRUCTURAL MUST ( uniqueMember $ cn $ objectClass ) MAY ( businessCategory $ seeAlso $ owner $ ou $ o $ description ) )");
    push_text(&mut v, "( 1.3.6.1.1.1.2.2 NAME 'posixGroup' DESC 'RFC2307' STRUCTURAL MUST ( cn $ gidNumber $ objectClass ) MAY ( userPassword $ memberUid $ description $ gidNumber ) )");
    v
}

/// Appends the pairs of `src` to `out`.
fn append_pairs(out: &mut Vec<(String, String)>, src: &Vec<(String, String)>)
    ensures
        pairs_view(final(out)@) == pairs_view(old(out)@) + pairs_view(src@),
{
    let ghost start = pairs_view(out@);
    let ghost sv = pairs_view(src@);
    let mut i: usize = 0;
    while i < src.len()
        invariant
            i <= src@.len(),
            sv == pairs_view(src@),
            pairs_view(out@) == start + sv.take(i as int),
        decreases src@.len() - i,
    {
        let ghost before = out@;
        let a = src[i].0.clone();
        let b = src[i].1.clone();
        out.push((a, b));
        assert(pairs_view(out@) =~= pairs_view(before).push((src@[i as int].0@, src@[i as int].1@)));
        assert(sv[i as int] == (src@[i as int].0@, src@[i as int].1@));
        assert(start + sv.take(i + 1) =~= (start + sv.take(i as int)).push(sv[i as int]));
        i += 1;
    }
    assert(sv.take(sv.len() as int) =~= sv);
}

fn push_attr(v: &mut Vec<LdapPartialAttribute>, a: LdapPartialAttribute)
    ensures
        attrs_view(final(v)@) == attrs_view(old(v)@).push(crate::proto::attr_view(a)),
{
    let ghost before = v@;
    v.push(a);
    assert(attrs_view(v@) =~= attrs_view(before).push(crate::proto::attr_view(a)));
}

fn one(s: &str) -> (r: Vec<String>)
    ensures
        views(r@) == seq![s@],
{
    let mut v: Vec<String> = Vec::new();
    push_text(&mut v, s);
    v
}

/// The subschema entry of `schema` under base DN `base_dn_str`, stamped with the
/// time `current_time_utc`: the syntaxes, matching rules, attribute types (core,
/// standard, the schema's own under custom OIDs unless already declared, and
/// operational; one per OID) and object classes (`inetOrgPerson` also holding the
/// preferred name of each user attribute not yet there, compared without case).
pub fn subschema_entry(schema: &PublicSchema, base_dn_str: &str, current_time_utc: &str) -> (r: LdapOp)
    ensures
        subschema_entry_ok(*schema, base_dn_str@, current_time_utc@, r),
{
    let user = &schema.0.user_attributes.attributes;
    let group = &schema.0.group_attributes.attributes;
    let ghost uv = attr_views(user@);
    let ghost gv = attr_views(group@);
    let cov = covered();
    let mut cands = core_types();
    let standard = standard_types();
    append_pairs(&mut cands, &standard);
    let mut custom: Vec<(String, String)> = Vec::new();
    assert(pairs_view(custom@) =~= custom_candidates(Seq::<AttrView>::empty()));
    add_custom_candidates(&mut custom, user, &cov, Ghost(Seq::<AttrView>::empty()));
    assert(Seq::<AttrView>::empty() + uv =~= uv);
    add_custom_candidates(&mut custom, group, &cov, Ghost(uv));
    append_pairs(&mut cands, &custom);
    let ops = operational_types();
    append_pairs(&mut cands, &ops);
    assert(pairs_view(cands@) =~= core_attribute_types() + standard_attribute_types() + custom_candidates(uv + gv)
        + operational_attribute_types());
    let types = first_per_oid_of(&cands);
    let inet_may = extend_may(inet_base(), user);
    let classes = object_class_list(&inet_may);
    let sub = concat("cn=Subschema,", base_dn_str);
    let mut attributes: Vec<LdapPartialAttribute> = Vec::new();
    assert(attrs_view(attributes@) =~= Seq::empty());
    push_attr(&mut attributes, text_attribute("structuralObjectClass", &one("subentry")));
    let mut oc: Vec<String> = Vec::new();
    push_text(&mut oc, "top");
    push_text(&mut oc, "subentry");
    push_text(&mut oc, "subschema");
    push_text(&mut oc, "extensibleObject");
    push_attr(&mut attributes, text_attribute("objectClass", &oc));
    push_attr(&mut attributes, text_attribute("cn", &one("Subschema")));
    push_attr(&mut attributes, text_attribute("createTimestamp", &one(current_time_utc)));
    push_attr(&mut attributes, text_attribute("modifyTimestamp", &one(current_time_utc)));
    push_attr(&mut attributes, text_attribute("ldapSyntaxes", &syntaxes()));
    push_attr(&mut attributes, text_attribute("matchingRules", &rules()));
    push_attr(&mut attributes, text_attribute("attributeTypes", &types));
    push_attr(&mut attributes, text_attribute("objectClasses", &classes));
    push_attr(&mut attributes, text_attribute("subschemaSubentry", &one(sub.as_str())));
    assert(views(types@) == attribute_types(uv, gv));
    assert(views(classes@) == object_classes(may_extend(inet_may_base(), preferred_names(uv))));
    assert(views(oc@) == seq!["top"@, "subentry"@, "subschema"@, "extensibleObject"@]);
    assert(attrs_view(attributes@) =~= subschema_attributes(uv, gv, base_dn_str@, current_time_utc@));
    LdapOp::SearchResultEntry(LdapSearchResultEntry { dn: sub, attributes })
}

/// The shape of a UTC time stamp `YYYYmmddHHMMSSZ` as chrono writes it: the year in at
/// least four characters (digits, with a leading sign outside 0 to 9999), then month,
/// day, hour, minute and second in two digits each, then `Z`.
pub open spec fn utc_stamp_shape(t: Seq<char>) -> bool {
    &&& t.len() >= 15
    &&& t.last() == 'Z'
    &&& forall|i: int| 0 <= i < t.len() - 1 ==> ('0' <= #[trigger] t[i] && t[i] <= '9') || (i == 0 && (t[i] == '+'
        || t[i] == '-'))
}

/// The current UTC time as `YYYYmmddHHMMSSZ` (`chrono::Utc::now`, formatted by
/// chrono). Which time it is, is the clock's reading; claimed is only the shape in which
/// chrono writes every time (year through `write_year`, the rest through `write_two`
/// with zero padding).
#[verifier::external_body]
fn utc_now_text() -> (r: String)
    ensures
        utc_stamp_shape(r@),
{
    chrono::Utc::now().format("%Y%m%d%H%M%SZ").to_string()
}

/// The subschema entry of `schema` under base DN `base_dn_str`, stamped with the
/// current time.
pub fn make_ldap_subschema_entry(schema: &PublicSchema, base_dn_str: &str) -> (r: LdapOp)
    ensures
        exists|time: Seq<char>| utc_stamp_shape(time) && subschema_entry_ok(*schema, base_dn_str@, time, r),
{
    let now = utc_now_text();
    subschema_entry(schema, base_dn_str, now.as_str())
}

} // verus!
