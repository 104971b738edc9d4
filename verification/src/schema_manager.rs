//! The LDAP view of the schema: which LDAP attribute names (and aliases) stand for
//! which directory fields, and how a requested attribute list is expanded.
use vstd::prelude::*;
use crate::schema::{attr_views, AttrView, AttributeSchema, AttributeType, PublicSchema};
use crate::text::{copy_str, lower, str_eq, to_ascii_lowercase, views};
use crate::types::AttributeName;

verus! {

/// The stored columns of a user.
#[derive(Clone, Copy, Debug, PartialEq, Eq, Structural)]
pub enum UserColumn {
    UserId,
    Email,
    LowercaseEmail,
    DisplayName,
    KrbPrincipalName,
    CreationDate,
    ModifiedDate,
    PasswordModifiedDate,
    Uuid,
}

/// What an LDAP attribute name stands for.
#[derive(Debug, PartialEq, Eq)]
pub enum LogicalAttr {
    ObjectClass,
    MemberOf,
    Dn,
    EntryDn,
    Primary(UserColumn),
    Custom(String, AttributeType, bool),
    Operational,
}

/// `LogicalAttr` as plain values.
pub enum LogicalAttrView {
    ObjectClass,
    MemberOf,
    Dn,
    EntryDn,
    Primary(UserColumn),
    Custom(Seq<char>, AttributeType, bool),
    Operational,
}

impl Clone for LogicalAttr {
    fn clone(&self) -> (r: Self)
        ensures
            r == *self,
    {
        match self {
            LogicalAttr::ObjectClass => LogicalAttr::ObjectClass,
            LogicalAttr::MemberOf => LogicalAttr::MemberOf,
            LogicalAttr::Dn => LogicalAttr::Dn,
            LogicalAttr::EntryDn => LogicalAttr::EntryDn,
            LogicalAttr::Primary(c) => LogicalAttr::Primary(*c),
            LogicalAttr::Custom(n, t, l) => LogicalAttr::Custom(n.clone(), *t, *l),
            LogicalAttr::Operational => LogicalAttr::Operational,
        }
    }
}

impl View for LogicalAttr {
    type V = LogicalAttrView;

    open spec fn view(&self) -> LogicalAttrView {
        match self {
            LogicalAttr::ObjectClass => LogicalAttrView::ObjectClass,
            LogicalAttr::MemberOf => LogicalAttrView::MemberOf,
            LogicalAttr::Dn => LogicalAttrView::Dn,
            LogicalAttr::EntryDn => LogicalAttrView::EntryDn,
            LogicalAttr::Primary(c) => LogicalAttrView::Primary(*c),
            LogicalAttr::Custom(n, t, l) => LogicalAttrView::Custom(n@, *t, *l),
            LogicalAttr::Operational => LogicalAttrView::Operational,
        }
    }
}

/// The names that LDAP clients know; an alias among them is preferred over the
/// attribute's own name.
pub open spec fn is_standard_ldap_name(s: Seq<char>) -> bool {
    ||| s == "cn"@
    ||| s == "sn"@
    ||| s == "givenname"@
    ||| s == "uid"@
    ||| s == "mail"@
    ||| s == "ou"@
    ||| s == "dc"@
    ||| s == "o"@
    ||| s == "c"@
    ||| s == "l"@
    ||| s == "st"@
    ||| s == "title"@
    ||| s == "description"@
    ||| s == "member"@
    ||| s == "uniquemember"@
    ||| s == "memberof"@
    ||| s == "createtimestamp"@
    ||| s == "modifytimestamp"@
    ||| s == "pwdchangedtime"@
    ||| s == "entryuuid"@
    ||| s == "hassubordinates"@
    ||| s == "structuralobjectclass"@
    ||| s == "subschemasubentry"@
    ||| s == "uidnumber"@
    ||| s == "gidnumber"@
    ||| s == "homedirectory"@
    ||| s == "loginshell"@
    ||| s == "sshpublickey"@
    ||| s == "krbprincipalname"@
    ||| s == "jpegphoto"@
    ||| s == "avatar"@
}

fn standard_ldap_name(s: &str) -> (r: bool)
    ensures
        r == is_standard_ldap_name(s@),
{
    str_eq(s, "cn") || str_eq(s, "sn") || str_eq(s, "givenname") || str_eq(s, "uid") || str_eq(
        s,
        "mail",
    ) || str_eq(s, "ou") || str_eq(s, "dc") || str_eq(s, "o") || str_eq(s, "c") || str_eq(s, "l")
        || str_eq(s, "st") || str_eq(s, "title") || str_eq(s, "description") || str_eq(s, "member")
        || str_eq(s, "uniquemember") || str_eq(s, "memberof") || str_eq(s, "createtimestamp")
        || str_eq(s, "modifytimestamp") || str_eq(s, "pwdchangedtime") || str_eq(s, "entryuuid")
        || str_eq(s, "hassubordinates") || str_eq(s, "structuralobjectclass") || str_eq(
        s,
        "subschemasubentry",
    ) || str_eq(s, "uidnumber") || str_eq(s, "gidnumber") || str_eq(s, "homedirectory") || str_eq(
        s,
        "loginshell",
    ) || str_eq(s, "sshpublickey") || str_eq(s, "krbprincipalname") || str_eq(s, "jpegphoto")
        || str_eq(s, "avatar")
}

/// The first alias that is a standard LDAP name (without ASCII case), if any.
pub open spec fn first_standard_alias(aliases: Seq<Seq<char>>) -> Option<Seq<char>>
    decreases aliases.len(),
{
    if aliases.len() == 0 {
        None
    } else if is_standard_ldap_name(lower(aliases[0])) {
        Some(aliases[0])
    } else {
        first_standard_alias(aliases.drop_first())
    }
}

/// The name under which LDAP shows an attribute: its first standard alias, else its name.
pub open spec fn preferred_name(a: AttrView) -> Seq<char> {
    match first_standard_alias(a.aliases) {
        Some(n) => n,
        None => a.name,
    }
}

/// The name under which LDAP shows an attribute.
pub fn get_preferred_ldap_name(attr: &AttributeSchema) -> (r: String)
    ensures
        r@ == preferred_name(attr@),
{
    let ghost al = views(attr.aliases@);
    assert(al.skip(0) =~= al);
    let mut i: usize = 0;
    while i < attr.aliases.len()
        invariant
            i <= attr.aliases@.len(),
            al == views(attr.aliases@),
            first_standard_alias(al) == first_standard_alias(al.skip(i as int)),
        decreases attr.aliases@.len() - i,
    {
        let l = to_ascii_lowercase(attr.aliases[i].as_str());
        assert(al.skip(i as int)[0] == attr.aliases@[i as int]@);
        if standard_ldap_name(l.as_str()) {
            return attr.aliases[i].clone();
        }
        assert(al.skip(i as int).drop_first() =~= al.skip(i + 1));
        i += 1;
    }
    assert(al.skip(i as int).len() == 0);
    attr.name.clone()
}

/// Whether a lowercased LDAP name is one of the operational attributes.
pub open spec fn is_operational_name(l: Seq<char>) -> bool {
    ||| l == "hassubordinates"@
    ||| l == "structuralobjectclass"@
    ||| l == "subschemasubentry"@
    ||| l == "entryuuid"@
    ||| l == "uuid"@
    ||| l == "memberof"@
    ||| l == "ismemberof"@
}

/// What a schema attribute stands for, from its preferred LDAP name: operational
/// attributes, the stored user columns, or a custom attribute.
pub open spec fn logical_of(a: AttrView, preferred: Seq<char>) -> LogicalAttrView {
    let l = lower(preferred);
    if is_operational_name(l) {
        LogicalAttrView::Operational
    } else if l == "uid"@ || l == "user_id"@ || l == "id"@ || l == "userid"@ {
        LogicalAttrView::Primary(UserColumn::UserId)
    } else if l == "mail"@ || l == "email"@ {
        LogicalAttrView::Primary(UserColumn::Email)
    } else if l == "cn"@ || l == "displayname"@ || l == "display_name"@ {
        LogicalAttrView::Primary(UserColumn::DisplayName)
    } else if l == "krbprincipalname"@ || l == "krb_principal_name"@ {
        LogicalAttrView::Primary(UserColumn::KrbPrincipalName)
    } else if l == "createtimestamp"@ || l == "creationdate"@ || l == "creation_date"@ || l
        == "creationtimestamp"@ {
        LogicalAttrView::Primary(UserColumn::CreationDate)
    } else if l == "modifytimestamp"@ || l == "modifieddate"@ || l == "modified_date"@ || l
        == "modifydate"@ {
        LogicalAttrView::Primary(UserColumn::ModifiedDate)
    } else if l == "pwdchangedtime"@ || l == "passwordmodifieddate"@ || l == "password_modified_date"@ {
        LogicalAttrView::Primary(UserColumn::PasswordModifiedDate)
    } else {
        LogicalAttrView::Custom(a.name, a.attribute_type, a.is_list)
    }
}

fn is_one_of4(l: &str, a: &str, b: &str, c: &str, d: &str) -> (r: bool)
    ensures
        r == (l@ == a@ || l@ == b@ || l@ == c@ || l@ == d@),
{
    str_eq(l, a) || str_eq(l, b) || str_eq(l, c) || str_eq(l, d)
}

fn determine_logical_attr(attr: &AttributeSchema, preferred: &str) -> (r: LogicalAttr)
    ensures
        r@ == logical_of(attr@, preferred@),
{
    let l = to_ascii_lowercase(preferred);
    let s = l.as_str();
    if is_one_of4(s, "hassubordinates", "structuralobjectclass", "subschemasubentry", "entryuuid")
        || is_one_of4(s, "uuid", "memberof", "ismemberof", "ismemberof") {
        return LogicalAttr::Operational;
    }
    if is_one_of4(s, "uid", "user_id", "id", "userid") {
        LogicalAttr::Primary(UserColumn::UserId)
    } else if is_one_of4(s, "mail", "email", "email", "email") {
        LogicalAttr::Primary(UserColumn::Email)
    } else if is_one_of4(s, "cn", "displayname", "display_name", "cn") {
        LogicalAttr::Primary(UserColumn::DisplayName)
    } else if is_one_of4(s, "krbprincipalname", "krb_principal_name", "krbprincipalname", "krbprincipalname") {
        LogicalAttr::Primary(UserColumn::KrbPrincipalName)
    } else if is_one_of4(s, "createtimestamp", "creationdate", "creation_date", "creationtimestamp") {
        LogicalAttr::Primary(UserColumn::CreationDate)
    } else if is_one_of4(s, "modifytimestamp", "modifieddate", "modified_date", "modifydate") {
        LogicalAttr::Primary(UserColumn::ModifiedDate)
    } else if is_one_of4(s, "pwdchangedtime", "passwordmodifieddate", "password_modified_date", "pwdchangedtime") {
        LogicalAttr::Primary(UserColumn::PasswordModifiedDate)
    } else {
        LogicalAttr::Custom(attr.name.clone(), attr.attribute_type, attr.is_list)
    }
}

/// The attribute map as plain values: lowercased name to (meaning, canonical LDAP name).
pub type AttrMap = Map<Seq<char>, (LogicalAttrView, Seq<char>)>;

/// The map that a list of registrations builds; a later entry for a name replaces an earlier one.
pub open spec fn entries_map(v: Seq<(String, LogicalAttr, String)>) -> AttrMap
    decreases v.len(),
{
    if v.len() == 0 {
        Map::empty()
    } else {
        entries_map(v.drop_last()).insert(v.last().0@, (v.last().1@, v.last().2@))
    }
}

/// Registers the aliases of an attribute (those that differ from the canonical name).
pub open spec fn register_aliases(
    m: AttrMap,
    lc: Seq<char>,
    entry: (LogicalAttrView, Seq<char>),
    aliases: Seq<Seq<char>>,
) -> AttrMap
    decreases aliases.len(),
{
    if aliases.len() == 0 {
        m
    } else {
        let m2 = register_aliases(m, lc, entry, aliases.drop_last());
        if lower(aliases.last()) != lc {
            m2.insert(lower(aliases.last()), entry)
        } else {
            m2
        }
    }
}

/// Registers an attribute under its canonical name and its aliases, all lowercased.
pub open spec fn register_spec(
    m: AttrMap,
    logical: LogicalAttrView,
    canonical: Seq<char>,
    aliases: Seq<Seq<char>>,
) -> AttrMap {
    register_aliases(
        m.insert(lower(canonical), (logical, canonical)),
        lower(canonical),
        (logical, canonical),
        aliases,
    )
}

/// The structural and operational attributes that the schema does not list.
pub open spec fn core_attrs_map() -> AttrMap {
    let m = Map::<Seq<char>, (LogicalAttrView, Seq<char>)>::empty();
    let m = register_spec(m, LogicalAttrView::ObjectClass, "objectClass"@, seq![]);
    let m = register_spec(m, LogicalAttrView::MemberOf, "memberOf"@, seq!["ismemberof"@]);
    let m = register_spec(m, LogicalAttrView::Dn, "dn"@, seq!["distinguishedname"@]);
    let m = register_spec(m, LogicalAttrView::EntryDn, "entryDN"@, seq![]);
    let m = register_spec(m, LogicalAttrView::Operational, "hasSubordinates"@, seq![]);
    let m = register_spec(m, LogicalAttrView::Operational, "structuralObjectClass"@, seq![]);
    let m = register_spec(m, LogicalAttrView::Operational, "subschemaSubentry"@, seq![]);
    let m = register_spec(
        m,
        LogicalAttrView::Operational,
        "createTimestamp"@,
        seq!["creationdate"@, "creation_date"@, "creationtimestamp"@],
    );
    let m = register_spec(
        m,
        LogicalAttrView::Operational,
        "modifyTimestamp"@,
        seq!["modifieddate"@, "modified_date"@, "modifydate"@],
    );
    register_spec(
        m,
        LogicalAttrView::Operational,
        "pwdChangedTime"@,
        seq!["passwordmodifieddate"@, "password_modified_date"@],
    )
}

/// Registers schema attributes in order, each under its preferred LDAP name.
pub open spec fn register_schema_attrs(m: AttrMap, attrs: Seq<AttrView>) -> AttrMap
    decreases attrs.len(),
{
    if attrs.len() == 0 {
        m
    } else {
        let a = attrs.last();
        register_spec(
            register_schema_attrs(m, attrs.drop_last()),
            logical_of(a, preferred_name(a)),
            preferred_name(a),
            a.aliases,
        )
    }
}

/// The attribute map of a schema: the core attributes, then the user attributes,
/// then the group attributes.
pub open spec fn schema_attr_map(users: Seq<AttrView>, groups: Seq<AttrView>) -> AttrMap {
    register_schema_attrs(register_schema_attrs(core_attrs_map(), users), groups)
}

/// Whether no name of the map stands for the lowercased e-mail column.
pub open spec fn no_lowercase_email(m: AttrMap) -> bool {
    forall|k: Seq<char>|
        m.dom().contains(k) ==> (#[trigger] m[k]).0 != LogicalAttrView::Primary(UserColumn::LowercaseEmail)
}

proof fn lemma_register_aliases_keeps(
    m: AttrMap,
    lc: Seq<char>,
    entry: (LogicalAttrView, Seq<char>),
    aliases: Seq<Seq<char>>,
)
    requires
        no_lowercase_email(m),
        entry.0 != LogicalAttrView::Primary(UserColumn::LowercaseEmail),
    ensures
        no_lowercase_email(register_aliases(m, lc, entry, aliases)),
    decreases aliases.len(),
{
    if aliases.len() > 0 {
        lemma_register_aliases_keeps(m, lc, entry, aliases.drop_last());
    }
}

proof fn lemma_register_spec_keeps(m: AttrMap, logical: LogicalAttrView, canonical: Seq<char>, aliases: Seq<Seq<char>>)
    requires
        no_lowercase_email(m),
        logical != LogicalAttrView::Primary(UserColumn::LowercaseEmail),
    ensures
        no_lowercase_email(register_spec(m, logical, canonical, aliases)),
{
    lemma_register_aliases_keeps(
        m.insert(lower(canonical), (logical, canonical)),
        lower(canonical),
        (logical, canonical),
        aliases,
    );
}

proof fn lemma_register_schema_keeps(m: AttrMap, attrs: Seq<AttrView>)
    requires
        no_lowercase_email(m),
    ensures
        no_lowercase_email(register_schema_attrs(m, attrs)),
    decreases attrs.len(),
{
    if attrs.len() > 0 {
        lemma_register_schema_keeps(m, attrs.drop_last());
        let a = attrs.last();
        lemma_register_spec_keeps(
            register_schema_attrs(m, attrs.drop_last()),
            logical_of(a, preferred_name(a)),
            preferred_name(a),
            a.aliases,
        );
    }
}

/// No name of a schema's attribute map stands for the lowercased e-mail column:
/// that column is only ever compared, never served.
pub proof fn lemma_schema_map_no_lowercase_email(users: Seq<AttrView>, groups: Seq<AttrView>)
    ensures
        no_lowercase_email(schema_attr_map(users, groups)),
{
    let m0 = Map::<Seq<char>, (LogicalAttrView, Seq<char>)>::empty();
    assert(no_lowercase_email(m0));
    let m1 = register_spec(m0, LogicalAttrView::ObjectClass, "objectClass"@, seq![]);
    lemma_register_spec_keeps(m0, LogicalAttrView::ObjectClass, "objectClass"@, seq![]);
    let m2 = register_spec(m1, LogicalAttrView::MemberOf, "memberOf"@, seq!["ismemberof"@]);
    lemma_register_spec_keeps(m1, LogicalAttrView::MemberOf, "memberOf"@, seq!["ismemberof"@]);
    let m3 = register_spec(m2, LogicalAttrView::Dn, "dn"@, seq!["distinguishedname"@]);
    lemma_register_spec_keeps(m2, LogicalAttrView::Dn, "dn"@, seq!["distinguishedname"@]);
    let m4 = register_spec(m3, LogicalAttrView::EntryDn, "entryDN"@, seq![]);
    lemma_register_spec_keeps(m3, LogicalAttrView::EntryDn, "entryDN"@, seq![]);
    let m5 = register_spec(m4, LogicalAttrView::Operational, "hasSubordinates"@, seq![]);
    lemma_register_spec_keeps(m4, LogicalAttrView::Operational, "hasSubordinates"@, seq![]);
    let m6 = register_spec(m5, LogicalAttrView::Operational, "structuralObjectClass"@, seq![]);
    lemma_register_spec_keeps(m5, LogicalAttrView::Operational, "structuralObjectClass"@, seq![]);
    let m7 = register_spec(m6, LogicalAttrView::Operational, "subschemaSubentry"@, seq![]);
    lemma_register_spec_keeps(m6, LogicalAttrView::Operational, "subschemaSubentry"@, seq![]);
    let a8 = seq!["creationdate"@, "creation_date"@, "creationtimestamp"@];
    let m8 = register_spec(m7, LogicalAttrView::Operational, "createTimestamp"@, a8);
    lemma_register_spec_keeps(m7, LogicalAttrView::Operational, "createTimestamp"@, a8);
    let a9 = seq!["modifieddate"@, "modified_date"@, "modifydate"@];
    let m9 = register_spec(m8, LogicalAttrView::Operational, "modifyTimestamp"@, a9);
    lemma_register_spec_keeps(m8, LogicalAttrView::Operational, "modifyTimestamp"@, a9);
    let a10 = seq!["passwordmodifieddate"@, "password_modified_date"@];
    lemma_register_spec_keeps(m9, LogicalAttrView::Operational, "pwdChangedTime"@, a10);
    assert(core_attrs_map() == register_spec(m9, LogicalAttrView::Operational, "pwdChangedTime"@, a10));
    lemma_register_schema_keeps(core_attrs_map(), users);
    lemma_register_schema_keeps(register_schema_attrs(core_attrs_map(), users), groups);
}

/// Resolves LDAP attribute names, without ASCII case, to what they stand for.
pub struct SchemaManager {
    attribute_map: Vec<(String, LogicalAttr, String)>,
}

impl View for SchemaManager {
    type V = AttrMap;

    closed spec fn view(&self) -> AttrMap {
        entries_map(self.attribute_map@)
    }
}

proof fn lemma_entries_map_push(v: Seq<(String, LogicalAttr, String)>, e: (String, LogicalAttr, String))
    ensures
        entries_map(v.push(e)) == entries_map(v).insert(e.0@, (e.1@, e.2@)),
{
    assert(v.push(e).drop_last() =~= v);
}

proof fn lemma_entries_map_suffix(v: Seq<(String, LogicalAttr, String)>, i: int, k: Seq<char>)
    requires
        0 <= i <= v.len(),
        forall|j: int| i <= j < v.len() ==> (#[trigger] v[j]).0@ != k,
    ensures
        entries_map(v).dom().contains(k) == entries_map(v.take(i)).dom().contains(k),
        entries_map(v).dom().contains(k) ==> entries_map(v)[k] == entries_map(v.take(i))[k],
    decreases v.len(),
{
    if i == v.len() {
        assert(v.take(i) =~= v);
    } else {
        let d = v.drop_last();
        assert(v[v.len() - 1].0@ != k);
        lemma_entries_map_suffix(d, i, k);
        assert(d.take(i) =~= v.take(i));
    }
}

fn push_entry(v: &mut Vec<(String, LogicalAttr, String)>, key: String, logical: LogicalAttr, canonical: &str)
    ensures
        entries_map(final(v)@) == entries_map(old(v)@).insert(key@, (logical@, canonical@)),
{
    let e = (key, logical, copy_str(canonical));
    proof {
        lemma_entries_map_push(v@, e);
    }
    v.push(e);
}

fn register(v: &mut Vec<(String, LogicalAttr, String)>, logical: LogicalAttr, canonical: &str, aliases: &Vec<String>)
    ensures
        entries_map(final(v)@) == register_spec(entries_map(old(v)@), logical@, canonical@, views(aliases@)),
{
    let lower_canonical = to_ascii_lowercase(canonical);
    let ghost entry = (logical@, canonical@);
    let ghost m0 = entries_map(v@).insert(lower(canonical@), entry);
    push_entry(v, lower_canonical.clone(), logical.clone(), canonical);
    let ghost al = views(aliases@);
    assert(al.take(0) =~= Seq::<Seq<char>>::empty());
    let mut i: usize = 0;
    while i < aliases.len()
        invariant
            i <= aliases@.len(),
            al == views(aliases@),
            lower_canonical@ == lower(canonical@),
            logical@ == entry.0,
            canonical@ == entry.1,
            entries_map(v@) == register_aliases(m0, lower(canonical@), entry, al.take(i as int)),
        decreases aliases@.len() - i,
    {
        assert(al.take(i + 1).drop_last() =~= al.take(i as int));
        assert(al.take(i + 1).last() == aliases@[i as int]@);
        let lower_alias = to_ascii_lowercase(aliases[i].as_str());
        if !str_eq(lower_alias.as_str(), lower_canonical.as_str()) {
            push_entry(v, lower_alias, logical.clone(), canonical);
        }
        i += 1;
    }
    assert(al.take(aliases@.len() as int) =~= al);
}

fn no_aliases() -> (r: Vec<String>)
    ensures
        views(r@) == Seq::<Seq<char>>::empty(),
{
    let r: Vec<String> = Vec::new();
    assert(views(r@) =~= Seq::<Seq<char>>::empty());
    r
}

fn aliases_of(a: &str, b: &str, c: &str, n: usize) -> (r: Vec<String>)
    requires
        1 <= n <= 3,
    ensures
        n == 1 ==> views(r@) == seq![a@],
        n == 2 ==> views(r@) == seq![a@, b@],
        n == 3 ==> views(r@) == seq![a@, b@, c@],
{
    let mut r: Vec<String> = Vec::new();
    r.push(copy_str(a));
    if n >= 2 {
        r.push(copy_str(b));
    }
    if n >= 3 {
        r.push(copy_str(c));
    }
    assert(n == 1 ==> views(r@) =~= seq![a@]);
    assert(n == 2 ==> views(r@) =~= seq![a@, b@]);
    assert(n == 3 ==> views(r@) =~= seq![a@, b@, c@]);
    r
}

fn register_attrs(v: &mut Vec<(String, LogicalAttr, String)>, attrs: &Vec<AttributeSchema>)
    ensures
        entries_map(final(v)@) == register_schema_attrs(entries_map(old(v)@), attr_views(attrs@)),
{
    let ghost av = attr_views(attrs@);
    let ghost m0 = entries_map(v@);
    let mut i: usize = 0;
    while i < attrs.len()
        invariant
            i <= attrs@.len(),
            av == attr_views(attrs@),
            entries_map(v@) == register_schema_attrs(m0, av.take(i as int)),
        decreases attrs@.len() - i,
    {
        assert(av.take(i + 1).drop_last() =~= av.take(i as int));
        assert(av.take(i + 1).last() == attrs@[i as int]@);
        let a = &attrs[i];
        let preferred = get_preferred_ldap_name(a);
        let logical = determine_logical_attr(a, preferred.as_str());
        register(v, logical, preferred.as_str(), &a.aliases);
        i += 1;
    }
    assert(av.take(attrs@.len() as int) =~= av);
}

impl SchemaManager {
    /// Builds the attribute map of a schema: the core attributes, then every user
    /// attribute, then every group attribute, each under its preferred LDAP name
    /// and its aliases (a later registration of a name wins).
    pub fn new(schema: &PublicSchema) -> (r: SchemaManager)
        ensures
            r@ == schema_attr_map(
                attr_views(schema.0.user_attributes.attributes@),
                attr_views(schema.0.group_attributes.attributes@),
            ),
    {
        let mut v: Vec<(String, LogicalAttr, String)> = Vec::new();
        assert(entries_map(v@) =~= Map::<Seq<char>, (LogicalAttrView, Seq<char>)>::empty());
        register(&mut v, LogicalAttr::ObjectClass, "objectClass", &no_aliases());
        register(&mut v, LogicalAttr::MemberOf, "memberOf", &aliases_of("ismemberof", "", "", 1));
        register(&mut v, LogicalAttr::Dn, "dn", &aliases_of("distinguishedname", "", "", 1));
        register(&mut v, LogicalAttr::EntryDn, "entryDN", &no_aliases());
        register(&mut v, LogicalAttr::Operational, "hasSubordinates", &no_aliases());
        register(&mut v, LogicalAttr::Operational, "structuralObjectClass", &no_aliases());
        register(&mut v, LogicalAttr::Operational, "subschemaSubentry", &no_aliases());
        register(
            &mut v,
            LogicalAttr::Operational,
            "createTimestamp",
            &aliases_of("creationdate", "creation_date", "creationtimestamp", 3),
        );
        register(
            &mut v,
            LogicalAttr::Operational,
            "modifyTimestamp",
            &aliases_of("modifieddate", "modified_date", "modifydate", 3),
        );
        register(
            &mut v,
            LogicalAttr::Operational,
            "pwdChangedTime",
            &aliases_of("passwordmodifieddate", "password_modified_date", "", 2),
        );
        assert(entries_map(v@) == core_attrs_map());
        register_attrs(&mut v, &schema.0.user_attributes.attributes);
        register_attrs(&mut v, &schema.0.group_attributes.attributes);
        SchemaManager { attribute_map: v }
    }

    /// The manager for the built-in schema.
    pub fn default() -> (r: SchemaManager)
        ensures
            r@ == schema_attr_map(
                crate::schema::builtin_user_attributes(),
                crate::schema::builtin_group_attributes(),
            ),
    {
        SchemaManager::new(&PublicSchema::get())
    }

    /// What a name stands for, and its canonical LDAP name (the name is compared
    /// without ASCII case).
    pub fn resolve_attribute(&self, name: &str) -> (r: Option<(LogicalAttr, String)>)
        ensures
            match r {
                Some(x) => self@.dom().contains(lower(name@)) && self@[lower(name@)] == (x.0@, x.1@),
                None => !self@.dom().contains(lower(name@)),
            },
    {
        let key = to_ascii_lowercase(name);
        let ghost v = self.attribute_map@;
        let mut i: usize = self.attribute_map.len();
        while i > 0
            invariant
                i <= v.len(),
                v == self.attribute_map@,
                key@ == lower(name@),
                forall|j: int| i <= j < v.len() ==> (#[trigger] v[j]).0@ != key@,
            decreases i,
        {
            let e = &self.attribute_map[i - 1];
            if str_eq(e.0.as_str(), key.as_str()) {
                proof {
                    lemma_entries_map_suffix(v, i as int, key@);
                    assert(v.take(i as int).drop_last() =~= v.take(i - 1));
                    assert(v.take(i as int).last() == v[i - 1]);
                }
                return Some((e.1.clone(), e.2.clone()));
            }
            i -= 1;
        }
        proof {
            lemma_entries_map_suffix(v, 0, key@);
            assert(v.take(0) =~= Seq::<(String, LogicalAttr, String)>::empty());
        }
        None
    }

    /// The canonical LDAP name of a name, or the name itself when it is unknown.
    pub fn get_canonical_name(&self, name: &str) -> (r: String)
        ensures
            r@ == (if self@.dom().contains(lower(name@)) {
                self@[lower(name@)].1
            } else {
                name@
            }),
    {
        match self.resolve_attribute(name) {
            Some((_, canon)) => canon,
            None => copy_str(name),
        }
    }

    /// Whether a name stands for an operational attribute.
    pub fn is_operational(&self, name: &str) -> (r: bool)
        ensures
            r == (self@.dom().contains(lower(name@)) && self@[lower(name@)].0 is Operational),
    {
        match self.resolve_attribute(name) {
            Some((LogicalAttr::Operational, _)) => true,
            _ => false,
        }
    }
}

/// What a field name of a user filter or entry stands for.
#[derive(Clone, Debug, PartialEq, Eq)]
pub enum UserFieldType {
    NoMatch,
    ObjectClass,
    MemberOf,
    Dn,
    EntryDn,
    EntryUuid,
    PrimaryField(UserColumn),
    Attribute(AttributeName, AttributeType, bool),
}

/// What a field name of a group filter or entry stands for.
#[derive(Clone, Debug, PartialEq, Eq)]
pub enum GroupFieldType {
    NoMatch,
    GroupId,
    DisplayName,
    CreationDate,
    ModifiedDate,
    ObjectClass,
    Dn,
    EntryDn,
    EntryUuid,
    Member,
    Uuid,
    Attribute(AttributeName, AttributeType, bool),
}

/// A field kind as plain values (the attribute name by its text).
pub enum FieldKind {
    NoMatch,
    ObjectClass,
    MemberOf,
    Dn,
    EntryDn,
    EntryUuid,
    Primary(UserColumn),
    GroupId,
    DisplayName,
    CreationDate,
    ModifiedDate,
    Member,
    Uuid,
    Attribute(Seq<char>, AttributeType, bool),
}

impl View for UserFieldType {
    type V = FieldKind;

    open spec fn view(&self) -> FieldKind {
        match self {
            UserFieldType::NoMatch => FieldKind::NoMatch,
            UserFieldType::ObjectClass => FieldKind::ObjectClass,
            UserFieldType::MemberOf => FieldKind::MemberOf,
            UserFieldType::Dn => FieldKind::Dn,
            UserFieldType::EntryDn => FieldKind::EntryDn,
            UserFieldType::EntryUuid => FieldKind::EntryUuid,
            UserFieldType::PrimaryField(c) => FieldKind::Primary(*c),
            UserFieldType::Attribute(n, t, l) => FieldKind::Attribute(n@, *t, *l),
        }
    }
}

impl View for GroupFieldType {
    type V = FieldKind;

    open spec fn view(&self) -> FieldKind {
        match self {
            GroupFieldType::NoMatch => FieldKind::NoMatch,
            GroupFieldType::GroupId => FieldKind::GroupId,
            GroupFieldType::DisplayName => FieldKind::DisplayName,
            GroupFieldType::CreationDate => FieldKind::CreationDate,
            GroupFieldType::ModifiedDate => FieldKind::ModifiedDate,
            GroupFieldType::ObjectClass => FieldKind::ObjectClass,
            GroupFieldType::Dn => FieldKind::Dn,
            GroupFieldType::EntryDn => FieldKind::EntryDn,
            GroupFieldType::EntryUuid => FieldKind::EntryUuid,
            GroupFieldType::Member => FieldKind::Member,
            GroupFieldType::Uuid => FieldKind::Uuid,
            GroupFieldType::Attribute(n, t, l) => FieldKind::Attribute(n@, *t, *l),
        }
    }
}

/// The schema attribute found under `field` (exact name or alias), as a field kind.
pub open spec fn schema_field(attrs: Seq<AttrView>, field: Seq<char>) -> FieldKind {
    match crate::schema::first_answering(attrs, field) {
        Some(i) => FieldKind::Attribute(field, attrs[i].attribute_type, attrs[i].is_list),
        None => FieldKind::NoMatch,
    }
}

/// What a user field name stands for: its meaning in the attribute map when the
/// map knows it (operational attributes are no user field), else the user
/// attribute of the schema found under it.
pub open spec fn user_field_of(m: AttrMap, user_attrs: Seq<AttrView>, field: Seq<char>) -> FieldKind {
    if m.dom().contains(lower(field)) {
        match m[lower(field)].0 {
            LogicalAttrView::ObjectClass => FieldKind::ObjectClass,
            LogicalAttrView::MemberOf => FieldKind::MemberOf,
            LogicalAttrView::Dn => FieldKind::Dn,
            LogicalAttrView::EntryDn => FieldKind::EntryDn,
            LogicalAttrView::Primary(c) => FieldKind::Primary(c),
            LogicalAttrView::Custom(n, t, l) => FieldKind::Attribute(lower(n), t, l),
            LogicalAttrView::Operational => FieldKind::NoMatch,
        }
    } else {
        schema_field(user_attrs, field)
    }
}

/// What a group field name stands for: its meaning in the attribute map when the
/// map knows it (only dates, the UUID and the display name among the stored
/// columns), else the group attribute of the schema found under it.
pub open spec fn group_field_of(m: AttrMap, group_attrs: Seq<AttrView>, field: Seq<char>) -> FieldKind {
    if m.dom().contains(lower(field)) {
        match m[lower(field)].0 {
            LogicalAttrView::ObjectClass => FieldKind::ObjectClass,
            LogicalAttrView::Dn => FieldKind::Dn,
            LogicalAttrView::EntryDn => FieldKind::EntryDn,
            LogicalAttrView::Primary(c) => match c {
                UserColumn::CreationDate => FieldKind::CreationDate,
                UserColumn::ModifiedDate => FieldKind::ModifiedDate,
                UserColumn::Uuid => FieldKind::Uuid,
                UserColumn::DisplayName => FieldKind::DisplayName,
                _ => FieldKind::NoMatch,
            },
            LogicalAttrView::Custom(n, t, l) => FieldKind::Attribute(lower(n), t, l),
            _ => FieldKind::NoMatch,
        }
    } else {
        schema_field(group_attrs, field)
    }
}

impl SchemaManager {
    /// What a field name stands for in user filters and entries.
    pub fn map_user_field(&self, field: &AttributeName, schema: &PublicSchema) -> (r: UserFieldType)
        ensures
            r@ == user_field_of(self@, attr_views(schema.0.user_attributes.attributes@), field@),
    {
        match self.resolve_attribute(field.as_str()) {
            Some((logical, _)) => match logical {
                LogicalAttr::ObjectClass => UserFieldType::ObjectClass,
                LogicalAttr::MemberOf => UserFieldType::MemberOf,
                LogicalAttr::Dn => UserFieldType::Dn,
                LogicalAttr::EntryDn => UserFieldType::EntryDn,
                LogicalAttr::Primary(col) => UserFieldType::PrimaryField(col),
                LogicalAttr::Custom(internal, t, is_list) => UserFieldType::Attribute(
                    AttributeName::new(internal.as_str()),
                    t,
                    is_list,
                ),
                LogicalAttr::Operational => UserFieldType::NoMatch,
            },
            None => {
                let ghost attrs = schema.0.user_attributes.attributes@;
                proof {
                    crate::schema::lemma_first_answering(attr_views(attrs), field@);
                    if let Some(i) = crate::schema::first_answering(attr_views(attrs), field@) {
                        assert(attr_views(attrs)[i] == attrs[i]@);
                    }
                }
                match schema.get_schema().user_attributes.get_attribute_type(field.as_str()) {
                    Some((t, is_list)) => UserFieldType::Attribute(field.clone(), t, is_list),
                    None => UserFieldType::NoMatch,
                }
            },
        }
    }

    /// What a field name stands for in group filters and entries.
    pub fn map_group_field(&self, field: &AttributeName, schema: &PublicSchema) -> (r: GroupFieldType)
        ensures
            r@ == group_field_of(self@, attr_views(schema.0.group_attributes.attributes@), field@),
    {
        match self.resolve_attribute(field.as_str()) {
            Some((logical, _)) => match logical {
                LogicalAttr::ObjectClass => GroupFieldType::ObjectClass,
                LogicalAttr::Dn => GroupFieldType::Dn,
                LogicalAttr::EntryDn => GroupFieldType::EntryDn,
                LogicalAttr::Primary(col) => match col {
                    UserColumn::CreationDate => GroupFieldType::CreationDate,
                    UserColumn::ModifiedDate => GroupFieldType::ModifiedDate,
                    UserColumn::Uuid => GroupFieldType::Uuid,
                    UserColumn::DisplayName => GroupFieldType::DisplayName,
                    _ => GroupFieldType::NoMatch,
                },
                LogicalAttr::Custom(internal, t, is_list) => GroupFieldType::Attribute(
                    AttributeName::new(internal.as_str()),
                    t,
                    is_list,
                ),
                _ => GroupFieldType::NoMatch,
            },
            None => {
                let ghost attrs = schema.0.group_attributes.attributes@;
                proof {
                    crate::schema::lemma_first_answering(attr_views(attrs), field@);
                    if let Some(i) = crate::schema::first_answering(attr_views(attrs), field@) {
                        assert(attr_views(attrs)[i] == attrs[i]@);
                    }
                }
                match schema.get_schema().group_attributes.get_attribute_type(field.as_str()) {
                    Some((t, is_list)) => GroupFieldType::Attribute(field.clone(), t, is_list),
                    None => GroupFieldType::NoMatch,
                }
            },
        }
    }
}

/// The attribute map of the built-in schema.
pub fn get_schema_manager() -> (r: SchemaManager)
    ensures
        r@ == schema_attr_map(
            crate::schema::builtin_user_attributes(),
            crate::schema::builtin_group_attributes(),
        ),
{
    SchemaManager::default()
}

/// Attribute keys to serve, by lowercased name, each with the spelling to show.
pub type KeyMap = Map<Seq<char>, Seq<char>>;

/// The map of a key list; a later entry for a key replaces an earlier one.
pub open spec fn keys_map(v: Seq<(AttributeName, String)>) -> KeyMap
    decreases v.len(),
{
    if v.len() == 0 {
        Map::empty()
    } else {
        keys_map(v.drop_last()).insert(v.last().0@, v.last().1@)
    }
}

/// No key occurs twice.
pub open spec fn keys_unique(v: Seq<(AttributeName, String)>) -> bool {
    forall|i: int, j: int| 0 <= i < j < v.len() ==> (#[trigger] v[i]).0@ != (#[trigger] v[j]).0@
}

/// The attributes that a search asked for, after wildcards are expanded.
pub struct ExpandedAttributes {
    pub attribute_keys: Vec<(AttributeName, String)>,
    pub include_custom_attributes: bool,
    pub include_operational_attributes: bool,
}

proof fn lemma_keys_map_update(v: Seq<(AttributeName, String)>, i: int, x: (AttributeName, String))
    requires
        keys_unique(v),
        0 <= i < v.len(),
        v[i].0@ == x.0@,
    ensures
        keys_map(v.update(i, x)) == keys_map(v).insert(x.0@, x.1@),
    decreases v.len(),
{
    let u = v.update(i, x);
    if i == v.len() - 1 {
        assert(u.drop_last() =~= v.drop_last());
        assert(keys_map(u) =~= keys_map(v).insert(x.0@, x.1@));
    } else {
        let d = v.drop_last();
        assert(u.drop_last() =~= d.update(i, x));
        assert(d[i] == v[i]);
        lemma_keys_map_update(d, i, x);
        assert(v.last().0@ != x.0@) by {
            assert(v[i].0@ != v[v.len() - 1].0@);
        }
        assert(keys_map(u) =~= keys_map(v).insert(x.0@, x.1@));
    }
}

proof fn lemma_keys_map_push(v: Seq<(AttributeName, String)>, x: (AttributeName, String))
    ensures
        keys_map(v.push(x)) == keys_map(v).insert(x.0@, x.1@),
{
    assert(v.push(x).drop_last() =~= v);
}

/// Sets the shown spelling of a key.
fn insert_key(v: &mut Vec<(AttributeName, String)>, k: AttributeName, val: String)
    requires
        keys_unique(old(v)@),
    ensures
        keys_unique(final(v)@),
        keys_map(final(v)@) == keys_map(old(v)@).insert(k@, val@),
{
    let mut i: usize = 0;
    while i < v.len()
        invariant
            i <= v@.len(),
            v@ == old(v)@,
            keys_unique(old(v)@),
            forall|j: int| 0 <= j < i ==> (#[trigger] v@[j]).0@ != k@,
        decreases v@.len() - i,
    {
        if v[i].0.same_as(&k) {
            let x = (k, val);
            proof {
                lemma_keys_map_update(v@, i as int, x);
            }
            let ghost before = v@;
            v.set(i, x);
            assert(v@ == before.update(i as int, x));
            assert forall|a: int, b: int| 0 <= a < b < v@.len() implies (#[trigger] v@[a]).0@
                != (#[trigger] v@[b]).0@ by {
                assert(before[a].0@ != before[b].0@);
            }
            return;
        }
        i += 1;
    }
    let x = (k, val);
    proof {
        lemma_keys_map_push(v@, x);
    }
    let ghost before = v@;
    v.push(x);
    assert forall|a: int, b: int| 0 <= a < b < v@.len() implies (#[trigger] v@[a]).0@
        != (#[trigger] v@[b]).0@ by {
        if b < before.len() {
            assert(before[a].0@ != before[b].0@);
        } else {
            assert(before[a].0@ != k@);
        }
    }
}

/// Whether the list holds the name, without ASCII case.
pub open spec fn contains_ic(list: Seq<Seq<char>>, p: Seq<char>) -> bool {
    exists|i: int| 0 <= i < list.len() && #[trigger] crate::text::eq_ic(list[i], p)
}

/// The list with the name added unless it holds it already (without ASCII case).
pub open spec fn add_ic(list: Seq<Seq<char>>, p: Seq<char>) -> Seq<Seq<char>> {
    if contains_ic(list, p) {
        list
    } else {
        list.push(p)
    }
}

fn contains_ic_vec(list: &Vec<String>, p: &str) -> (r: bool)
    ensures
        r == contains_ic(views(list@), p@),
{
    let mut i: usize = 0;
    while i < list.len()
        invariant
            i <= list@.len(),
            forall|j: int| 0 <= j < i ==> !crate::text::eq_ic(#[trigger] list@[j]@, p@),
        decreases list@.len() - i,
    {
        if crate::text::eq_ignore_ascii_case(list[i].as_str(), p) {
            assert(views(list@)[i as int] == list@[i as int]@);
            return true;
        }
        i += 1;
    }
    assert forall|j: int| 0 <= j < views(list@).len() implies !crate::text::eq_ic(
        #[trigger] views(list@)[j],
        p@,
    ) by {
        assert(views(list@)[j] == list@[j]@);
    }
    false
}

fn add_ic_vec(list: &mut Vec<String>, p: &str)
    ensures
        views(final(list)@) == add_ic(views(old(list)@), p@),
{
    if !contains_ic_vec(list, p) {
        let ghost before = views(list@);
        list.push(copy_str(p));
        assert(views(list@) =~= before.push(p@));
    }
}

/// The attributes always shown as operational, under their LDAP spelling.
pub open spec fn is_always_operational(p: Seq<char>) -> bool {
    ||| p == "hasSubordinates"@
    ||| p == "structuralObjectClass"@
    ||| p == "subschemaSubentry"@
    ||| p == "createTimestamp"@
    ||| p == "modifyTimestamp"@
    ||| p == "pwdChangedTime"@
    ||| p == "entryUUID"@
    ||| p == "memberOf"@
}

fn always_operational(p: &str) -> (r: bool)
    ensures
        r == is_always_operational(p@),
{
    str_eq(p, "hasSubordinates") || str_eq(p, "structuralObjectClass") || str_eq(p, "subschemaSubentry")
        || str_eq(p, "createTimestamp") || str_eq(p, "modifyTimestamp") || str_eq(p, "pwdChangedTime")
        || str_eq(p, "entryUUID") || str_eq(p, "memberOf")
}

/// Root DSE and schema attributes that a `+` request does not reach.
pub open spec fn is_ignored_on_plus(p: Seq<char>) -> bool {
    ||| p == "attributetypes"@
    ||| p == "objectclasses"@
    ||| p == "matchingrules"@
    ||| p == "ldapsyntaxes"@
    ||| p == "matchingruleuse"@
    ||| p == "creatorsname"@
    ||| p == "modifiersname"@
    ||| p == "namingcontexts"@
    ||| p == "supportedcontrol"@
    ||| p == "supportedextension"@
    ||| p == "supportedfeatures"@
    ||| p == "supportedldapversion"@
    ||| p == "supportedsaslmechanisms"@
    ||| p == "vendorname"@
    ||| p == "vendorversion"@
    ||| p == "altserver"@
    ||| p == "ref"@
    ||| p == "queryid"@
}

fn ignored_on_plus(p: &str) -> (r: bool)
    ensures
        r == is_ignored_on_plus(p@),
{
    str_eq(p, "attributetypes") || str_eq(p, "objectclasses") || str_eq(p, "matchingrules") || str_eq(
        p,
        "ldapsyntaxes",
    ) || str_eq(p, "matchingruleuse") || str_eq(p, "creatorsname") || str_eq(p, "modifiersname")
        || str_eq(p, "namingcontexts") || str_eq(p, "supportedcontrol") || str_eq(p, "supportedextension")
        || str_eq(p, "supportedfeatures") || str_eq(p, "supportedldapversion") || str_eq(
        p,
        "supportedsaslmechanisms",
    ) || str_eq(p, "vendorname") || str_eq(p, "vendorversion") || str_eq(p, "altserver") || str_eq(
        p,
        "ref",
    ) || str_eq(p, "queryid")
}

/// Sorts the preferred names of schema attributes into standard and operational
/// keys, in order, each name once (without ASCII case).
pub open spec fn classify_from(
    init: (Seq<Seq<char>>, Seq<Seq<char>>),
    m: AttrMap,
    attrs: Seq<AttrView>,
) -> (Seq<Seq<char>>, Seq<Seq<char>>)
    decreases attrs.len(),
{
    if attrs.len() == 0 {
        init
    } else {
        let (st, op) = classify_from(init, m, attrs.drop_last());
        let p = preferred_name(attrs.last());
        if m.dom().contains(lower(p)) && (m[lower(p)].0 is Operational || is_always_operational(p)) {
            (st, add_ic(op, p))
        } else {
            (add_ic(st, p), op)
        }
    }
}

/// The names of the list that are not always-operational, in order.
pub open spec fn without_always_operational(list: Seq<Seq<char>>) -> Seq<Seq<char>>
    decreases list.len(),
{
    if list.len() == 0 {
        list
    } else {
        let r = without_always_operational(list.drop_last());
        if !is_always_operational(list.last()) {
            r.push(list.last())
        } else {
            r
        }
    }
}

/// The names of the list that a `+` request does reach, in order.
pub open spec fn without_ignored(list: Seq<Seq<char>>) -> Seq<Seq<char>>
    decreases list.len(),
{
    if list.len() == 0 {
        list
    } else {
        let r = without_ignored(list.drop_last());
        if !is_ignored_on_plus(list.last()) {
            r.push(list.last())
        } else {
            r
        }
    }
}

/// The list with each always-operational name added unless already held.
pub open spec fn with_always_operational(l: Seq<Seq<char>>) -> Seq<Seq<char>> {
    let l = add_ic(l, "hasSubordinates"@);
    let l = add_ic(l, "structuralObjectClass"@);
    let l = add_ic(l, "subschemaSubentry"@);
    let l = add_ic(l, "createTimestamp"@);
    let l = add_ic(l, "modifyTimestamp"@);
    let l = add_ic(l, "pwdChangedTime"@);
    let l = add_ic(l, "entryUUID"@);
    add_ic(l, "memberOf"@)
}

/// The standard and operational keys of the schema before filtering.
pub open spec fn schema_keys(m: AttrMap, users: Seq<AttrView>, groups: Seq<AttrView>) -> (
    Seq<Seq<char>>,
    Seq<Seq<char>>,
) {
    classify_from(
        classify_from((Seq::<Seq<char>>::empty(), Seq::<Seq<char>>::empty()), m, users),
        m,
        groups,
    )
}

/// The keys that `*` stands for: the standard keys, without the always-operational
/// ones, with `objectClass`.
pub open spec fn standard_keys(m: AttrMap, users: Seq<AttrView>, groups: Seq<AttrView>) -> Seq<Seq<char>> {
    add_ic(without_always_operational(schema_keys(m, users, groups).0), "objectClass"@)
}

/// The keys that `+` adds: the operational keys and the always-operational ones.
pub open spec fn operational_keys(m: AttrMap, users: Seq<AttrView>, groups: Seq<AttrView>) -> Seq<Seq<char>> {
    without_ignored(with_always_operational(schema_keys(m, users, groups).1))
}

/// The canonical LDAP name of a requested name, or the name itself.
pub open spec fn canonical_of(m: AttrMap, s: Seq<char>) -> Seq<char> {
    if m.dom().contains(lower(s)) {
        m[lower(s)].1
    } else {
        s
    }
}

/// Whether a requested name is served by name (not a wildcard, not `1.1`, not ignored).
pub open spec fn is_plain_request(s: Seq<char>) -> bool {
    let l = lower(s);
    l != "*"@ && l != "+"@ && l != "1.1"@ && !is_ignored_on_plus(l)
}

/// Adds the requested names, by their canonical name.
pub open spec fn requested_keys(m: AttrMap, acc: KeyMap, reqs: Seq<Seq<char>>) -> KeyMap
    decreases reqs.len(),
{
    if reqs.len() == 0 {
        acc
    } else {
        let a = requested_keys(m, acc, reqs.drop_last());
        let s = reqs.last();
        if is_plain_request(s) {
            a.insert(lower(canonical_of(m, s)), canonical_of(m, s))
        } else {
            a
        }
    }
}

/// Adds names under their lowercase.
pub open spec fn insert_names(acc: KeyMap, names: Seq<Seq<char>>) -> KeyMap
    decreases names.len(),
{
    if names.len() == 0 {
        acc
    } else {
        insert_names(acc, names.drop_last()).insert(lower(names.last()), names.last())
    }
}

/// Whether a request asks for all user attributes (`*`, or no attribute at all).
pub open spec fn asks_all(reqs: Seq<Seq<char>>) -> bool {
    reqs.len() == 0 || reqs.contains("*"@)
}

/// Whether a request asks for the operational attributes (`+`).
pub open spec fn asks_operational(reqs: Seq<Seq<char>>) -> bool {
    reqs.contains("+"@)
}

/// The attribute keys served for a request: the names asked for; with `*` or `+`
/// the standard keys; with `+` also the operational keys.
pub open spec fn expanded_keys(m: AttrMap, users: Seq<AttrView>, groups: Seq<AttrView>, reqs: Seq<Seq<char>>) -> KeyMap {
    let m1 = requested_keys(m, Map::empty(), reqs);
    let m2 = if asks_all(reqs) || asks_operational(reqs) {
        insert_names(m1, standard_keys(m, users, groups))
    } else {
        m1
    };
    if asks_operational(reqs) {
        insert_names(m2, operational_keys(m, users, groups))
    } else {
        m2
    }
}

fn classify_into(
    mgr: &SchemaManager,
    attrs: &Vec<AttributeSchema>,
    st: &mut Vec<String>,
    op: &mut Vec<String>,
)
    ensures
        (views(final(st)@), views(final(op)@)) == classify_from(
            (views(old(st)@), views(old(op)@)),
            mgr@,
            attr_views(attrs@),
        ),
{
    let ghost av = attr_views(attrs@);
    let ghost init = (views(st@), views(op@));
    assert(av.take(0).len() == 0);
    let mut i: usize = 0;
    while i < attrs.len()
        invariant
            i <= attrs@.len(),
            av == attr_views(attrs@),
            (views(st@), views(op@)) == classify_from(init, mgr@, av.take(i as int)),
        decreases attrs@.len() - i,
    {
        assert(av.take(i + 1).drop_last() =~= av.take(i as int));
        assert(av.take(i + 1).last() == attrs@[i as int]@);
        let p = get_preferred_ldap_name(&attrs[i]);
        match mgr.resolve_attribute(p.as_str()) {
            Some((logical, _)) => {
                let is_op = match logical {
                    LogicalAttr::Operational => true,
                    _ => false,
                };
                if is_op || always_operational(p.as_str()) {
                    add_ic_vec(op, p.as_str());
                } else {
                    add_ic_vec(st, p.as_str());
                }
            },
            None => {
                add_ic_vec(st, p.as_str());
            },
        }
        i += 1;
    }
    assert(av.take(attrs@.len() as int) =~= av);
}

fn drop_always_operational(list: &Vec<String>) -> (r: Vec<String>)
    ensures
        views(r@) == without_always_operational(views(list@)),
{
    let ghost lv = views(list@);
    let mut r: Vec<String> = Vec::new();
    let mut i: usize = 0;
    while i < list.len()
        invariant
            i <= list@.len(),
            lv == views(list@),
            views(r@) == without_always_operational(lv.take(i as int)),
        decreases list@.len() - i,
    {
        assert(lv.take(i + 1).drop_last() =~= lv.take(i as int));
        assert(lv.take(i + 1).last() == list@[i as int]@);
        if !always_operational(list[i].as_str()) {
            let ghost before = views(r@);
            r.push(list[i].clone());
            assert(views(r@) =~= before.push(list@[i as int]@));
        }
        i += 1;
    }
    assert(lv.take(list@.len() as int) =~= lv);
    r
}

fn drop_ignored(list: &Vec<String>) -> (r: Vec<String>)
    ensures
        views(r@) == without_ignored(views(list@)),
{
    let ghost lv = views(list@);
    let mut r: Vec<String> = Vec::new();
    let mut i: usize = 0;
    while i < list.len()
        invariant
            i <= list@.len(),
            lv == views(list@),
            views(r@) == without_ignored(lv.take(i as int)),
        decreases list@.len() - i,
    {
        assert(lv.take(i + 1).drop_last() =~= lv.take(i as int));
        assert(lv.take(i + 1).last() == list@[i as int]@);
        if !ignored_on_plus(list[i].as_str()) {
            let ghost before = views(r@);
            r.push(list[i].clone());
            assert(views(r@) =~= before.push(list@[i as int]@));
        }
        i += 1;
    }
    assert(lv.take(list@.len() as int) =~= lv);
    r
}

fn plain_request(s: &str) -> (r: bool)
    ensures
        r == is_plain_request(s@),
{
    let l = to_ascii_lowercase(s);
    let ls = l.as_str();
    !str_eq(ls, "*") && !str_eq(ls, "+") && !str_eq(ls, "1.1") && !ignored_on_plus(ls)
}

fn holds_name(list: &[String], name: &str) -> (r: bool)
    ensures
        r == views(list@).contains(name@),
{
    let mut i: usize = 0;
    while i < list.len()
        invariant
            i <= list@.len(),
            forall|j: int| 0 <= j < i ==> (#[trigger] list@[j])@ != name@,
        decreases list@.len() - i,
    {
        if str_eq(list[i].as_str(), name) {
            assert(views(list@)[i as int] == name@);
            return true;
        }
        i += 1;
    }
    assert forall|j: int| 0 <= j < views(list@).len() implies views(list@)[j] != name@ by {
        assert(views(list@)[j] == list@[j]@);
    }
    false
}

fn insert_all_names(keys: &mut Vec<(AttributeName, String)>, names: &Vec<String>)
    requires
        keys_unique(old(keys)@),
    ensures
        keys_unique(final(keys)@),
        keys_map(final(keys)@) == insert_names(keys_map(old(keys)@), views(names@)),
{
    let ghost nv = views(names@);
    let ghost m0 = keys_map(keys@);
    assert(nv.take(0).len() == 0);
    let mut i: usize = 0;
    while i < names.len()
        invariant
            i <= names@.len(),
            nv == views(names@),
            keys_unique(keys@),
            keys_map(keys@) == insert_names(m0, nv.take(i as int)),
        decreases names@.len() - i,
    {
        assert(nv.take(i + 1).drop_last() =~= nv.take(i as int));
        assert(nv.take(i + 1).last() == names@[i as int]@);
        insert_key(keys, AttributeName::new(names[i].as_str()), names[i].clone());
        i += 1;
    }
    assert(nv.take(names@.len() as int) =~= nv);
}

impl SchemaManager {
    /// Expands the attribute list of a search request: names are served under their
    /// canonical LDAP name; `*` (or an empty list) adds every standard attribute of
    /// the schema and `objectClass`; `+` adds those and the operational attributes.
    pub fn expand_attribute_wildcards(&self, ldap_attributes: &[String], schema: &PublicSchema) -> (r:
        ExpandedAttributes)
        ensures
            keys_unique(r.attribute_keys@),
            keys_map(r.attribute_keys@) == expanded_keys(
                self@,
                attr_views(schema.0.user_attributes.attributes@),
                attr_views(schema.0.group_attributes.attributes@),
                views(ldap_attributes@),
            ),
            r.include_custom_attributes == (asks_all(views(ldap_attributes@)) || asks_operational(
                views(ldap_attributes@),
            )),
            r.include_operational_attributes == asks_operational(views(ldap_attributes@)),
    {
        let ghost users = attr_views(schema.0.user_attributes.attributes@);
        let ghost groups = attr_views(schema.0.group_attributes.attributes@);
        let mut standard: Vec<String> = Vec::new();
        let mut operational: Vec<String> = Vec::new();
        assert(views(standard@) =~= Seq::<Seq<char>>::empty());
        assert(views(operational@) =~= Seq::<Seq<char>>::empty());
        classify_into(self, &schema.user_attributes().attributes, &mut standard, &mut operational);
        classify_into(self, &schema.group_attributes().attributes, &mut standard, &mut operational);
        assert((views(standard@), views(operational@)) == schema_keys(self@, users, groups));
        add_ic_vec(&mut operational, "hasSubordinates");
        add_ic_vec(&mut operational, "structuralObjectClass");
        add_ic_vec(&mut operational, "subschemaSubentry");
        add_ic_vec(&mut operational, "createTimestamp");
        add_ic_vec(&mut operational, "modifyTimestamp");
        add_ic_vec(&mut operational, "pwdChangedTime");
        add_ic_vec(&mut operational, "entryUUID");
        add_ic_vec(&mut operational, "memberOf");
        let mut standard = drop_always_operational(&standard);
        add_ic_vec(&mut standard, "objectClass");
        let operational = drop_ignored(&operational);
        assert(views(standard@) == standard_keys(self@, users, groups));
        assert(views(operational@) == operational_keys(self@, users, groups));

        let ghost reqs = views(ldap_attributes@);
        let mut keys: Vec<(AttributeName, String)> = Vec::new();
        assert(keys_map(keys@) =~= Map::<Seq<char>, Seq<char>>::empty());
        assert(reqs.take(0).len() == 0);
        let mut i: usize = 0;
        while i < ldap_attributes.len()
            invariant
                i <= ldap_attributes@.len(),
                reqs == views(ldap_attributes@),
                keys_unique(keys@),
                keys_map(keys@) == requested_keys(self@, Map::empty(), reqs.take(i as int)),
            decreases ldap_attributes@.len() - i,
        {
            assert(reqs.take(i + 1).drop_last() =~= reqs.take(i as int));
            assert(reqs.take(i + 1).last() == ldap_attributes@[i as int]@);
            if plain_request(ldap_attributes[i].as_str()) {
                let canonical = self.get_canonical_name(ldap_attributes[i].as_str());
                insert_key(&mut keys, AttributeName::new(canonical.as_str()), canonical.clone());
            }
            i += 1;
        }
        assert(reqs.take(ldap_attributes@.len() as int) =~= reqs);
        let has_star = ldap_attributes.len() == 0 || holds_name(ldap_attributes, "*");
        let has_plus = holds_name(ldap_attributes, "+");
        if has_star || has_plus {
            insert_all_names(&mut keys, &standard);
        }
        if has_plus {
            insert_all_names(&mut keys, &operational);
        }
        ExpandedAttributes {
            attribute_keys: keys,
            include_custom_attributes: has_star || has_plus,
            include_operational_attributes: has_plus,
        }
    }
}

} // verus!
