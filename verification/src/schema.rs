//! The attribute schema of users, groups and system settings, and its built-in table.
use vstd::prelude::*;
use crate::text::{copy_str, join, join_strings, str_eq, views};

verus! {

/// The type of an attribute's values.
#[derive(Clone, Copy, Debug, PartialEq, Eq, Structural)]
pub enum AttributeType {
    String,
    Integer,
    Avatar,
    DateTime,
}

/// The description of one attribute.
#[derive(Clone, Debug, PartialEq, Eq)]
pub struct AttributeSchema {
    pub name: String,
    pub aliases: Vec<String>,
    pub attribute_type: AttributeType,
    pub is_list: bool,
    pub is_visible: bool,
    pub is_editable: bool,
    pub is_hardcoded: bool,
    pub is_readonly: bool,
}

/// An attribute description as plain values.
pub struct AttrView {
    pub name: Seq<char>,
    pub aliases: Seq<Seq<char>>,
    pub attribute_type: AttributeType,
    pub is_list: bool,
    pub is_visible: bool,
    pub is_editable: bool,
    pub is_hardcoded: bool,
    pub is_readonly: bool,
}

impl View for AttributeSchema {
    type V = AttrView;

    open spec fn view(&self) -> AttrView {
        AttrView {
            name: self.name@,
            aliases: views(self.aliases@),
            attribute_type: self.attribute_type,
            is_list: self.is_list,
            is_visible: self.is_visible,
            is_editable: self.is_editable,
            is_hardcoded: self.is_hardcoded,
            is_readonly: self.is_readonly,
        }
    }
}

/// Whether the description is found under `name`: its own name or one of its aliases, exactly.
pub open spec fn answers_to(a: AttrView, name: Seq<char>) -> bool {
    a.name == name || a.aliases.contains(name)
}

/// The views of a list of descriptions.
pub open spec fn attr_views(v: Seq<AttributeSchema>) -> Seq<AttrView> {
    v.map_values(|a: AttributeSchema| a@)
}

/// Index of the first description found under `name`, if any.
pub open spec fn first_answering(attrs: Seq<AttrView>, name: Seq<char>) -> Option<int>
    decreases attrs.len(),
{
    if attrs.len() == 0 {
        None
    } else if answers_to(attrs[0], name) {
        Some(0)
    } else {
        match first_answering(attrs.drop_first(), name) {
            Some(i) => Some(i + 1),
            None => None,
        }
    }
}

pub proof fn lemma_first_answering(attrs: Seq<AttrView>, name: Seq<char>)
    ensures
        match first_answering(attrs, name) {
            Some(i) => 0 <= i < attrs.len() && answers_to(attrs[i], name) && forall|j: int|
                0 <= j < i ==> !answers_to(#[trigger] attrs[j], name),
            None => forall|j: int| 0 <= j < attrs.len() ==> !answers_to(#[trigger] attrs[j], name),
        },
    decreases attrs.len(),
{
    if attrs.len() > 0 {
        lemma_first_answering(attrs.drop_first(), name);
        if !answers_to(attrs[0], name) {
            match first_answering(attrs.drop_first(), name) {
                Some(i) => {
                    assert forall|j: int| 0 <= j < i + 1 implies !answers_to(#[trigger] attrs[j], name) by {
                        if j > 0 {
                            assert(attrs[j] == attrs.drop_first()[j - 1]);
                        }
                    }
                },
                None => {
                    assert forall|j: int| 0 <= j < attrs.len() implies !answers_to(#[trigger] attrs[j], name) by {
                        if j > 0 {
                            assert(attrs[j] == attrs.drop_first()[j - 1]);
                        }
                    }
                },
            }
        }
    }
}

/// A list of attribute descriptions.
#[derive(Clone, Debug, PartialEq, Eq)]
pub struct AttributeList {
    pub attributes: Vec<AttributeSchema>,
}

/// Whether one of the strings equals `name` exactly.
fn holds_exactly(items: &Vec<String>, name: &str) -> (r: bool)
    ensures
        r == views(items@).contains(name@),
{
    let mut i: usize = 0;
    while i < items.len()
        invariant
            i <= items@.len(),
            forall|j: int| 0 <= j < i ==> items@[j]@ != name@,
        decreases items@.len() - i,
    {
        if str_eq(items[i].as_str(), name) {
            assert(views(items@)[i as int] == name@);
            return true;
        }
        i += 1;
    }
    assert forall|j: int| 0 <= j < views(items@).len() implies views(items@)[j] != name@ by {
        assert(views(items@)[j] == items@[j]@);
    }
    false
}

impl AttributeList {
    /// The first description found under `name` (its name or an alias, compared exactly).
    pub fn get_by_name_or_alias(&self, name: &str) -> (r: Option<&AttributeSchema>)
        ensures
            match first_answering(attr_views(self.attributes@), name@) {
                Some(i) => r == Some(&self.attributes@[i]),
                None => r is None,
            },
    {
        let ghost av = attr_views(self.attributes@);
        proof {
            lemma_first_answering(av, name@);
        }
        let mut i: usize = 0;
        while i < self.attributes.len()
            invariant
                i <= self.attributes@.len(),
                av == attr_views(self.attributes@),
                forall|j: int| 0 <= j < i ==> !answers_to(#[trigger] av[j], name@),
            decreases self.attributes@.len() - i,
        {
            let a = &self.attributes[i];
            if str_eq(a.name.as_str(), name) || holds_exactly(&a.aliases, name) {
                proof {
                    assert(av[i as int] == a@);
                    lemma_first_answering_at(av, name@, i as int);
                }
                return Some(a);
            }
            assert(av[i as int] == a@);
            i += 1;
        }
        proof {
            lemma_first_answering_none(av, name@);
        }
        None
    }

    /// Same as `get_by_name_or_alias`.
    pub fn get_attribute_schema(&self, name: &str) -> (r: Option<&AttributeSchema>)
        ensures
            match first_answering(attr_views(self.attributes@), name@) {
                Some(i) => r == Some(&self.attributes@[i]),
                None => r is None,
            },
    {
        self.get_by_name_or_alias(name)
    }

    /// The type and list-ness of the attribute found under `name`.
    pub fn get_attribute_type(&self, name: &str) -> (r: Option<(AttributeType, bool)>)
        ensures
            match first_answering(attr_views(self.attributes@), name@) {
                Some(i) => r == Some(
                    (self.attributes@[i].attribute_type, self.attributes@[i].is_list),
                ),
                None => r is None,
            },
    {
        match self.get_by_name_or_alias(name) {
            Some(a) => Some((a.attribute_type, a.is_list)),
            None => None,
        }
    }

    /// The attribute names joined with " $ ".
    pub fn format_for_ldap_schema_description(&self) -> (r: String)
        ensures
            r@ == join(
                self.attributes@.map_values(|a: AttributeSchema| a.name@),
                " $ "@,
            ),
    {
        let mut names: Vec<String> = Vec::new();
        let mut i: usize = 0;
        while i < self.attributes.len()
            invariant
                i <= self.attributes@.len(),
                views(names@) == self.attributes@.map_values(|a: AttributeSchema| a.name@).take(
                    i as int,
                ),
            decreases self.attributes@.len() - i,
        {
            let ghost before = views(names@);
            names.push(self.attributes[i].name.clone());
            assert(views(names@) =~= before.push(self.attributes@[i as int].name@));
            assert(self.attributes@.map_values(|a: AttributeSchema| a.name@).take(i + 1)
                =~= self.attributes@.map_values(|a: AttributeSchema| a.name@).take(i as int).push(
                self.attributes@[i as int].name@,
            ));
            i += 1;
        }
        assert(self.attributes@.map_values(|a: AttributeSchema| a.name@).take(
            self.attributes@.len() as int,
        ) =~= self.attributes@.map_values(|a: AttributeSchema| a.name@));
        join_strings(&names, " $ ")
    }
}

proof fn lemma_first_answering_at(attrs: Seq<AttrView>, name: Seq<char>, i: int)
    requires
        0 <= i < attrs.len(),
        answers_to(attrs[i], name),
        forall|j: int| 0 <= j < i ==> !answers_to(#[trigger] attrs[j], name),
    ensures
        first_answering(attrs, name) == Some(i),
    decreases i,
{
    if i > 0 {
        assert forall|j: int| 0 <= j < i - 1 implies !answers_to(
            #[trigger] attrs.drop_first()[j],
            name,
        ) by {
            assert(attrs.drop_first()[j] == attrs[j + 1]);
        }
        assert(!answers_to(attrs[0], name));
        lemma_first_answering_at(attrs.drop_first(), name, i - 1);
    }
}

proof fn lemma_first_answering_none(attrs: Seq<AttrView>, name: Seq<char>)
    requires
        forall|j: int| 0 <= j < attrs.len() ==> !answers_to(#[trigger] attrs[j], name),
    ensures
        first_answering(attrs, name) is None,
    decreases attrs.len(),
{
    if attrs.len() > 0 {
        assert(!answers_to(attrs[0], name));
        assert forall|j: int| 0 <= j < attrs.len() - 1 implies !answers_to(
            #[trigger] attrs.drop_first()[j],
            name,
        ) by {
            assert(attrs.drop_first()[j] == attrs[j + 1]);
        }
        lemma_first_answering_none(attrs.drop_first(), name);
    }
}

/// The whole schema.
#[derive(Clone, Debug, PartialEq, Eq)]
pub struct Schema {
    pub user_attributes: AttributeList,
    pub group_attributes: AttributeList,
    pub system_attributes: AttributeList,
    pub extra_user_object_classes: Vec<String>,
    pub extra_group_object_classes: Vec<String>,
}

/// The schema the directory serves.
#[derive(Clone, Debug, PartialEq, Eq)]
pub struct PublicSchema(pub Schema);

/// One row of the built-in table.
pub open spec fn row(
    name: Seq<char>,
    aliases: Seq<Seq<char>>,
    t: AttributeType,
    is_list: bool,
    is_visible: bool,
    is_editable: bool,
    is_readonly: bool,
) -> AttrView {
    AttrView {
        name,
        aliases,
        attribute_type: t,
        is_list,
        is_visible,
        is_editable,
        is_hardcoded: true,
        is_readonly,
    }
}

/// The built-in user attributes.
pub open spec fn builtin_user_attributes() -> Seq<AttrView> {
    seq![
        row("avatar"@, seq!["jpegphoto"@, "jpegPhoto"@], AttributeType::Avatar, false, true, true, false),
        row("creationdate"@, seq!["creation_date"@, "createtimestamp"@], AttributeType::DateTime, false, true, false, true),
        row("displayname"@, seq!["display_name"@, "cn"@], AttributeType::String, false, true, true, false),
        row("firstname"@, seq!["first_name"@, "givenname"@, "givenName"@], AttributeType::String, false, true, true, false),
        row("lastname"@, seq!["last_name"@, "sn"@], AttributeType::String, false, true, true, false),
        row("mail"@, seq!["email"@], AttributeType::String, false, true, true, false),
        row("modifieddate"@, seq!["modified_date"@, "modifytimestamp"@], AttributeType::DateTime, false, true, false, true),
        row("passwordmodifieddate"@, seq!["password_modified_date"@, "pwdchangedtime"@], AttributeType::DateTime, false, true, false, true),
        row("userid"@, seq!["user_id"@, "uid"@, "id"@], AttributeType::String, false, true, false, true),
        row("uuid"@, seq!["entryuuid"@], AttributeType::String, false, true, false, true),
        row("uidnumber"@, seq!["uid_number"@, "uidNumber"@], AttributeType::Integer, false, true, false, false),
        row("gidnumber"@, seq!["gid_number"@, "gidNumber"@], AttributeType::Integer, false, true, false, false),
        row("homedirectory"@, seq!["home_directory"@, "homeDirectory"@], AttributeType::String, false, true, false, false),
        row("loginshell"@, seq!["login_shell"@, "loginShell"@], AttributeType::String, false, true, false, false),
        row("kerberossync"@, seq!["kerberos_sync"@, "kerberosSync"@], AttributeType::Integer, false, true, false, false),
        row("krbprincipalname"@, seq!["krb_principal_name"@, "krbPrincipalName"@], AttributeType::String, false, false, false, true),
        row("sshpublickey"@, seq!["sshPublicKey"@, "ssHPublicKey"@], AttributeType::String, true, true, true, false),
        row("ou"@, seq!["organizationalunit"@, "organizationalUnit"@], AttributeType::String, false, true, false, true),
    ]
}

/// The built-in group attributes.
pub open spec fn builtin_group_attributes() -> Seq<AttrView> {
    seq![
        row("groupid"@, seq!["group_id"@], AttributeType::Integer, false, true, false, true),
        row("creationdate"@, seq!["creation_date"@, "createtimestamp"@], AttributeType::DateTime, false, true, false, true),
        row("modifieddate"@, seq!["modified_date"@, "modifytimestamp"@], AttributeType::DateTime, false, true, false, true),
        row("uuid"@, seq!["entryuuid"@], AttributeType::String, false, true, false, true),
        row("displayname"@, seq!["display_name"@, "cn"@], AttributeType::String, false, true, true, false),
        row("ou"@, seq!["organizationalunit"@, "organizationalUnit"@], AttributeType::String, false, true, false, true),
        row("gidnumber"@, seq!["gid_number"@, "gidNumber"@], AttributeType::Integer, false, true, false, false),
    ]
}

/// The built-in system attributes.
pub open spec fn builtin_system_attributes() -> Seq<AttrView> {
    seq![
        row("allowedous"@, seq!["allowedOUs"@, "AllowedOUs"@], AttributeType::String, true, false, false, true),
    ]
}

fn alias1(a: &str) -> (r: Vec<String>)
    ensures
        views(r@) == seq![a@],
{
    let mut r = Vec::new();
    r.push(copy_str(a));
    assert(views(r@) =~= seq![a@]);
    r
}

fn alias2(a: &str, b: &str) -> (r: Vec<String>)
    ensures
        views(r@) == seq![a@, b@],
{
    let mut r = Vec::new();
    r.push(copy_str(a));
    r.push(copy_str(b));
    assert(views(r@) =~= seq![a@, b@]);
    r
}

fn alias3(a: &str, b: &str, c: &str) -> (r: Vec<String>)
    ensures
        views(r@) == seq![a@, b@, c@],
{
    let mut r = Vec::new();
    r.push(copy_str(a));
    r.push(copy_str(b));
    r.push(copy_str(c));
    assert(views(r@) =~= seq![a@, b@, c@]);
    r
}

fn attr(
    name: &str,
    aliases: Vec<String>,
    t: AttributeType,
    is_list: bool,
    is_visible: bool,
    is_editable: bool,
    is_readonly: bool,
) -> (r: AttributeSchema)
    ensures
        r@ == row(name@, views(aliases@), t, is_list, is_visible, is_editable, is_readonly),
{
    AttributeSchema {
        name: copy_str(name),
        aliases,
        attribute_type: t,
        is_list,
        is_visible,
        is_editable,
        is_hardcoded: true,
        is_readonly,
    }
}

impl PublicSchema {
    /// The built-in schema.
    pub fn get() -> (r: PublicSchema)
        ensures
            attr_views(r.0.user_attributes.attributes@) == builtin_user_attributes(),
            attr_views(r.0.group_attributes.attributes@) == builtin_group_attributes(),
            attr_views(r.0.system_attributes.attributes@) == builtin_system_attributes(),
            views(r.0.extra_user_object_classes@) == seq![
                "inetOrgPerson"@,
                "posixAccount"@,
                "ldapPublicKey"@,
            ],
            views(r.0.extra_group_object_classes@) == seq!["posixGroup"@],
    {
        let mut users: Vec<AttributeSchema> = Vec::new();
        users.push(attr("avatar", alias2("jpegphoto", "jpegPhoto"), AttributeType::Avatar, false, true, true, false));
        assert(attr_views(users@) =~= builtin_user_attributes().take(1));
        users.push(attr("creationdate", alias2("creation_date", "createtimestamp"), AttributeType::DateTime, false, true, false, true));
        assert(attr_views(users@) =~= builtin_user_attributes().take(2));
        users.push(attr("displayname", alias2("display_name", "cn"), AttributeType::String, false, true, true, false));
        assert(attr_views(users@) =~= builtin_user_attributes().take(3));
        users.push(attr("firstname", alias3("first_name", "givenname", "givenName"), AttributeType::String, false, true, true, false));
        assert(attr_views(users@) =~= builtin_user_attributes().take(4));
        users.push(attr("lastname", alias2("last_name", "sn"), AttributeType::String, false, true, true, false));
        assert(attr_views(users@) =~= builtin_user_attributes().take(5));
        users.push(attr("mail", alias1("email"), AttributeType::String, false, true, true, false));
        assert(attr_views(users@) =~= builtin_user_attributes().take(6));
        users.push(attr("modifieddate", alias2("modified_date", "modifytimestamp"), AttributeType::DateTime, false, true, false, true));
        assert(attr_views(users@) =~= builtin_user_attributes().take(7));
        users.push(attr("passwordmodifieddate", alias2("password_modified_date", "pwdchangedtime"), AttributeType::DateTime, false, true, false, true));
        assert(attr_views(users@) =~= builtin_user_attributes().take(8));
        users.push(attr("userid", alias3("user_id", "uid", "id"), AttributeType::String, false, true, false, true));
        assert(attr_views(users@) =~= builtin_user_attributes().take(9));
        users.push(attr("uuid", alias1("entryuuid"), AttributeType::String, false, true, false, true));
        assert(attr_views(users@) =~= builtin_user_attributes().take(10));
        users.push(attr("uidnumber", alias2("uid_number", "uidNumber"), AttributeType::Integer, false, true, false, false));
        assert(attr_views(users@) =~= builtin_user_attributes().take(11));
        users.push(attr("gidnumber", alias2("gid_number", "gidNumber"), AttributeType::Integer, false, true, false, false));
        assert(attr_views(users@) =~= builtin_user_attributes().take(12));
        users.push(attr("homedirectory", alias2("home_directory", "homeDirectory"), AttributeType::String, false, true, false, false));
        assert(attr_views(users@) =~= builtin_user_attributes().take(13));
        users.push(attr("loginshell", alias2("login_shell", "loginShell"), AttributeType::String, false, true, false, false));
        assert(attr_views(users@) =~= builtin_user_attributes().take(14));
        users.push(attr("kerberossync", alias2("kerberos_sync", "kerberosSync"), AttributeType::Integer, false, true, false, false));
        assert(attr_views(users@) =~= builtin_user_attributes().take(15));
        users.push(attr("krbprincipalname", alias2("krb_principal_name", "krbPrincipalName"), AttributeType::String, false, false, false, true));
        assert(attr_views(users@) =~= builtin_user_attributes().take(16));
        users.push(attr("sshpublickey", alias2("sshPublicKey", "ssHPublicKey"), AttributeType::String, true, true, true, false));
        assert(attr_views(users@) =~= builtin_user_attributes().take(17));
        users.push(attr("ou", alias2("organizationalunit", "organizationalUnit"), AttributeType::String, false, true, false, true));
        assert(attr_views(users@) =~= builtin_user_attributes().take(18));
        assert(builtin_user_attributes().take(18) =~= builtin_user_attributes());

        let mut groups: Vec<AttributeSchema> = Vec::new();
        groups.push(attr("groupid", alias1("group_id"), AttributeType::Integer, false, true, false, true));
        assert(attr_views(groups@) =~= builtin_group_attributes().take(1));
        groups.push(attr("creationdate", alias2("creation_date", "createtimestamp"), AttributeType::DateTime, false, true, false, true));
        assert(attr_views(groups@) =~= builtin_group_attributes().take(2));
        groups.push(attr("modifieddate", alias2("modified_date", "modifytimestamp"), AttributeType::DateTime, false, true, false, true));
        assert(attr_views(groups@) =~= builtin_group_attributes().take(3));
        groups.push(attr("uuid", alias1("entryuuid"), AttributeType::String, false, true, false, true));
        assert(attr_views(groups@) =~= builtin_group_attributes().take(4));
        groups.push(attr("displayname", alias2("display_name", "cn"), AttributeType::String, false, true, true, false));
        assert(attr_views(groups@) =~= builtin_group_attributes().take(5));
        groups.push(attr("ou", alias2("organizationalunit", "organizationalUnit"), AttributeType::String, false, true, false, true));
        assert(attr_views(groups@) =~= builtin_group_attributes().take(6));
        groups.push(attr("gidnumber", alias2("gid_number", "gidNumber"), AttributeType::Integer, false, true, false, false));
        assert(attr_views(groups@) =~= builtin_group_attributes().take(7));
        assert(builtin_group_attributes().take(7) =~= builtin_group_attributes());

        let mut system: Vec<AttributeSchema> = Vec::new();
        system.push(attr("allowedous", alias2("allowedOUs", "AllowedOUs"), AttributeType::String, true, false, false, true));
        assert(attr_views(system@) =~= builtin_system_attributes());

        let extra_users = alias3("inetOrgPerson", "posixAccount", "ldapPublicKey");
        let extra_groups = alias1("posixGroup");
        PublicSchema(
            Schema {
                user_attributes: AttributeList { attributes: users },
                group_attributes: AttributeList { attributes: groups },
                system_attributes: AttributeList { attributes: system },
                extra_user_object_classes: extra_users,
                extra_group_object_classes: extra_groups,
            },
        )
    }

    pub fn get_schema(&self) -> (r: &Schema)
        ensures
            *r == self.0,
    {
        &self.0
    }

    pub fn user_attributes(&self) -> (r: &AttributeList)
        ensures
            *r == self.0.user_attributes,
    {
        &self.0.user_attributes
    }

    pub fn group_attributes(&self) -> (r: &AttributeList)
        ensures
            *r == self.0.group_attributes,
    {
        &self.0.group_attributes
    }

    pub fn system_attributes(&self) -> (r: &AttributeList)
        ensures
            *r == self.0.system_attributes,
    {
        &self.0.system_attributes
    }
}

} // verus!
