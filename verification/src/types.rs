//! Directory value types: identifiers, avatars, attribute values.
use vstd::prelude::*;
use crate::text::{copy_str, eq_case_insensitive, folded, lower, str_eq, to_ascii_lowercase};
use vstd::std_specs::cmp::PartialEqSpecImpl;
use crate::schema::AttributeType;
use crate::graphql_query::{rfc3339_text, rfc3339_time};

verus! {

/// A user identifier. It is kept in ASCII lowercase, so identifiers that differ
/// only in case are the same identifier.
#[derive(Debug, PartialEq, Eq, PartialOrd, Ord, Hash)]
pub struct UserId {
    id: String,
}

impl Clone for UserId {
    fn clone(&self) -> (r: Self)
        ensures
            r == *self,
    {
        UserId { id: self.id.clone() }
    }
}

impl View for UserId {
    type V = Seq<char>;

    closed spec fn view(&self) -> Seq<char> {
        self.id@
    }
}

impl UserId {
    /// Makes an identifier from any spelling of it.
    pub fn new(s: &str) -> (r: UserId)
        ensures
            r@ == lower(s@),
    {
        UserId { id: to_ascii_lowercase(s) }
    }

    pub fn as_str(&self) -> (r: &str)
        ensures
            r@ == self@,
    {
        self.id.as_str()
    }

    pub fn into_string(self) -> (r: String)
        ensures
            r@ == self@,
    {
        self.id
    }
}

/// An attribute name. It is kept in ASCII lowercase: attribute names do not depend on case.
#[derive(Debug, PartialEq, Eq, PartialOrd, Ord, Hash)]
pub struct AttributeName {
    name: String,
}

impl Clone for AttributeName {
    fn clone(&self) -> (r: Self)
        ensures
            r == *self,
    {
        AttributeName { name: self.name.clone() }
    }
}

impl View for AttributeName {
    type V = Seq<char>;

    closed spec fn view(&self) -> Seq<char> {
        self.name@
    }
}

impl AttributeName {
    pub fn new(s: &str) -> (r: AttributeName)
        ensures
            r@ == lower(s@),
    {
        AttributeName { name: to_ascii_lowercase(s) }
    }

    pub fn as_str(&self) -> (r: &str)
        ensures
            r@ == self@,
    {
        self.name.as_str()
    }

    pub fn into_string(self) -> (r: String)
        ensures
            r@ == self@,
    {
        self.name
    }

    /// Whether two names are the same name.
    pub fn same_as(&self, other: &AttributeName) -> (r: bool)
        ensures
            r == (self@ == other@),
    {
        str_eq(self.name.as_str(), other.name.as_str())
    }
}

/// Whether `names` holds `name`.
pub open spec fn names_contain(names: Seq<AttributeName>, name: Seq<char>) -> bool {
    exists|i: int| 0 <= i < names.len() && #[trigger] names[i]@ == name
}

/// Whether the list holds the name (`[AttributeName]::contains`).
pub fn contains_name(names: &[AttributeName], name: &AttributeName) -> (r: bool)
    ensures
        r == names_contain(names@, name@),
{
    let mut i: usize = 0;
    while i < names.len()
        invariant
            i <= names@.len(),
            forall|j: int| 0 <= j < i ==> names@[j]@ != name@,
        decreases names@.len() - i,
    {
        if names[i].same_as(name) {
            return true;
        }
        i += 1;
    }
    false
}

/// A group name, kept as written; names that differ only in case are equal.
#[derive(Debug, Eq)]
pub struct GroupName {
    name: String,
}

impl Clone for GroupName {
    fn clone(&self) -> (r: Self)
        ensures
            r == *self,
    {
        GroupName { name: self.name.clone() }
    }
}

impl View for GroupName {
    type V = Seq<char>;

    closed spec fn view(&self) -> Seq<char> {
        self.name@
    }
}

impl GroupName {
    pub fn new(s: &str) -> (r: GroupName)
        ensures
            r@ == s@,
    {
        GroupName { name: copy_str(s) }
    }

    pub fn as_str(&self) -> (r: &str)
        ensures
            r@ == self@,
    {
        self.name.as_str()
    }

    pub fn into_string(self) -> (r: String)
        ensures
            r@ == self@,
    {
        self.name
    }
}

/// An e-mail address, kept as written; addresses that differ only in case are equal.
#[derive(Clone, Debug, Eq)]
pub struct Email {
    address: String,
}

impl PartialEq for GroupName {
    fn eq(&self, other: &Self) -> (r: bool) {
        eq_case_insensitive(self.name.as_str(), other.name.as_str())
    }
}

impl PartialEqSpecImpl for GroupName {
    open spec fn obeys_eq_spec() -> bool {
        true
    }

    open spec fn eq_spec(&self, other: &Self) -> bool {
        folded(self@) == folded(other@)
    }
}

impl PartialEq for Email {
    fn eq(&self, other: &Self) -> (r: bool) {
        eq_case_insensitive(self.address.as_str(), other.address.as_str())
    }
}

impl PartialEqSpecImpl for Email {
    open spec fn obeys_eq_spec() -> bool {
        true
    }

    open spec fn eq_spec(&self, other: &Self) -> bool {
        folded(self@) == folded(other@)
    }
}

impl View for Email {
    type V = Seq<char>;

    closed spec fn view(&self) -> Seq<char> {
        self.address@
    }
}

impl Email {
    pub fn new(s: &str) -> (r: Email)
        ensures
            r@ == s@,
    {
        Email { address: copy_str(s) }
    }

    pub fn as_str(&self) -> (r: &str)
        ensures
            r@ == self@,
    {
        self.address.as_str()
    }
}

/// A universally unique identifier in its text form.
#[derive(Debug, PartialEq, Eq, Hash)]
pub struct Uuid(pub String);

impl Clone for Uuid {
    fn clone(&self) -> (r: Self)
        ensures
            r == *self,
    {
        Uuid(self.0.clone())
    }
}

impl Default for Uuid {
    /// The empty identifier.
    fn default() -> (r: Self)
        ensures
            r.0@.len() == 0,
    {
        Uuid(String::new())
    }
}

/// The hyphenated lowercase text of the name-based (MD5, version 3) UUID in the X.500
/// namespace whose name is the UTF-8 of `name` followed by that of `stamp`.
pub uninterp spec fn uuid_v3_x500(name: Seq<char>, stamp: Seq<char>) -> Seq<char>;

/// `uuid::Uuid::new_v3` with `Uuid::NAMESPACE_X500` on the bytes of `name` then those of
/// `stamp`, written out by `to_string`. Claimed: the result is the named text, and it has
/// the 36 characters of the hyphenated form that `Display` writes.
#[verifier::external_body]
fn name_based_uuid(name: &str, stamp: &str) -> (r: String)
    ensures
        r@ == uuid_v3_x500(name@, stamp@),
        r@.len() == 36,
{
    let bytes = [name.as_bytes(), stamp.as_bytes()].concat();
    uuid::Uuid::new_v3(&uuid::Uuid::NAMESPACE_X500, &bytes).to_string()
}

impl Uuid {
    /// The identifier of an entry made from its name and its creation instant (written in
    /// RFC 3339); `None` when the instant cannot be written.
    pub fn from_name_and_date(name: &str, creation_date: &DateTime) -> (r: Option<Uuid>)
        ensures
            match rfc3339_time(creation_date.secs, creation_date.nanos) {
                Some(t) => r matches Some(u) && u.0@ == uuid_v3_x500(name@, t),
                None => r is None,
            },
    {
        match rfc3339_text(creation_date) {
            Some(stamp) => Some(Uuid(name_based_uuid(name, stamp.as_str()))),
            None => None,
        }
    }

    pub fn as_str(&self) -> (r: &str)
        ensures
            r@ == self.0@,
    {
        self.0.as_str()
    }

    pub fn into_string(self) -> (r: String)
        ensures
            r@ == self.0@,
    {
        self.0
    }

    /// The identifier as it is shown: its text.
    pub fn to_string(&self) -> (r: String)
        ensures
            r@ == self.0@,
    {
        self.0.clone()
    }
}

/// Raw bytes of a stored attribute value.
#[derive(Clone, Debug, PartialEq, Eq, Hash)]
pub struct Serialized(pub Vec<u8>);

/// A user picture: the bytes of a JPEG image, or nothing.
#[derive(Clone, Debug, PartialEq, Eq, Hash)]
pub struct Avatar(pub Vec<u8>);

impl Default for Avatar {
    /// The empty picture.
    fn default() -> (r: Self)
        ensures
            r.0@.len() == 0,
    {
        Avatar::null()
    }
}

impl Avatar {
    pub fn is_empty(&self) -> (r: bool)
        ensures
            r == (self.0@.len() == 0),
    {
        self.0.len() == 0
    }

    /// The empty picture.
    pub fn null() -> (r: Avatar)
        ensures
            r.0@.len() == 0,
    {
        Avatar(Vec::new())
    }

    pub fn as_bytes(&self) -> (r: &[u8])
        ensures
            r@ == self.0@,
    {
        self.0.as_slice()
    }

    pub fn into_bytes(self) -> (r: Vec<u8>)
        ensures
            r@ == self.0@,
    {
        self.0
    }
}

/// One value or a list of values.
#[derive(Clone, Debug, PartialEq, Eq, Hash)]
pub enum Cardinality<T> {
    Singleton(T),
    Unbounded(Vec<T>),
}

impl<T> Cardinality<T> {
    pub open spec fn values(self) -> Seq<T> {
        match self {
            Cardinality::Singleton(v) => seq![v],
            Cardinality::Unbounded(l) => l@,
        }
    }

    pub fn into_vec(self) -> (r: Vec<T>)
        ensures
            r@ == self.values(),
    {
        match self {
            Cardinality::Singleton(v) => {
                let mut r = Vec::new();
                r.push(v);
                r
            },
            Cardinality::Unbounded(l) => l,
        }
    }
}

/// A point in time (UTC): whole seconds since the Unix epoch and the nanoseconds past them.
#[derive(Clone, Copy, Debug, PartialEq, Eq, Hash)]
pub struct DateTime {
    pub secs: i64,
    pub nanos: u32,
}

/// A typed attribute value.
#[derive(Clone, Debug, PartialEq, Eq, Hash)]
pub enum AttributeValue {
    String(Cardinality<String>),
    Integer(Cardinality<i64>),
    Avatar(Cardinality<Avatar>),
    DateTime(Cardinality<DateTime>),
}

impl AttributeValue {
    pub fn get_attribute_type(&self) -> (r: AttributeType)
        ensures
            r == (match self {
                AttributeValue::String(_) => AttributeType::String,
                AttributeValue::Integer(_) => AttributeType::Integer,
                AttributeValue::Avatar(_) => AttributeType::Avatar,
                AttributeValue::DateTime(_) => AttributeType::DateTime,
            }),
    {
        match self {
            AttributeValue::String(_) => AttributeType::String,
            AttributeValue::Integer(_) => AttributeType::Integer,
            AttributeValue::Avatar(_) => AttributeType::Avatar,
            AttributeValue::DateTime(_) => AttributeType::DateTime,
        }
    }

    /// The string of a single string value.
    pub fn as_str(&self) -> (r: Option<&str>)
        ensures
            match self {
                AttributeValue::String(Cardinality::Singleton(s)) => r is Some && r->0@ == s@,
                _ => r is None,
            },
    {
        match self {
            AttributeValue::String(Cardinality::Singleton(s)) => Some(s.as_str()),
            _ => None,
        }
    }

    pub fn into_string(self) -> (r: Option<String>)
        ensures
            match self {
                AttributeValue::String(Cardinality::Singleton(s)) => r == Some(s),
                _ => r is None,
            },
    {
        match self {
            AttributeValue::String(Cardinality::Singleton(s)) => Some(s),
            _ => None,
        }
    }

    pub fn as_avatar(&self) -> (r: Option<&Avatar>)
        ensures
            match self {
                AttributeValue::Avatar(Cardinality::Singleton(p)) => r == Some(p),
                _ => r is None,
            },
    {
        match self {
            AttributeValue::Avatar(Cardinality::Singleton(p)) => Some(p),
            _ => None,
        }
    }
}

/// A named attribute value.
#[derive(Clone, Debug, PartialEq, Eq, Hash)]
pub struct Attribute {
    pub name: AttributeName,
    pub value: AttributeValue,
}

/// The numeric identifier of a group.
#[derive(Clone, Copy, Debug, PartialEq, Eq, Hash)]
pub struct GroupId(pub i32);

/// A member of a group and the organizational unit the member lives in.
#[derive(Clone, Debug, PartialEq, Eq)]
pub struct GroupMember {
    pub user_id: UserId,
    pub ou: String,
}

/// The name of an LDAP object class, kept as written; names that differ only in case are equal.
#[derive(Clone, Debug, Eq)]
pub struct LdapObjectClass(pub String);

impl PartialEq for LdapObjectClass {
    fn eq(&self, other: &Self) -> (r: bool) {
        eq_case_insensitive(self.0.as_str(), other.0.as_str())
    }
}

impl PartialEqSpecImpl for LdapObjectClass {
    open spec fn obeys_eq_spec() -> bool {
        true
    }

    open spec fn eq_spec(&self, other: &Self) -> bool {
        folded(self.0@) == folded(other.0@)
    }
}

/// A user as the directory stores it.
#[derive(Clone, Debug, PartialEq, Eq)]
pub struct User {
    pub user_id: UserId,
    pub email: Email,
    pub display_name: Option<String>,
    pub creation_date: DateTime,
    pub uuid: Uuid,
    pub attributes: Vec<Attribute>,
    pub modified_date: DateTime,
    pub password_modified_date: DateTime,
    pub krb_principal_name: Option<String>,
}

impl User {
    /// Records the Kerberos principal name, when there is a non-empty one, as the
    /// `krbprincipalname` attribute (appended to the attributes).
    pub fn materialize_protected_fields(&mut self)
        ensures
            final(self).user_id == old(self).user_id,
            final(self).email == old(self).email,
            final(self).display_name == old(self).display_name,
            final(self).creation_date == old(self).creation_date,
            final(self).uuid == old(self).uuid,
            final(self).modified_date == old(self).modified_date,
            final(self).password_modified_date == old(self).password_modified_date,
            final(self).krb_principal_name == old(self).krb_principal_name,
            match old(self).krb_principal_name {
                Some(p) if p@.len() > 0 => {
                    &&& final(self).attributes@.drop_last() == old(self).attributes@
                    &&& final(self).attributes@.len() == old(self).attributes@.len() + 1
                    &&& final(self).attributes@.last().name@ == lower("krbprincipalname"@)
                    &&& final(self).attributes@.last().value matches AttributeValue::String(
                        Cardinality::Singleton(s),
                    ) && s@ == p@
                },
                _ => final(self).attributes@ == old(self).attributes@,
            },
    {
        let principal = match &self.krb_principal_name {
            Some(p) => {
                proof {
                    reveal_strlit("");
                    if p@.len() == 0 {
                        assert(p@ =~= ""@);
                    }
                }
                if str_eq(p.as_str(), "") {
                    None
                } else {
                    Some(copy_str(p.as_str()))
                }
            },
            None => None,
        };
        match principal {
            Some(p) => {
                let ghost before = self.attributes@;
                self.attributes.push(
                    Attribute {
                        name: AttributeName::new("krbprincipalname"),
                        value: AttributeValue::String(Cardinality::Singleton(p)),
                    },
                );
                assert(self.attributes@.drop_last() =~= before);
            },
            None => {},
        }
    }
}

/// A group as the directory stores it, with its members.
#[derive(Clone, Debug, PartialEq, Eq)]
pub struct Group {
    pub id: GroupId,
    pub display_name: GroupName,
    pub creation_date: DateTime,
    pub uuid: Uuid,
    pub users: Vec<GroupMember>,
    pub attributes: Vec<Attribute>,
    pub modified_date: DateTime,
}

/// A group without its members.
#[derive(Clone, Debug, PartialEq, Eq)]
pub struct GroupDetails {
    pub group_id: GroupId,
    pub display_name: GroupName,
    pub creation_date: DateTime,
    pub uuid: Uuid,
    pub attributes: Vec<Attribute>,
    pub modified_date: DateTime,
}

/// A user and, when they were asked for, the groups it belongs to.
#[derive(Clone, Debug, PartialEq, Eq)]
pub struct UserAndGroups {
    pub user: User,
    pub groups: Option<Vec<GroupDetails>>,
}

} // verus!
