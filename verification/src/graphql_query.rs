//! How the GraphQL API shows stored values: attribute values as texts, and the values of
//! the fields that every user and group has.
use vstd::prelude::*;
use crate::images::{avatar_to_graphql_base64, base64_standard};
use crate::schema::{attr_views, first_answering, AttrView, AttributeList, AttributeSchema, PublicSchema};
use crate::text::{copy_str, copy_strings, int_string, int_text, lower, str_eq, views};
use crate::types::{
    Attribute, AttributeName, Avatar, AttributeValue as DomainAttributeValue, Cardinality, DateTime, Group, GroupDetails,
    GroupId, User,
};

verus! {

/// How chrono writes an instant as RFC 3339 text with a `+00:00` offset, or `None` when
/// chrono cannot represent the instant.
pub uninterp spec fn rfc3339_time(secs: i64, nanos: u32) -> Option<Seq<char>>;

/// The instant as RFC 3339 text (`chrono::DateTime::from_timestamp`, then `to_rfc3339`);
/// `None` when `from_timestamp` cannot represent it.
#[verifier::external_body]
pub(crate) fn rfc3339_text(dt: &DateTime) -> (r: Option<String>)
    ensures
        match r {
            Some(s) => rfc3339_time(dt.secs, dt.nanos) == Some(s@),
            None => rfc3339_time(dt.secs, dt.nanos) is None,
        },
{
    match chrono::DateTime::from_timestamp(dt.secs, dt.nanos) {
        Some(d) => Some(d.to_rfc3339()),
        None => None,
    }
}

/// The RFC 3339 texts of the instants that chrono can represent, in order.
pub open spec fn known_rfc3339(ds: Seq<DateTime>) -> Seq<Seq<char>>
    decreases ds.len(),
{
    if ds.len() == 0 {
        Seq::empty()
    } else {
        let r = known_rfc3339(ds.drop_last());
        match rfc3339_time(ds.last().secs, ds.last().nanos) {
            Some(t) => r.push(t),
            None => r,
        }
    }
}

/// The text of a picture: empty for none, else its bytes in base64.
pub open spec fn avatar_text(a: Avatar) -> Seq<char> {
    if a.0@.len() == 0 {
        Seq::<char>::empty()
    } else {
        base64_standard(a.0@)
    }
}

/// The texts that the GraphQL API shows for a value: texts as they are, integers in
/// decimal, instants in RFC 3339, pictures in base64.
pub open spec fn graphql_texts(v: DomainAttributeValue) -> Seq<Seq<char>> {
    match v {
        DomainAttributeValue::String(c) => views(c.values()),
        DomainAttributeValue::Integer(c) => c.values().map_values(|i: i64| int_text(i as int)),
        DomainAttributeValue::DateTime(c) => known_rfc3339(c.values()),
        DomainAttributeValue::Avatar(c) => c.values().map_values(|a: Avatar| avatar_text(a)),
    }
}

fn texts_of_strings(l: &Vec<String>) -> (r: Vec<String>)
    ensures
        views(r@) == views(l@),
{
    let mut r: Vec<String> = Vec::new();
    let mut i: usize = 0;
    while i < l.len()
        invariant
            i <= l@.len(),
            views(r@) == views(l@.take(i as int)),
        decreases l@.len() - i,
    {
        let ghost before = views(r@);
        let t = copy_str(l[i].as_str());
        r.push(t);
        assert(views(r@) =~= before.push(l@[i as int]@));
        assert(l@.take(i + 1) =~= l@.take(i as int).push(l@[i as int]));
        assert(views(r@) =~= views(l@.take(i + 1)));
        i += 1;
    }
    assert(l@.take(l@.len() as int) =~= l@);
    r
}

fn texts_of_integers(l: &Vec<i64>) -> (r: Vec<String>)
    ensures
        views(r@) == l@.map_values(|i: i64| int_text(i as int)),
{
    let mut r: Vec<String> = Vec::new();
    let mut k: usize = 0;
    while k < l.len()
        invariant
            k <= l@.len(),
            views(r@) == l@.take(k as int).map_values(|i: i64| int_text(i as int)),
        decreases l@.len() - k,
    {
        let ghost before = views(r@);
        let t = int_string(l[k]);
        r.push(t);
        assert(views(r@) =~= before.push(int_text(l@[k as int] as int)));
        assert(l@.take(k + 1) =~= l@.take(k as int).push(l@[k as int]));
        assert(views(r@) =~= l@.take(k + 1).map_values(|i: i64| int_text(i as int)));
        k += 1;
    }
    assert(l@.take(l@.len() as int) =~= l@);
    r
}

fn texts_of_dates(l: &Vec<DateTime>) -> (r: Vec<String>)
    ensures
        views(r@) == known_rfc3339(l@),
{
    let mut r: Vec<String> = Vec::new();
    let mut k: usize = 0;
    while k < l.len()
        invariant
            k <= l@.len(),
            views(r@) == known_rfc3339(l@.take(k as int)),
        decreases l@.len() - k,
    {
        assert(l@.take(k + 1).drop_last() =~= l@.take(k as int));
        match rfc3339_text(&l[k]) {
            Some(t) => {
                r.push(t);
                assert(views(r@) =~= known_rfc3339(l@.take(k + 1)));
            },
            None => {},
        }
        k += 1;
    }
    assert(l@.take(l@.len() as int) =~= l@);
    r
}

fn texts_of_avatars(l: &Vec<Avatar>) -> (r: Vec<String>)
    ensures
        views(r@) == l@.map_values(|a: Avatar| avatar_text(a)),
{
    let mut r: Vec<String> = Vec::new();
    let mut k: usize = 0;
    while k < l.len()
        invariant
            k <= l@.len(),
            views(r@) == l@.take(k as int).map_values(|a: Avatar| avatar_text(a)),
        decreases l@.len() - k,
    {
        let ghost before = views(r@);
        let t = avatar_to_graphql_base64(l[k].0.as_slice());
        r.push(t);
        assert(views(r@) =~= before.push(avatar_text(l@[k as int])));
        assert(l@.take(k + 1) =~= l@.take(k as int).push(l@[k as int]));
        assert(views(r@) =~= l@.take(k + 1).map_values(|a: Avatar| avatar_text(a)));
        k += 1;
    }
    assert(l@.take(l@.len() as int) =~= l@);
    r
}

/// The texts that the GraphQL API shows for an attribute value (see `graphql_texts`).
pub fn serialize_attribute_to_graphql(attribute_value: &DomainAttributeValue) -> (r: Vec<String>)
    ensures
        views(r@) == graphql_texts(*attribute_value),
{
    match attribute_value {
        DomainAttributeValue::String(Cardinality::Singleton(s)) => {
            let r = vec![copy_str(s.as_str())];
            assert(views(r@) =~= graphql_texts(*attribute_value));
            r
        },
        DomainAttributeValue::String(Cardinality::Unbounded(l)) => texts_of_strings(l),
        DomainAttributeValue::Integer(Cardinality::Singleton(i)) => {
            let r = vec![int_string(*i)];
            assert(views(r@) =~= graphql_texts(*attribute_value));
            r
        },
        DomainAttributeValue::Integer(Cardinality::Unbounded(l)) => texts_of_integers(l),
        DomainAttributeValue::DateTime(Cardinality::Singleton(d)) => {
            let mut r: Vec<String> = Vec::new();
            match rfc3339_text(d) {
                Some(t) => r.push(t),
                None => {},
            }
            let ghost vals = seq![*d];
            assert(vals.drop_last() =~= Seq::<DateTime>::empty());
            assert(known_rfc3339(vals.drop_last()) == Seq::<Seq<char>>::empty());
            assert(vals.last() == *d);
            assert(views(r@) =~= known_rfc3339(vals));
            assert(views(r@) =~= graphql_texts(*attribute_value));
            r
        },
        DomainAttributeValue::DateTime(Cardinality::Unbounded(l)) => texts_of_dates(l),
        DomainAttributeValue::Avatar(Cardinality::Singleton(p)) => {
            let t = avatar_to_graphql_base64(p.0.as_slice());
            assert(t@ == avatar_text(*p));
            let r = vec![t];
            assert(views(r@) =~= graphql_texts(*attribute_value));
            r
        },
        DomainAttributeValue::Avatar(Cardinality::Unbounded(l)) => texts_of_avatars(l),
    }
}

/// `v` is the single text `t`.
pub open spec fn single_text(v: Option<DomainAttributeValue>, t: Seq<char>) -> bool {
    v matches Some(DomainAttributeValue::String(Cardinality::Singleton(s))) && s@ == t
}

/// `v` is the single instant `d`.
pub open spec fn single_date(v: Option<DomainAttributeValue>, d: DateTime) -> bool {
    v matches Some(DomainAttributeValue::DateTime(Cardinality::Singleton(x))) && x == d
}

/// `v` is the single integer `i`.
pub open spec fn single_integer(v: Option<DomainAttributeValue>, i: int) -> bool {
    v matches Some(DomainAttributeValue::Integer(Cardinality::Singleton(x))) && x == i
}

/// The value of a field that every user has, by the field's schema name.
pub open spec fn user_field_value_ok(u: User, name: Seq<char>, r: Option<DomainAttributeValue>) -> bool {
    if name == "userid"@ || name == "user_id"@ || name == "uid"@ {
        single_text(r, u.user_id@)
    } else if name == "creationdate"@ || name == "creation_date"@ {
        single_date(r, u.creation_date)
    } else if name == "modifieddate"@ || name == "modified_date"@ {
        single_date(r, u.modified_date)
    } else if name == "passwordmodifieddate"@ || name == "password_modified_date"@ {
        single_date(r, u.password_modified_date)
    } else if name == "mail"@ {
        single_text(r, u.email@)
    } else if name == "uuid"@ {
        single_text(r, u.uuid.0@)
    } else if name == "displayname"@ || name == "display_name"@ || name == "cn"@ {
        match u.display_name {
            Some(d) => single_text(r, d@),
            None => r is None,
        }
    } else {
        r is None
    }
}

/// The value of a field that every group has, by the field's schema name.
pub open spec fn group_field_value_ok(
    id: GroupId,
    display_name: Seq<char>,
    creation_date: DateTime,
    modified_date: DateTime,
    uuid: Seq<char>,
    name: Seq<char>,
    r: Option<DomainAttributeValue>,
) -> bool {
    if name == "groupid"@ {
        single_integer(r, id.0 as int)
    } else if name == "creationdate"@ || name == "creation_date"@ {
        single_date(r, creation_date)
    } else if name == "modifieddate"@ || name == "modified_date"@ {
        single_date(r, modified_date)
    } else if name == "uuid"@ {
        single_text(r, uuid)
    } else if name == "displayname"@ || name == "display_name"@ || name == "cn"@ {
        single_text(r, display_name)
    } else {
        r is None
    }
}

fn text_value(s: &str) -> (r: Option<DomainAttributeValue>)
    ensures
        single_text(r, s@),
{
    Some(DomainAttributeValue::String(Cardinality::Singleton(copy_str(s))))
}

fn date_value(d: DateTime) -> (r: Option<DomainAttributeValue>)
    ensures
        single_date(r, d),
{
    Some(DomainAttributeValue::DateTime(Cardinality::Singleton(d)))
}

/// The value of the built-in user field `name`, if it is one and the user has it.
pub fn get_hardcoded_user_value(user: &User, name: &str) -> (r: Option<DomainAttributeValue>)
    ensures
        user_field_value_ok(*user, name@, r),
{
    if str_eq(name, "userid") || str_eq(name, "user_id") || str_eq(name, "uid") {
        text_value(user.user_id.as_str())
    } else if str_eq(name, "creationdate") || str_eq(name, "creation_date") {
        date_value(user.creation_date)
    } else if str_eq(name, "modifieddate") || str_eq(name, "modified_date") {
        date_value(user.modified_date)
    } else if str_eq(name, "passwordmodifieddate") || str_eq(name, "password_modified_date") {
        date_value(user.password_modified_date)
    } else if str_eq(name, "mail") {
        text_value(user.email.as_str())
    } else if str_eq(name, "uuid") {
        text_value(user.uuid.as_str())
    } else if str_eq(name, "displayname") || str_eq(name, "display_name") || str_eq(name, "cn") {
        match &user.display_name {
            Some(d) => text_value(d.as_str()),
            None => None,
        }
    } else {
        None
    }
}

fn group_value(
    id: GroupId,
    display_name: &str,
    creation_date: DateTime,
    modified_date: DateTime,
    uuid: &str,
    name: &str,
) -> (r: Option<DomainAttributeValue>)
    ensures
        group_field_value_ok(id, display_name@, creation_date, modified_date, uuid@, name@, r),
{
    if str_eq(name, "groupid") {
        let i: i64 = id.0 as i64;
        Some(DomainAttributeValue::Integer(Cardinality::Singleton(i)))
    } else if str_eq(name, "creationdate") || str_eq(name, "creation_date") {
        date_value(creation_date)
    } else if str_eq(name, "modifieddate") || str_eq(name, "modified_date") {
        date_value(modified_date)
    } else if str_eq(name, "uuid") {
        text_value(uuid)
    } else if str_eq(name, "displayname") || str_eq(name, "display_name") || str_eq(name, "cn") {
        text_value(display_name)
    } else {
        None
    }
}

/// The value of the built-in group field `name`, if it is one.
pub fn get_hardcoded_group_value(group: &Group, name: &str) -> (r: Option<DomainAttributeValue>)
    ensures
        group_field_value_ok(
            group.id,
            group.display_name@,
            group.creation_date,
            group.modified_date,
            group.uuid.0@,
            name@,
            r,
        ),
{
    group_value(
        group.id,
        group.display_name.as_str(),
        group.creation_date,
        group.modified_date,
        group.uuid.as_str(),
        name,
    )
}

/// The value of the built-in group field `name` of a group without its members, if it is one.
pub fn get_hardcoded_group_details_value(group: &GroupDetails, name: &str) -> (r: Option<
    DomainAttributeValue,
>)
    ensures
        group_field_value_ok(
            group.group_id,
            group.display_name@,
            group.creation_date,
            group.modified_date,
            group.uuid.0@,
            name@,
            r,
        ),
{
    group_value(
        group.group_id,
        group.display_name.as_str(),
        group.creation_date,
        group.modified_date,
        group.uuid.as_str(),
        name,
    )
}

/// An attribute as the GraphQL API shows it, with the description of its kind.
pub struct AttributeValue {
    pub attribute: Attribute,
    pub schema: AttributeSchema,
}

impl AttributeValue {
    /// The attribute's name.
    pub fn name(&self) -> (r: &str)
        ensures
            r@ == self.attribute.name@,
    {
        self.attribute.name.as_str()
    }

    /// The attribute's values as texts.
    pub fn value(&self) -> (r: Vec<String>)
        ensures
            views(r@) == graphql_texts(self.attribute.value),
    {
        serialize_attribute_to_graphql(&self.attribute.value)
    }

    /// The description of the attribute's kind.
    pub fn schema(&self) -> (r: &AttributeSchema)
        ensures
            *r == self.schema,
    {
        &self.schema
    }
}

/// A copy of an attribute description.
fn copy_schema(s: &AttributeSchema) -> (r: AttributeSchema)
    ensures
        r@ == s@,
{
    AttributeSchema {
        name: copy_str(s.name.as_str()),
        aliases: copy_strings(&s.aliases),
        attribute_type: s.attribute_type,
        is_list: s.is_list,
        is_visible: s.is_visible,
        is_editable: s.is_editable,
        is_hardcoded: s.is_hardcoded,
        is_readonly: s.is_readonly,
    }
}

/// The stored attributes that the schema describes, each with the index of its
/// description (found by name or alias).
pub open spec fn described(attrs: Seq<Attribute>, sa: Seq<AttrView>) -> Seq<(Attribute, int)>
    decreases attrs.len(),
{
    if attrs.len() == 0 {
        Seq::empty()
    } else {
        let r = described(attrs.drop_last(), sa);
        match first_answering(sa, attrs.last().name@) {
            Some(i) => r.push((attrs.last(), i)),
            None => r,
        }
    }
}

/// Whether `r` shows the stored attributes that the schema describes, with their descriptions.
pub open spec fn shows_described(r: Seq<AttributeValue>, attrs: Seq<Attribute>, list: Seq<AttributeSchema>) -> bool {
    let d = described(attrs, attr_views(list));
    &&& r.len() == d.len()
    &&& forall|j: int|
        0 <= j < r.len() ==> (#[trigger] r[j]).attribute == d[j].0 && 0 <= d[j].1 < list.len() && r[j].schema@
            == list[d[j].1]@
}

/// The stored attributes that the schema describes, with their descriptions.
fn described_attributes(stored: Vec<Attribute>, list: &AttributeList) -> (r: Vec<AttributeValue>)
    ensures
        shows_described(r@, stored@, list.attributes@),
{
    let ghost attrs = stored@;
    let ghost sa = attr_views(list.attributes@);
    let mut rest = stored;
    let total = rest.len();
    let mut r: Vec<AttributeValue> = Vec::new();
    let mut i: usize = 0;
    while rest.len() > 0
        invariant
            attrs.len() == total,
            i <= attrs.len(),
            rest@ == attrs.skip(i as int),
            sa == attr_views(list.attributes@),
            shows_described(r@, attrs.take(i as int), list.attributes@),
        decreases rest@.len(),
    {
        assert(attrs.skip(i as int).len() == attrs.len() - i);
        let a = rest.remove(0);
        assert(attrs.take(i + 1).drop_last() =~= attrs.take(i as int));
        assert(a == attrs[i as int]);
        assert(attrs.take(i + 1).last() == a);
        proof {
            crate::schema::lemma_first_answering(sa, a.name@);
        }
        let found = list.get_by_name_or_alias(a.name.as_str());
        match found {
            Some(s) => {
                let ghost k = first_answering(sa, a.name@)->0;
                assert(sa[k] == list.attributes@[k]@);
                let ghost before = r@;
                r.push(AttributeValue { attribute: a, schema: copy_schema(s) });
                proof {
                    let d = described(attrs.take(i + 1), sa);
                    assert(d == described(attrs.take(i as int), sa).push((attrs[i as int], k)));
                    assert forall|j: int| 0 <= j < r@.len() implies (#[trigger] r@[j]).attribute == d[j].0 && 0 <= d[j].1
                        < list.attributes@.len() && r@[j].schema@ == list.attributes@[d[j].1]@ by {
                        if j < before.len() {
                            assert(r@[j] == before[j]);
                        }
                    }
                }
            },
            None => {},
        }
        i += 1;
        assert(rest@ =~= attrs.skip(i as int));
    }
    assert(attrs.take(i as int) =~= attrs);
    r
}

/// The built-in user fields that the schema lists and the user has, in schema order.
pub open spec fn shown_user_fields(u: User, list: Seq<AttributeSchema>) -> Seq<AttributeSchema>
    decreases list.len(),
{
    if list.len() == 0 {
        Seq::empty()
    } else {
        let r = shown_user_fields(u, list.drop_last());
        let s = list.last();
        if s.is_hardcoded && !user_field_value_ok(u, s.name@, None) {
            r.push(s)
        } else {
            r
        }
    }
}

/// The built-in group fields that the schema lists, in schema order.
pub open spec fn shown_group_fields(
    id: GroupId,
    display_name: Seq<char>,
    creation_date: DateTime,
    modified_date: DateTime,
    uuid: Seq<char>,
    list: Seq<AttributeSchema>,
) -> Seq<AttributeSchema>
    decreases list.len(),
{
    if list.len() == 0 {
        Seq::empty()
    } else {
        let r = shown_group_fields(id, display_name, creation_date, modified_date, uuid, list.drop_last());
        let s = list.last();
        if s.is_hardcoded && !group_field_value_ok(id, display_name, creation_date, modified_date, uuid, s.name@, None) {
            r.push(s)
        } else {
            r
        }
    }
}

/// Whether the first entries of `r` show the user's built-in fields of `list`.
pub open spec fn shows_user_fields(r: Seq<AttributeValue>, u: User, list: Seq<AttributeSchema>) -> bool {
    let f = shown_user_fields(u, list);
    &&& r.len() == f.len()
    &&& forall|i: int|
        0 <= i < r.len() ==> (#[trigger] r[i]).schema@ == f[i]@ && r[i].attribute.name@ == lower(f[i].name@)
            && user_field_value_ok(u, f[i].name@, Some(r[i].attribute.value))
}

/// Whether the first entries of `r` show the group's built-in fields of `list`.
pub open spec fn shows_group_fields(
    r: Seq<AttributeValue>,
    id: GroupId,
    display_name: Seq<char>,
    creation_date: DateTime,
    modified_date: DateTime,
    uuid: Seq<char>,
    list: Seq<AttributeSchema>,
) -> bool {
    let f = shown_group_fields(id, display_name, creation_date, modified_date, uuid, list);
    &&& r.len() == f.len()
    &&& forall|i: int|
        0 <= i < r.len() ==> (#[trigger] r[i]).schema@ == f[i]@ && r[i].attribute.name@ == lower(f[i].name@)
            && group_field_value_ok(id, display_name, creation_date, modified_date, uuid, f[i].name@, Some(r[i].attribute.value))
}

fn user_fields(user: &User, list: &AttributeList) -> (r: Vec<AttributeValue>)
    ensures
        shows_user_fields(r@, *user, list.attributes@),
{
    let ghost l = list.attributes@;
    let mut r: Vec<AttributeValue> = Vec::new();
    let mut i: usize = 0;
    while i < list.attributes.len()
        invariant
            i <= l.len(),
            l == list.attributes@,
            shows_user_fields(r@, *user, l.take(i as int)),
        decreases l.len() - i,
    {
        let s = &list.attributes[i];
        assert(l.take(i + 1).drop_last() =~= l.take(i as int));
        assert(l.take(i + 1).last() == *s);
        if s.is_hardcoded {
            match get_hardcoded_user_value(user, s.name.as_str()) {
                Some(v) => {
                    let ghost before = r@;
                    r.push(AttributeValue { attribute: Attribute { name: AttributeName::new(s.name.as_str()), value: v }, schema: copy_schema(s) });
                    assert forall|j: int| 0 <= j < r@.len() implies (#[trigger] r@[j]).schema@ == shown_user_fields(*user, l.take(i + 1))[j]@
                        && r@[j].attribute.name@ == lower(shown_user_fields(*user, l.take(i + 1))[j].name@)
                        && user_field_value_ok(*user, shown_user_fields(*user, l.take(i + 1))[j].name@, Some(r@[j].attribute.value)) by {
                        if j < before.len() {
                            assert(r@[j] == before[j]);
                        }
                    }
                },
                None => {},
            }
        }
        i += 1;
    }
    assert(l.take(l.len() as int) =~= l);
    r
}

fn group_fields(
    id: GroupId,
    display_name: &str,
    creation_date: DateTime,
    modified_date: DateTime,
    uuid: &str,
    list: &AttributeList,
) -> (r: Vec<AttributeValue>)
    ensures
        shows_group_fields(r@, id, display_name@, creation_date, modified_date, uuid@, list.attributes@),
{
    let ghost l = list.attributes@;
    let mut r: Vec<AttributeValue> = Vec::new();
    let mut i: usize = 0;
    while i < list.attributes.len()
        invariant
            i <= l.len(),
            l == list.attributes@,
            shows_group_fields(r@, id, display_name@, creation_date, modified_date, uuid@, l.take(i as int)),
        decreases l.len() - i,
    {
        let s = &list.attributes[i];
        assert(l.take(i + 1).drop_last() =~= l.take(i as int));
        assert(l.take(i + 1).last() == *s);
        if s.is_hardcoded {
            match group_value(id, display_name, creation_date, modified_date, uuid, s.name.as_str()) {
                Some(v) => {
                    let ghost before = r@;
                    let ghost f = shown_group_fields(id, display_name@, creation_date, modified_date, uuid@, l.take(i + 1));
                    r.push(AttributeValue { attribute: Attribute { name: AttributeName::new(s.name.as_str()), value: v }, schema: copy_schema(s) });
                    assert forall|j: int| 0 <= j < r@.len() implies (#[trigger] r@[j]).schema@ == f[j]@
                        && r@[j].attribute.name@ == lower(f[j].name@)
                        && group_field_value_ok(id, display_name@, creation_date, modified_date, uuid@, f[j].name@, Some(r@[j].attribute.value)) by {
                        if j < before.len() {
                            assert(r@[j] == before[j]);
                        }
                    }
                },
                None => {},
            }
        }
        i += 1;
    }
    assert(l.take(l.len() as int) =~= l);
    r
}

/// The attributes that the GraphQL API shows for a user: the built-in fields that the
/// schema's user attributes list (in schema order), then the user's stored attributes
/// that the schema describes. The stored attributes are moved out of the user.
pub fn user_attributes_from_schema(user: &mut User, schema: &PublicSchema) -> (r: Vec<AttributeValue>)
    ensures
        final(user).user_id == old(user).user_id,
        final(user).email == old(user).email,
        final(user).display_name == old(user).display_name,
        final(user).creation_date == old(user).creation_date,
        final(user).uuid == old(user).uuid,
        final(user).modified_date == old(user).modified_date,
        final(user).password_modified_date == old(user).password_modified_date,
        final(user).krb_principal_name == old(user).krb_principal_name,
        final(user).attributes@.len() == 0,
        ({
            let n = shown_user_fields(*old(user), schema.0.user_attributes.attributes@).len() as int;
            &&& r@.len() >= n
            &&& shows_user_fields(r@.take(n), *old(user), schema.0.user_attributes.attributes@)
            &&& shows_described(r@.skip(n), old(user).attributes@, schema.0.user_attributes.attributes@)
        }),
{
    let list = schema.user_attributes();
    let mut all = user_fields(user, list);
    let ghost head = all@;
    let mut stored: Vec<Attribute> = Vec::new();
    std::mem::swap(&mut stored, &mut user.attributes);
    let mut rest = described_attributes(stored, list);
    let ghost tail = rest@;
    all.append(&mut rest);
    assert(all@.take(head.len() as int) =~= head);
    assert(all@.skip(head.len() as int) =~= tail);
    all
}

/// The attributes that the GraphQL API shows for a group: the built-in fields that the
/// schema's group attributes list (in schema order), then the group's stored
/// attributes that the schema describes. The stored attributes are moved out of the group.
pub fn group_attributes_from_schema(group: &mut Group, schema: &PublicSchema) -> (r: Vec<AttributeValue>)
    ensures
        final(group).id == old(group).id,
        final(group).display_name == old(group).display_name,
        final(group).creation_date == old(group).creation_date,
        final(group).uuid == old(group).uuid,
        final(group).users == old(group).users,
        final(group).modified_date == old(group).modified_date,
        final(group).attributes@.len() == 0,
        ({
            let n = shown_group_fields(
                old(group).id,
                old(group).display_name@,
                old(group).creation_date,
                old(group).modified_date,
                old(group).uuid.0@,
                schema.0.group_attributes.attributes@,
            ).len() as int;
            &&& r@.len() >= n
            &&& shows_group_fields(
                r@.take(n),
                old(group).id,
                old(group).display_name@,
                old(group).creation_date,
                old(group).modified_date,
                old(group).uuid.0@,
                schema.0.group_attributes.attributes@,
            )
            &&& shows_described(r@.skip(n), old(group).attributes@, schema.0.group_attributes.attributes@)
        }),
{
    let list = schema.group_attributes();
    let mut all = group_fields(
        group.id,
        group.display_name.as_str(),
        group.creation_date,
        group.modified_date,
        group.uuid.as_str(),
        list,
    );
    let ghost head = all@;
    let mut stored: Vec<Attribute> = Vec::new();
    std::mem::swap(&mut stored, &mut group.attributes);
    let mut rest = described_attributes(stored, list);
    let ghost tail = rest@;
    all.append(&mut rest);
    assert(all@.take(head.len() as int) =~= head);
    assert(all@.skip(head.len() as int) =~= tail);
    all
}

/// Like `group_attributes_from_schema`, for a group without its members.
pub fn group_details_attributes_from_schema(group: &mut GroupDetails, schema: &PublicSchema) -> (r: Vec<
    AttributeValue,
>)
    ensures
        final(group).group_id == old(group).group_id,
        final(group).display_name == old(group).display_name,
        final(group).creation_date == old(group).creation_date,
        final(group).uuid == old(group).uuid,
        final(group).modified_date == old(group).modified_date,
        final(group).attributes@.len() == 0,
        ({
            let n = shown_group_fields(
                old(group).group_id,
                old(group).display_name@,
                old(group).creation_date,
                old(group).modified_date,
                old(group).uuid.0@,
                schema.0.group_attributes.attributes@,
            ).len() as int;
            &&& r@.len() >= n
            &&& shows_group_fields(
                r@.take(n),
                old(group).group_id,
                old(group).display_name@,
                old(group).creation_date,
                old(group).modified_date,
                old(group).uuid.0@,
                schema.0.group_attributes.attributes@,
            )
            &&& shows_described(r@.skip(n), old(group).attributes@, schema.0.group_attributes.attributes@)
        }),
{
    let list = schema.group_attributes();
    let mut all = group_fields(
        group.group_id,
        group.display_name.as_str(),
        group.creation_date,
        group.modified_date,
        group.uuid.as_str(),
        list,
    );
    let ghost head = all@;
    let mut stored: Vec<Attribute> = Vec::new();
    std::mem::swap(&mut stored, &mut group.attributes);
    let mut rest = described_attributes(stored, list);
    let ghost tail = rest@;
    all.append(&mut rest);
    assert(all@.take(head.len() as int) =~= head);
    assert(all@.skip(head.len() as int) =~= tail);
    all
}

} // verus!
