//! The attributes of the LDAP entries of users and groups: how each requested
//! attribute is read off a user or a group, and the entries built from them.
use vstd::prelude::*;
use vstd::utf8::encode_utf8;
use crate::dn::{build_group_dn, build_user_dn, entry_dn_text, DEFAULT_PRIMARY_GROUP_OU, DEFAULT_PRIMARY_USER_OU};
use crate::ordered::{insert_text, sorted_set, strictly_sorted};
use crate::proto::{
    attrs_view, byte_views, encoded, text_attr, texts_bytes, utf8_bytes, LdapOp, LdapPartialAttribute,
    LdapSearchResultEntry,
};
use crate::schema::{answers_to, attr_views, builtin_group_attributes, builtin_user_attributes, AttrView, PublicSchema};
use crate::schema_manager::{
    asks_all, asks_operational, expanded_keys, get_schema_manager, group_field_of, keys_map, keys_unique,
    lemma_schema_map_no_lowercase_email, no_lowercase_email, schema_attr_map, user_field_of, AttrMap,
    ExpandedAttributes, FieldKind, GroupFieldType, LogicalAttrView, UserColumn, UserFieldType,
};
use crate::utils::LdapInfo;
use crate::text::{char_string, concat, copy_str, eq_ic, eq_ignore_ascii_case, int_string, int_text, str_eq, views};
use crate::types::{
    contains_name, names_contain, Attribute, AttributeName, AttributeValue, Avatar, Cardinality, DateTime, Group,
    GroupDetails, GroupMember, LdapObjectClass, User, UserAndGroups, UserId,
};

verus! {

/// How chrono writes an instant in LDAP generalized time (`%Y%m%d%H%M%S.%fZ`), or
/// `None` when chrono cannot represent the instant.
pub uninterp spec fn generalized_time(secs: i64, nanos: u32) -> Option<Seq<char>>;

/// The instant in generalized time (`chrono::DateTime::from_timestamp`, then
/// `format("%Y%m%d%H%M%S.%fZ")`); `None` when `from_timestamp` cannot represent it.
#[verifier::external_body]
fn generalized_time_text(dt: &DateTime) -> (r: Option<String>)
    ensures
        match r {
            Some(s) => generalized_time(dt.secs, dt.nanos) == Some(s@),
            None => generalized_time(dt.secs, dt.nanos) is None,
        },
{
    match chrono::DateTime::from_timestamp(dt.secs, dt.nanos) {
        Some(d) => Some(d.format("%Y%m%d%H%M%S.%fZ").to_string()),
        None => None,
    }
}

/// The bytes of an instant in generalized time.
pub open spec fn date_bytes(d: DateTime) -> Option<Seq<u8>> {
    match generalized_time(d.secs, d.nanos) {
        Some(t) => Some(encode_utf8(t)),
        None => None,
    }
}

/// An instant in LDAP generalized time, as bytes (e.g. `20260101120000.000000000Z`);
/// `None` for an instant that chrono cannot represent.
pub fn to_generalized_time(dt: &DateTime) -> (r: Option<Vec<u8>>)
    ensures
        match r {
            Some(b) => date_bytes(*dt) == Some(b@),
            None => date_bytes(*dt) is None,
        },
{
    match generalized_time_text(dt) {
        Some(t) => Some(utf8_bytes(t.as_str())),
        None => None,
    }
}

/// The generalized times of the instants that chrono can represent.
pub open spec fn known_dates(ds: Seq<DateTime>) -> Seq<Seq<u8>>
    decreases ds.len(),
{
    if ds.len() == 0 {
        Seq::empty()
    } else {
        let r = known_dates(ds.drop_last());
        match date_bytes(ds.last()) {
            Some(b) => r.push(b),
            None => r,
        }
    }
}

/// The bytes LDAP shows for an attribute value: texts as UTF-8, integers in
/// decimal, pictures as they are, instants in generalized time.
pub open spec fn value_bytes(v: AttributeValue) -> Seq<Seq<u8>> {
    match v {
        AttributeValue::String(c) => encoded(views(c.values())),
        AttributeValue::Integer(c) => c.values().map_values(|i: i64| encode_utf8(int_text(i as int))),
        AttributeValue::Avatar(c) => c.values().map_values(|a: Avatar| a.0@),
        AttributeValue::DateTime(c) => known_dates(c.values()),
    }
}

/// The index of the first element that satisfies `p`.
pub open spec fn first_index<T>(s: Seq<T>, p: spec_fn(T) -> bool) -> Option<int>
    decreases s.len(),
{
    if s.len() == 0 {
        None
    } else {
        match first_index(s.drop_last(), p) {
            Some(i) => Some(i),
            None => if p(s.last()) {
                Some(s.len() - 1)
            } else {
                None
            },
        }
    }
}

pub proof fn lemma_first_index_none<T>(s: Seq<T>, p: spec_fn(T) -> bool)
    requires
        forall|j: int| 0 <= j < s.len() ==> !p(#[trigger] s[j]),
    ensures
        first_index(s, p) is None,
    decreases s.len(),
{
    if s.len() > 0 {
        assert forall|j: int| 0 <= j < s.len() - 1 implies !p(#[trigger] s.drop_last()[j]) by {
            assert(s.drop_last()[j] == s[j]);
        }
        lemma_first_index_none(s.drop_last(), p);
    }
}

pub proof fn lemma_first_index_at<T>(s: Seq<T>, p: spec_fn(T) -> bool, k: int)
    requires
        0 <= k < s.len(),
        p(s[k]),
        forall|j: int| 0 <= j < k ==> !p(#[trigger] s[j]),
    ensures
        first_index(s, p) == Some(k),
    decreases s.len(),
{
    if k == s.len() - 1 {
        assert forall|j: int| 0 <= j < s.len() - 1 implies !p(#[trigger] s.drop_last()[j]) by {
            assert(s.drop_last()[j] == s[j]);
        }
        lemma_first_index_none(s.drop_last(), p);
    } else {
        assert(s.drop_last()[k] == s[k]);
        assert forall|j: int| 0 <= j < k implies !p(#[trigger] s.drop_last()[j]) by {
            assert(s.drop_last()[j] == s[j]);
        }
        lemma_first_index_at(s.drop_last(), p, k);
    }
}

/// Whether an attribute has the name `name`.
pub open spec fn has_name(name: Seq<char>) -> spec_fn(Attribute) -> bool {
    |a: Attribute| a.name@ == name
}

/// Whether an attribute is named `ou` (any case).
pub open spec fn ou_named() -> spec_fn(Attribute) -> bool {
    |a: Attribute| eq_ic(a.name@, "ou"@)
}

/// The values of the first attribute named `name`, if there is one.
pub open spec fn custom_attribute(attrs: Seq<Attribute>, name: Seq<char>) -> Option<Seq<Seq<u8>>> {
    match first_index(attrs, has_name(name)) {
        Some(i) => Some(value_bytes(attrs[i].value)),
        None => None,
    }
}

/// The bytes of each text.
fn strings_bytes(l: &Vec<String>) -> (r: Vec<Vec<u8>>)
    ensures
        byte_views(r@) == encoded(views(l@)),
{
    texts_bytes(l)
}

/// A copy of a byte string.
fn copy_bytes(b: &Vec<u8>) -> (r: Vec<u8>)
    ensures
        r@ == b@,
{
    let mut r: Vec<u8> = Vec::new();
    let mut i: usize = 0;
    while i < b.len()
        invariant
            i <= b@.len(),
            r@ == b@.take(i as int),
        decreases b@.len() - i,
    {
        r.push(b[i]);
        assert(b@.take(i + 1) =~= b@.take(i as int).push(b@[i as int]));
        i += 1;
    }
    assert(b@.take(b@.len() as int) =~= b@);
    r
}

fn push_bytes(v: &mut Vec<Vec<u8>>, b: Vec<u8>)
    ensures
        byte_views(final(v)@) == byte_views(old(v)@).push(b@),
{
    let ghost before = v@;
    v.push(b);
    assert(byte_views(v@) =~= byte_views(before).push(b@));
}

/// The bytes LDAP shows for an attribute value.
fn values_of(v: &AttributeValue) -> (r: Vec<Vec<u8>>)
    ensures
        byte_views(r@) == value_bytes(*v),
{
    match v {
        AttributeValue::String(Cardinality::Singleton(s)) => {
            let mut r: Vec<Vec<u8>> = Vec::new();
            push_bytes(&mut r, utf8_bytes(s.as_str()));
            assert(views(seq![*s]) =~= seq![s@]);
            assert(byte_views(r@) =~= encoded(seq![s@]));
            r
        },
        AttributeValue::String(Cardinality::Unbounded(l)) => strings_bytes(l),
        AttributeValue::Integer(c) => {
            let ghost vals = c.values();
            let mut r: Vec<Vec<u8>> = Vec::new();
            match c {
                Cardinality::Singleton(i) => {
                    push_bytes(&mut r, utf8_bytes(int_string(*i).as_str()));
                    assert(byte_views(r@) =~= vals.map_values(|i: i64| encode_utf8(int_text(i as int))));
                },
                Cardinality::Unbounded(l) => {
                    let mut k: usize = 0;
                    while k < l.len()
                        invariant
                            k <= l@.len(),
                            vals == l@,
                            byte_views(r@) == vals.take(k as int).map_values(|i: i64| encode_utf8(int_text(i as int))),
                        decreases l@.len() - k,
                    {
                        push_bytes(&mut r, utf8_bytes(int_string(l[k]).as_str()));
                        assert(vals.take(k + 1).map_values(|i: i64| encode_utf8(int_text(i as int))) =~= vals.take(
                            k as int,
                        ).map_values(|i: i64| encode_utf8(int_text(i as int))).push(encode_utf8(int_text(l@[k as int] as int))));
                        k += 1;
                    }
                    assert(vals.take(vals.len() as int) =~= vals);
                },
            }
            r
        },
        AttributeValue::Avatar(c) => {
            let ghost vals = c.values();
            let mut r: Vec<Vec<u8>> = Vec::new();
            match c {
                Cardinality::Singleton(a) => {
                    push_bytes(&mut r, copy_bytes(&a.0));
                    assert(byte_views(r@) =~= vals.map_values(|a: Avatar| a.0@));
                },
                Cardinality::Unbounded(l) => {
                    let mut k: usize = 0;
                    while k < l.len()
                        invariant
                            k <= l@.len(),
                            vals == l@,
                            byte_views(r@) == vals.take(k as int).map_values(|a: Avatar| a.0@),
                        decreases l@.len() - k,
                    {
                        push_bytes(&mut r, copy_bytes(&l[k].0));
                        assert(vals.take(k + 1).map_values(|a: Avatar| a.0@) =~= vals.take(k as int).map_values(
                            |a: Avatar| a.0@,
                        ).push(l@[k as int].0@));
                        k += 1;
                    }
                    assert(vals.take(vals.len() as int) =~= vals);
                },
            }
            r
        },
        AttributeValue::DateTime(c) => {
            let ghost vals = c.values();
            let mut r: Vec<Vec<u8>> = Vec::new();
            match c {
                Cardinality::Singleton(d) => {
                    match to_generalized_time(d) {
                        Some(b) => push_bytes(&mut r, b),
                        None => {},
                    }
                    assert(vals.drop_last() =~= Seq::<DateTime>::empty());
                    assert(known_dates(vals.drop_last()) == Seq::<Seq<u8>>::empty());
                    assert(vals.last() == *d);
                    assert(byte_views(r@) =~= known_dates(vals));
                },
                Cardinality::Unbounded(l) => {
                    let mut k: usize = 0;
                    while k < l.len()
                        invariant
                            k <= l@.len(),
                            vals == l@,
                            byte_views(r@) == known_dates(vals.take(k as int)),
                        decreases l@.len() - k,
                    {
                        assert(vals.take(k + 1).drop_last() =~= vals.take(k as int));
                        match to_generalized_time(&l[k]) {
                            Some(b) => push_bytes(&mut r, b),
                            None => {},
                        }
                        k += 1;
                    }
                    assert(vals.take(vals.len() as int) =~= vals);
                },
            }
            r
        },
    }
}

/// The values of the first attribute named `attribute_name`, if there is one.
pub fn get_custom_attribute(attributes: &[Attribute], attribute_name: &AttributeName) -> (r: Option<Vec<Vec<u8>>>)
    ensures
        match r {
            Some(v) => custom_attribute(attributes@, attribute_name@) == Some(byte_views(v@)),
            None => custom_attribute(attributes@, attribute_name@) is None,
        },
{
    let ghost p = has_name(attribute_name@);
    let mut i: usize = 0;
    while i < attributes.len()
        invariant
            i <= attributes@.len(),
            p == has_name(attribute_name@),
            forall|j: int| 0 <= j < i ==> !p(#[trigger] attributes@[j]),
        decreases attributes@.len() - i,
    {
        if attributes[i].name.same_as(attribute_name) {
            proof {
                lemma_first_index_at(attributes@, p, i as int);
            }
            return Some(values_of(&attributes[i].value));
        }
        i += 1;
    }
    proof {
        lemma_first_index_none(attributes@, p);
    }
    None
}

/// The OU an attribute value gives: a text, or the first of a non-empty list of texts.
pub open spec fn ou_value(v: AttributeValue) -> Option<Seq<char>> {
    match v {
        AttributeValue::String(Cardinality::Singleton(s)) => Some(s@),
        AttributeValue::String(Cardinality::Unbounded(l)) => if l@.len() > 0 {
            Some(l@[0]@)
        } else {
            None
        },
        _ => None,
    }
}

/// The OU of an entity: the value of its first attribute named `ou` (any case),
/// else `default`.
pub open spec fn ou_of(attrs: Seq<Attribute>, default: Seq<char>) -> Seq<char> {
    match first_index(attrs, ou_named()) {
        Some(i) => match ou_value(attrs[i].value) {
            Some(s) => s,
            None => default,
        },
        None => default,
    }
}

/// The first attribute named `ou` (any case).
fn first_ou(attributes: &[Attribute]) -> (r: Option<usize>)
    ensures
        match r {
            Some(i) => i < attributes@.len() && first_index(attributes@, ou_named()) == Some(i as int),
            None => first_index(attributes@, ou_named()) is None,
        },
{
    let ghost p = ou_named();
    let mut i: usize = 0;
    while i < attributes.len()
        invariant
            i <= attributes@.len(),
            p == ou_named(),
            forall|j: int| 0 <= j < i ==> !p(#[trigger] attributes@[j]),
        decreases attributes@.len() - i,
    {
        if eq_ignore_ascii_case(attributes[i].name.as_str(), "ou") {
            proof {
                lemma_first_index_at(attributes@, p, i as int);
            }
            return Some(i);
        }
        i += 1;
    }
    proof {
        lemma_first_index_none(attributes@, p);
    }
    None
}

/// The OU of an entity from its attributes: the (first) text of its first
/// attribute named `ou` (any case), else `default`.
pub fn get_ou_from_attributes(attributes: &[Attribute], default: &str) -> (r: String)
    ensures
        r@ == ou_of(attributes@, default@),
{
    match first_ou(attributes) {
        Some(i) => match &attributes[i].value {
            AttributeValue::String(Cardinality::Singleton(s)) => copy_str(s.as_str()),
            AttributeValue::String(Cardinality::Unbounded(list)) => {
                if list.len() > 0 {
                    copy_str(list[0].as_str())
                } else {
                    copy_str(default)
                }
            },
            _ => copy_str(default),
        },
        None => copy_str(default),
    }
}

/// The OU of a user: its `ou` attribute, else `people`.
pub fn get_user_ou(user: &User) -> (r: String)
    ensures
        r@ == ou_of(user.attributes@, "people"@),
{
    get_ou_from_attributes(user.attributes.as_slice(), DEFAULT_PRIMARY_USER_OU)
}

/// The OU of a group: its `ou` attribute, else `groups`.
pub fn get_group_ou(group: &Group) -> (r: String)
    ensures
        r@ == ou_of(group.attributes@, "groups"@),
{
    get_ou_from_attributes(group.attributes.as_slice(), DEFAULT_PRIMARY_GROUP_OU)
}

/// Whether one of the attributes has type `name` (any case).
pub open spec fn has_atype(v: Seq<(Seq<char>, Seq<Seq<u8>>)>, name: Seq<char>) -> bool {
    exists|i: int| 0 <= i < v.len() && eq_ic((#[trigger] v[i]).0, name)
}

/// The attribute `(name, [value])` unless one of type `key` (any case) is there.
pub open spec fn unless_present(
    v: Seq<(Seq<char>, Seq<Seq<u8>>)>,
    key: Seq<char>,
    name: Seq<char>,
    value: Seq<char>,
) -> Seq<(Seq<char>, Seq<Seq<u8>>)> {
    if has_atype(v, key) {
        Seq::empty()
    } else {
        seq![text_attr(name, seq![value])]
    }
}

/// The operational attributes added to an entry with attributes `v` (those it
/// lacks): no subordinates, its structural class, the subschema entry, and the
/// administrator as creator and modifier.
pub open spec fn operational_additions(v: Seq<(Seq<char>, Seq<Seq<u8>>)>, class: Seq<char>, base: Seq<char>) -> Seq<
    (Seq<char>, Seq<Seq<u8>>),
> {
    unless_present(v, "hassubordinates"@, "hasSubordinates"@, "FALSE"@) + unless_present(
        v,
        "structuralobjectclass"@,
        "structuralObjectClass"@,
        class,
    ) + unless_present(v, "subschemasubentry"@, "subschemaSubentry"@, "cn=Subschema,"@ + base) + unless_present(
        v,
        "creatorsname"@,
        "creatorsName"@,
        "cn=admin,ou=people,"@ + base,
    ) + unless_present(v, "modifiersname"@, "modifiersName"@, "cn=admin,ou=people,"@ + base)
}

/// Whether one of the attributes has type `name` (any case).
fn has_attribute_type(attrs: &Vec<LdapPartialAttribute>, name: &str) -> (r: bool)
    ensures
        r == has_atype(attrs_view(attrs@), name@),
{
    let ghost v = attrs_view(attrs@);
    let mut i: usize = 0;
    while i < attrs.len()
        invariant
            i <= attrs@.len(),
            v == attrs_view(attrs@),
            forall|j: int| 0 <= j < i ==> !eq_ic((#[trigger] v[j]).0, name@),
        decreases attrs@.len() - i,
    {
        if eq_ignore_ascii_case(attrs[i].atype.as_str(), name) {
            assert(eq_ic(v[i as int].0, name@));
            return true;
        }
        i += 1;
    }
    false
}

fn one_text(t: &str) -> (r: Vec<String>)
    ensures
        views(r@) == seq![t@],
{
    let mut v: Vec<String> = Vec::new();
    v.push(copy_str(t));
    assert(views(v@) =~= seq![t@]);
    v
}

fn push_attr(v: &mut Vec<LdapPartialAttribute>, a: LdapPartialAttribute)
    ensures
        attrs_view(final(v)@) == attrs_view(old(v)@).push(crate::proto::attr_view(a)),
{
    let ghost before = v@;
    v.push(a);
    assert(attrs_view(v@) =~= attrs_view(before).push(crate::proto::attr_view(a)));
}

/// Adds the operational attributes that the entry lacks (compared without case):
/// `hasSubordinates` (`FALSE`), `structuralObjectClass`, `subschemaSubentry`, and
/// `creatorsName` and `modifiersName` (the administrator).
pub fn inject_operational_attributes(attrs: &mut Vec<LdapPartialAttribute>, structural_class: &str, base_dn_str: &str)
    ensures
        attrs_view(final(attrs)@) == attrs_view(old(attrs)@) + operational_additions(
            attrs_view(old(attrs)@),
            structural_class@,
            base_dn_str@,
        ),
{
    let ghost v = attrs_view(attrs@);
    let has_sub = has_attribute_type(attrs, "hassubordinates");
    let has_class = has_attribute_type(attrs, "structuralobjectclass");
    let has_schema = has_attribute_type(attrs, "subschemasubentry");
    let has_creator = has_attribute_type(attrs, "creatorsname");
    let has_modifier = has_attribute_type(attrs, "modifiersname");
    let admin = concat("cn=admin,ou=people,", base_dn_str);
    if !has_sub {
        push_attr(attrs, crate::proto::text_attribute("hasSubordinates", &one_text("FALSE")));
    }
    assert(attrs_view(attrs@) =~= v + unless_present(v, "hassubordinates"@, "hasSubordinates"@, "FALSE"@));
    let ghost v1 = attrs_view(attrs@);
    if !has_class {
        push_attr(attrs, crate::proto::text_attribute("structuralObjectClass", &one_text(structural_class)));
    }
    assert(attrs_view(attrs@) =~= v1 + unless_present(
        v,
        "structuralobjectclass"@,
        "structuralObjectClass"@,
        structural_class@,
    ));
    let ghost v2 = attrs_view(attrs@);
    if !has_schema {
        let sub = concat("cn=Subschema,", base_dn_str);
        push_attr(attrs, crate::proto::text_attribute("subschemaSubentry", &one_text(sub.as_str())));
    }
    assert(attrs_view(attrs@) =~= v2 + unless_present(
        v,
        "subschemasubentry"@,
        "subschemaSubentry"@,
        "cn=Subschema,"@ + base_dn_str@,
    ));
    let ghost v3 = attrs_view(attrs@);
    if !has_creator {
        push_attr(attrs, crate::proto::text_attribute("creatorsName", &one_text(admin.as_str())));
    }
    assert(attrs_view(attrs@) =~= v3 + unless_present(
        v,
        "creatorsname"@,
        "creatorsName"@,
        "cn=admin,ou=people,"@ + base_dn_str@,
    ));
    let ghost v4 = attrs_view(attrs@);
    if !has_modifier {
        push_attr(attrs, crate::proto::text_attribute("modifiersName", &one_text(admin.as_str())));
    }
    assert(attrs_view(attrs@) =~= v4 + unless_present(
        v,
        "modifiersname"@,
        "modifiersName"@,
        "cn=admin,ou=people,"@ + base_dn_str@,
    ));
}

/// The object classes of users: `top`, `person`, then the schema's extra ones.
pub open spec fn user_classes(schema: PublicSchema) -> Seq<Seq<char>> {
    seq!["top"@, "person"@] + views(schema.0.extra_user_object_classes@)
}

/// The object classes of groups: `groupOfUniqueNames`, `groupOfNames`, then the
/// schema's extra ones.
pub open spec fn group_classes(schema: PublicSchema) -> Seq<Seq<char>> {
    seq!["groupOfUniqueNames"@, "groupOfNames"@] + views(schema.0.extra_group_object_classes@)
}

/// `first`, `second`, then the texts of `extra`.
fn two_then(first: &str, second: &str, extra: &Vec<String>) -> (r: Vec<String>)
    ensures
        views(r@) == seq![first@, second@] + views(extra@),
{
    let mut v: Vec<String> = Vec::new();
    v.push(copy_str(first));
    v.push(copy_str(second));
    let mut i: usize = 0;
    while i < extra.len()
        invariant
            i <= extra@.len(),
            views(v@) == seq![first@, second@] + views(extra@).take(i as int),
        decreases extra@.len() - i,
    {
        let ghost before = views(v@);
        v.push(copy_str(extra[i].as_str()));
        assert(views(v@) =~= before.push(extra@[i as int]@));
        assert(views(extra@).take(i + 1) =~= views(extra@).take(i as int).push(extra@[i as int]@));
        i += 1;
    }
    assert(views(extra@).take(views(extra@).len() as int) =~= views(extra@));
    v
}

/// The object classes of users, as bytes.
pub fn get_default_user_object_classes_bytes(schema: &PublicSchema) -> (r: Vec<Vec<u8>>)
    ensures
        byte_views(r@) == encoded(user_classes(*schema)),
{
    texts_bytes(&two_then("top", "person", &schema.0.extra_user_object_classes))
}

/// The object classes of groups, as bytes.
pub fn get_default_group_object_classes_bytes(schema: &PublicSchema) -> (r: Vec<Vec<u8>>)
    ensures
        byte_views(r@) == encoded(group_classes(*schema)),
{
    texts_bytes(&two_then("groupOfUniqueNames", "groupOfNames", &schema.0.extra_group_object_classes))
}

/// The names of object classes.
pub open spec fn class_names(v: Seq<LdapObjectClass>) -> Seq<Seq<char>> {
    v.map_values(|c: LdapObjectClass| c.0@)
}

fn to_classes(v: &Vec<String>) -> (r: Vec<LdapObjectClass>)
    ensures
        class_names(r@) == views(v@),
{
    let mut out: Vec<LdapObjectClass> = Vec::new();
    let mut i: usize = 0;
    while i < v.len()
        invariant
            i <= v@.len(),
            class_names(out@) == views(v@).take(i as int),
        decreases v@.len() - i,
    {
        let ghost before = class_names(out@);
        out.push(LdapObjectClass(copy_str(v[i].as_str())));
        assert(class_names(out@) =~= before.push(v@[i as int]@));
        assert(views(v@).take(i + 1) =~= views(v@).take(i as int).push(v@[i as int]@));
        i += 1;
    }
    assert(views(v@).take(views(v@).len() as int) =~= views(v@));
    out
}

/// The object classes of users in the built-in schema.
pub fn get_default_user_object_classes() -> (r: Vec<LdapObjectClass>)
    ensures
        class_names(r@) == seq!["top"@, "person"@, "inetOrgPerson"@, "posixAccount"@, "ldapPublicKey"@],
{
    let schema = PublicSchema::get();
    let names = two_then("top", "person", &schema.0.extra_user_object_classes);
    assert(seq!["top"@, "person"@] + seq!["inetOrgPerson"@, "posixAccount"@, "ldapPublicKey"@] =~= seq![
        "top"@,
        "person"@,
        "inetOrgPerson"@,
        "posixAccount"@,
        "ldapPublicKey"@,
    ]);
    to_classes(&names)
}

/// The object classes of groups in the built-in schema.
pub fn get_default_group_object_classes() -> (r: Vec<LdapObjectClass>)
    ensures
        class_names(r@) == seq!["groupOfUniqueNames"@, "groupOfNames"@, "posixGroup"@],
{
    let schema = PublicSchema::get();
    let names = two_then("groupOfUniqueNames", "groupOfNames", &schema.0.extra_group_object_classes);
    assert(seq!["groupOfUniqueNames"@, "groupOfNames"@] + seq!["posixGroup"@] =~= seq![
        "groupOfUniqueNames"@,
        "groupOfNames"@,
        "posixGroup"@,
    ]);
    to_classes(&names)
}

/// The attribute map of the built-in schema.
pub open spec fn builtin_map() -> AttrMap {
    schema_attr_map(builtin_user_attributes(), builtin_group_attributes())
}

/// What a user attribute name stands for with the built-in map and `schema`.
pub open spec fn user_field(schema: PublicSchema, name: Seq<char>) -> FieldKind {
    user_field_of(builtin_map(), attr_views(schema.0.user_attributes.attributes@), name)
}

/// What a group attribute name stands for with the built-in map and `schema`.
pub open spec fn group_field(schema: PublicSchema, name: Seq<char>) -> FieldKind {
    group_field_of(builtin_map(), attr_views(schema.0.group_attributes.attributes@), name)
}

/// Whether reading user attribute `name` would fail: `*` that nothing stands for
/// (wildcards are expanded before attributes are read).
pub open spec fn user_star(schema: PublicSchema, name: Seq<char>) -> bool {
    name == "*"@ && user_field(schema, name) is NoMatch
}

/// Whether reading group attribute `name` would fail: `*` that nothing stands for.
pub open spec fn group_star(schema: PublicSchema, name: Seq<char>) -> bool {
    name == "*"@ && group_field(schema, name) is NoMatch
}

/// One text as the value list.
pub open spec fn text_value(t: Seq<char>) -> Option<Seq<Seq<u8>>> {
    Some(seq![encode_utf8(t)])
}

/// An optional text as the value list.
pub open spec fn opt_text_value(t: Option<String>) -> Option<Seq<Seq<u8>>> {
    match t {
        Some(s) => text_value(s@),
        None => None,
    }
}

/// An instant as the value list (none when chrono cannot represent it).
pub open spec fn date_value(d: DateTime) -> Option<Seq<Seq<u8>>> {
    match date_bytes(d) {
        Some(b) => Some(seq![b]),
        None => None,
    }
}

/// The values of an attribute name nothing stands for: none for `1.1`, `+` and
/// ignored names, else the stored attribute of that name.
pub open spec fn unmatched_values(attrs: Seq<Attribute>, name: Seq<char>, ignored: Seq<AttributeName>) -> Option<
    Seq<Seq<u8>>,
> {
    if name == "1.1"@ || name == "+"@ || names_contain(ignored, name) {
        None
    } else {
        custom_attribute(attrs, name)
    }
}

/// The OU of a group as its member lists show it: the text of its first attribute
/// named `ou` (any case) when that is a single text, else `groups`.
pub open spec fn member_ou(attrs: Seq<Attribute>) -> Seq<char> {
    match first_index(attrs, ou_named()) {
        Some(i) => match attrs[i].value {
            AttributeValue::String(Cardinality::Singleton(s)) => s@,
            _ => "groups"@,
        },
        None => "groups"@,
    }
}

/// The DN of a group a user belongs to.
pub open spec fn group_details_dn(g: GroupDetails, base: Seq<char>) -> Seq<char> {
    entry_dn_text(seq!['c', 'n'], g.display_name@, member_ou(g.attributes@), base)
}

/// The values of user attribute `name` (lowercase): object classes, entry DN and
/// UUID, the DNs of its groups, its stored columns and attributes.
pub open spec fn user_values(
    user: User,
    name: Seq<char>,
    base: Seq<char>,
    groups: Option<Seq<GroupDetails>>,
    ignored: Seq<AttributeName>,
    schema: PublicSchema,
) -> Option<Seq<Seq<u8>>> {
    match user_field(schema, name) {
        FieldKind::ObjectClass => Some(encoded(user_classes(schema))),
        FieldKind::EntryDn => text_value(
            entry_dn_text(seq!['u', 'i', 'd'], user.user_id@, ou_of(user.attributes@, "people"@), base),
        ),
        FieldKind::EntryUuid => text_value(user.uuid.0@),
        FieldKind::MemberOf => Some(
            match groups {
                Some(gs) => gs.map_values(|g: GroupDetails| encode_utf8(group_details_dn(g, base))),
                None => Seq::empty(),
            },
        ),
        FieldKind::Primary(c) => match c {
            UserColumn::UserId => text_value(user.user_id@),
            UserColumn::Email => text_value(user.email@),
            UserColumn::Uuid => text_value(user.uuid.0@),
            UserColumn::DisplayName => opt_text_value(user.display_name),
            UserColumn::CreationDate => date_value(user.creation_date),
            UserColumn::ModifiedDate => date_value(user.modified_date),
            UserColumn::PasswordModifiedDate => date_value(user.password_modified_date),
            UserColumn::KrbPrincipalName => opt_text_value(user.krb_principal_name),
            UserColumn::LowercaseEmail => None,
        },
        FieldKind::Attribute(n, _, _) => custom_attribute(user.attributes@, n),
        FieldKind::NoMatch => unmatched_values(user.attributes@, name, ignored),
        _ => None,
    }
}

/// A value list as served: a single empty value counts as none.
pub open spec fn served(v: Option<Seq<Seq<u8>>>) -> Option<Seq<Seq<u8>>> {
    match v {
        Some(vals) => if vals.len() == 1 && vals[0].len() == 0 {
            None
        } else {
            Some(vals)
        },
        None => None,
    }
}

/// A value list as plain values.
pub open spec fn opt_byte_views(r: Option<Vec<Vec<u8>>>) -> Option<Seq<Seq<u8>>> {
    match r {
        Some(v) => Some(byte_views(v@)),
        None => None,
    }
}

/// An optional slice of groups as plain values.
pub open spec fn opt_groups(groups: Option<&[GroupDetails]>) -> Option<Seq<GroupDetails>> {
    match groups {
        Some(g) => Some(g@),
        None => None,
    }
}

fn text_values(t: &str) -> (r: Vec<Vec<u8>>)
    ensures
        Some(byte_views(r@)) == text_value(t@),
{
    let mut v: Vec<Vec<u8>> = Vec::new();
    push_bytes(&mut v, utf8_bytes(t));
    assert(byte_views(v@) =~= seq![encode_utf8(t@)]);
    v
}

fn date_values(d: &DateTime) -> (r: Option<Vec<Vec<u8>>>)
    ensures
        opt_byte_views(r) == date_value(*d),
{
    match to_generalized_time(d) {
        Some(b) => {
            let mut v: Vec<Vec<u8>> = Vec::new();
            push_bytes(&mut v, b);
            assert(byte_views(v@) =~= seq![date_bytes(*d)->0]);
            Some(v)
        },
        None => None,
    }
}

fn opt_text_values(t: &Option<String>) -> (r: Option<Vec<Vec<u8>>>)
    ensures
        opt_byte_views(r) == opt_text_value(*t),
{
    match t {
        Some(s) => Some(text_values(s.as_str())),
        None => None,
    }
}

/// The OU of a group for member lists.
fn member_ou_of(attributes: &[Attribute]) -> (r: String)
    ensures
        r@ == member_ou(attributes@),
{
    match first_ou(attributes) {
        Some(i) => match &attributes[i].value {
            AttributeValue::String(Cardinality::Singleton(s)) => copy_str(s.as_str()),
            _ => copy_str(DEFAULT_PRIMARY_GROUP_OU),
        },
        None => copy_str(DEFAULT_PRIMARY_GROUP_OU),
    }
}

/// The DNs of the groups a user belongs to.
fn group_dns(groups: &[GroupDetails], base_dn_str: &str) -> (r: Vec<Vec<u8>>)
    ensures
        byte_views(r@) == groups@.map_values(|g: GroupDetails| encode_utf8(group_details_dn(g, base_dn_str@))),
{
    let mut v: Vec<Vec<u8>> = Vec::new();
    let mut i: usize = 0;
    while i < groups.len()
        invariant
            i <= groups@.len(),
            byte_views(v@) == groups@.take(i as int).map_values(
                |g: GroupDetails| encode_utf8(group_details_dn(g, base_dn_str@)),
            ),
        decreases groups@.len() - i,
    {
        let g = &groups[i];
        let ou = member_ou_of(g.attributes.as_slice());
        let dn = build_group_dn(&g.display_name, ou.as_str(), base_dn_str);
        push_bytes(&mut v, utf8_bytes(dn.as_str()));
        assert(groups@.take(i + 1).map_values(|g: GroupDetails| encode_utf8(group_details_dn(g, base_dn_str@)))
            =~= groups@.take(i as int).map_values(|g: GroupDetails| encode_utf8(group_details_dn(g, base_dn_str@))).push(
            encode_utf8(group_details_dn(groups@[i as int], base_dn_str@)),
        ));
        i += 1;
    }
    assert(groups@.take(groups@.len() as int) =~= groups@);
    v
}

/// The values of a name nothing stands for.
fn unmatched(attributes: &[Attribute], name: &AttributeName, ignored: &[AttributeName]) -> (r: Option<Vec<Vec<u8>>>)
    ensures
        opt_byte_views(r) == unmatched_values(attributes@, name@, ignored@),
{
    if str_eq(name.as_str(), "1.1") || str_eq(name.as_str(), "+") || contains_name(ignored, name) {
        return None;
    }
    get_custom_attribute(attributes, name)
}

/// Drops a single empty value.
fn serve(v: Option<Vec<Vec<u8>>>) -> (r: Option<Vec<Vec<u8>>>)
    ensures
        opt_byte_views(r) == served(opt_byte_views(v)),
{
    match v {
        Some(vals) => {
            if vals.len() == 1 && vals[0].len() == 0 {
                None
            } else {
                Some(vals)
            }
        },
        None => None,
    }
}

/// The values of attribute `attribute` of `user` in an LDAP entry under base DN
/// `base_dn_str`; `None` when the entry does not show it (a single empty value
/// counts as none).
pub fn get_user_attribute(
    user: &User,
    attribute: &AttributeName,
    base_dn_str: &str,
    groups: Option<&[GroupDetails]>,
    ignored_user_attributes: &[AttributeName],
    schema: &PublicSchema,
) -> (r: Option<Vec<Vec<u8>>>)
    requires
        !user_star(*schema, crate::text::lower(attribute@)),
    ensures
        opt_byte_views(r) == served(
            user_values(
                *user,
                crate::text::lower(attribute@),
                base_dn_str@,
                opt_groups(groups),
                ignored_user_attributes@,
                *schema,
            ),
        ),
{
    let attribute = AttributeName::new(attribute.as_str());
    let mgr = get_schema_manager();
    proof {
        lemma_schema_map_no_lowercase_email(builtin_user_attributes(), builtin_group_attributes());
    }
    let field = mgr.map_user_field(&attribute, schema);
    let values: Option<Vec<Vec<u8>>> = match field {
        UserFieldType::ObjectClass => Some(get_default_user_object_classes_bytes(schema)),
        UserFieldType::Dn => None,
        UserFieldType::EntryDn => {
            let ou = get_user_ou(user);
            let dn = build_user_dn(&user.user_id, ou.as_str(), base_dn_str);
            Some(text_values(dn.as_str()))
        },
        UserFieldType::EntryUuid => Some(text_values(user.uuid.as_str())),
        UserFieldType::MemberOf => match groups {
            Some(gs) => Some(group_dns(gs, base_dn_str)),
            None => {
                let e: Vec<Vec<u8>> = Vec::new();
                assert(byte_views(e@) =~= Seq::<Seq<u8>>::empty());
                Some(e)
            },
        },
        UserFieldType::PrimaryField(c) => match c {
            UserColumn::UserId => Some(text_values(user.user_id.as_str())),
            UserColumn::Email => Some(text_values(user.email.as_str())),
            UserColumn::Uuid => Some(text_values(user.uuid.as_str())),
            UserColumn::DisplayName => opt_text_values(&user.display_name),
            UserColumn::CreationDate => date_values(&user.creation_date),
            UserColumn::ModifiedDate => date_values(&user.modified_date),
            UserColumn::PasswordModifiedDate => date_values(&user.password_modified_date),
            UserColumn::KrbPrincipalName => opt_text_values(&user.krb_principal_name),
            UserColumn::LowercaseEmail => {
                proof {
                    assert(builtin_map()[crate::text::lower(attribute@)].0 != LogicalAttrView::Primary(
                        UserColumn::LowercaseEmail,
                    ));
                }
                None
            },
        },
        UserFieldType::Attribute(name, _, _) => get_custom_attribute(user.attributes.as_slice(), &name),
        UserFieldType::NoMatch => unmatched(user.attributes.as_slice(), &attribute, ignored_user_attributes),
    };
    serve(values)
}

/// The DNs of the members of a group, restricted to `user_filter` when given.
pub open spec fn member_dn_list(users: Seq<GroupMember>, base: Seq<char>, filter: Option<Seq<char>>) -> Seq<
    Seq<char>,
>
    decreases users.len(),
{
    if users.len() == 0 {
        Seq::empty()
    } else {
        let r = member_dn_list(users.drop_last(), base, filter);
        let u = users.last();
        if (match filter {
            Some(f) => u.user_id@ == f,
            None => true,
        }) {
            r.push(entry_dn_text(seq!['u', 'i', 'd'], u.user_id@, u.ou@, base))
        } else {
            r
        }
    }
}

/// The values of group attribute `name`: object classes, entry DN and UUID, its
/// identifier, name and dates, its members' DNs (sorted, each once), and its
/// stored attributes.
pub open spec fn group_values(
    group: Group,
    name: Seq<char>,
    base: Seq<char>,
    user_filter: Option<Seq<char>>,
    ignored: Seq<AttributeName>,
    schema: PublicSchema,
) -> Option<Seq<Seq<u8>>> {
    match group_field(schema, name) {
        FieldKind::ObjectClass => Some(encoded(group_classes(schema))),
        FieldKind::EntryDn => text_value(
            entry_dn_text(seq!['c', 'n'], group.display_name@, ou_of(group.attributes@, "groups"@), base),
        ),
        FieldKind::EntryUuid => text_value(group.uuid.0@),
        FieldKind::GroupId => text_value(int_text(group.id.0 as int)),
        FieldKind::DisplayName => text_value(group.display_name@),
        FieldKind::CreationDate => date_value(group.creation_date),
        FieldKind::ModifiedDate => date_value(group.modified_date),
        FieldKind::Member => Some(encoded(sorted_set(member_dn_list(group.users@, base, user_filter)))),
        FieldKind::Uuid => text_value(group.uuid.0@),
        FieldKind::Attribute(n, _, _) => custom_attribute(group.attributes@, n),
        FieldKind::NoMatch => unmatched_values(group.attributes@, name, ignored),
        _ => None,
    }
}

/// An optional user filter as plain values.
pub open spec fn opt_user(f: Option<UserId>) -> Option<Seq<char>> {
    match f {
        Some(u) => Some(u@),
        None => None,
    }
}

/// The DNs of the members of a group (restricted to `user_filter`), sorted, each once.
fn member_dns(users: &Vec<GroupMember>, base_dn_str: &str, user_filter: &Option<UserId>) -> (r: Vec<String>)
    ensures
        views(r@) == sorted_set(member_dn_list(users@, base_dn_str@, opt_user(*user_filter))),
{
    let ghost f = opt_user(*user_filter);
    let mut out: Vec<String> = Vec::new();
    let mut i: usize = 0;
    while i < users.len()
        invariant
            i <= users@.len(),
            f == opt_user(*user_filter),
            views(out@) == sorted_set(member_dn_list(users@.take(i as int), base_dn_str@, f)),
            strictly_sorted(views(out@)),
        decreases users@.len() - i,
    {
        let u = &users[i];
        let ghost prev = member_dn_list(users@.take(i as int), base_dn_str@, f);
        assert(users@.take(i + 1).drop_last() =~= users@.take(i as int));
        assert(users@.take(i + 1).last() == users@[i as int]);
        let keep = match user_filter {
            Some(id) => str_eq(u.user_id.as_str(), id.as_str()),
            None => true,
        };
        if keep {
            let dn = build_user_dn(&u.user_id, u.ou.as_str(), base_dn_str);
            let ghost d = dn@;
            let ghost next = member_dn_list(users@.take(i + 1), base_dn_str@, f);
            assert(next == prev.push(d));
            assert(next.drop_last() =~= prev);
            proof {
                crate::ordered::lemma_insert_sorted(views(out@), d);
            }
            insert_text(&mut out, dn);
        } else {
            assert(member_dn_list(users@.take(i + 1), base_dn_str@, f) == prev);
        }
        i += 1;
    }
    assert(users@.take(users@.len() as int) =~= users@);
    out
}

/// The values of attribute `attribute` of `group` in an LDAP entry under base DN
/// `base_dn_str`; members are restricted to `user_filter` when given; `None` when
/// the entry does not show it (a single empty value counts as none).
pub fn get_group_attribute(
    group: &Group,
    base_dn_str: &str,
    attribute: &AttributeName,
    user_filter: &Option<UserId>,
    ignored_group_attributes: &[AttributeName],
    schema: &PublicSchema,
) -> (r: Option<Vec<Vec<u8>>>)
    requires
        !group_star(*schema, attribute@),
    ensures
        opt_byte_views(r) == served(
            group_values(*group, attribute@, base_dn_str@, opt_user(*user_filter), ignored_group_attributes@, *schema),
        ),
{
    let mgr = get_schema_manager();
    let field = mgr.map_group_field(attribute, schema);
    let values: Option<Vec<Vec<u8>>> = match field {
        GroupFieldType::ObjectClass => Some(get_default_group_object_classes_bytes(schema)),
        GroupFieldType::Dn => None,
        GroupFieldType::EntryDn => {
            let ou = get_group_ou(group);
            let dn = build_group_dn(&group.display_name, ou.as_str(), base_dn_str);
            Some(text_values(dn.as_str()))
        },
        GroupFieldType::EntryUuid => Some(text_values(group.uuid.as_str())),
        GroupFieldType::GroupId => Some(text_values(int_string(group.id.0 as i64).as_str())),
        GroupFieldType::DisplayName => Some(text_values(group.display_name.as_str())),
        GroupFieldType::CreationDate => date_values(&group.creation_date),
        GroupFieldType::ModifiedDate => date_values(&group.modified_date),
        GroupFieldType::Member => {
            let dns = member_dns(&group.users, base_dn_str, user_filter);
            Some(texts_bytes(&dns))
        },
        GroupFieldType::Uuid => Some(text_values(group.uuid.as_str())),
        GroupFieldType::Attribute(name, _, _) => get_custom_attribute(group.attributes.as_slice(), &name),
        GroupFieldType::NoMatch => unmatched(group.attributes.as_slice(), attribute, ignored_group_attributes),
    };
    serve(values)
}

/// Requested attribute keys as plain values: (name, spelling to show).
pub open spec fn key_views(keys: Seq<(AttributeName, String)>) -> Seq<(Seq<char>, Seq<char>)> {
    keys.map_values(|k: (AttributeName, String)| (k.0@, k.1@))
}

/// Whether the schema lists `n` as the exact name or an alias of an attribute.
pub open spec fn standardized(schema_attrs: Seq<AttrView>, n: Seq<char>) -> bool {
    exists|i: int| 0 <= i < schema_attrs.len() && answers_to(#[trigger] schema_attrs[i], n)
}

/// The stored attributes that the schema does not list, as keys shown under their own name.
pub open spec fn custom_keys(attrs: Seq<Attribute>, schema_attrs: Seq<AttrView>) -> Seq<(Seq<char>, Seq<char>)>
    decreases attrs.len(),
{
    if attrs.len() == 0 {
        Seq::empty()
    } else {
        let r = custom_keys(attrs.drop_last(), schema_attrs);
        let a = attrs.last();
        if standardized(schema_attrs, a.name@) {
            r
        } else {
            r.push((a.name@, a.name@))
        }
    }
}

/// The keys an entry is built from: the requested ones, then (when custom
/// attributes are asked for) the stored attributes the schema does not list.
pub open spec fn entry_keys(
    keys: Seq<(AttributeName, String)>,
    include_custom: bool,
    attrs: Seq<Attribute>,
    schema_attrs: Seq<AttrView>,
) -> Seq<(Seq<char>, Seq<char>)> {
    key_views(keys) + if include_custom {
        custom_keys(attrs, schema_attrs)
    } else {
        Seq::empty()
    }
}

/// Whether a name stands for an operational attribute in the built-in map.
pub open spec fn is_operational_key(k: Seq<char>) -> bool {
    builtin_map().dom().contains(crate::text::lower(k)) && builtin_map()[crate::text::lower(k)].0 is Operational
}

/// The attributes of a user entry for the keys `kv`: operational ones only when
/// asked for, each shown under its spelling when the user has values for it.
pub open spec fn user_entry_attrs(
    kv: Seq<(Seq<char>, Seq<char>)>,
    include_op: bool,
    user: User,
    base: Seq<char>,
    groups: Option<Seq<GroupDetails>>,
    ignored: Seq<AttributeName>,
    schema: PublicSchema,
) -> Seq<(Seq<char>, Seq<Seq<u8>>)>
    decreases kv.len(),
{
    if kv.len() == 0 {
        Seq::empty()
    } else {
        let r = user_entry_attrs(kv.drop_last(), include_op, user, base, groups, ignored, schema);
        let k = kv.last();
        if is_operational_key(k.0) && !include_op {
            r
        } else {
            match served(user_values(user, crate::text::lower(k.0), base, groups, ignored, schema)) {
                Some(v) => r.push((k.1, v)),
                None => r,
            }
        }
    }
}

/// The attributes of a group entry for the keys `kv`.
pub open spec fn group_entry_attrs(
    kv: Seq<(Seq<char>, Seq<char>)>,
    include_op: bool,
    group: Group,
    base: Seq<char>,
    user_filter: Option<Seq<char>>,
    ignored: Seq<AttributeName>,
    schema: PublicSchema,
) -> Seq<(Seq<char>, Seq<Seq<u8>>)>
    decreases kv.len(),
{
    if kv.len() == 0 {
        Seq::empty()
    } else {
        let r = group_entry_attrs(kv.drop_last(), include_op, group, base, user_filter, ignored, schema);
        let k = kv.last();
        if is_operational_key(k.0) && !include_op {
            r
        } else {
            match served(group_values(group, k.0, base, user_filter, ignored, schema)) {
                Some(v) => r.push((k.1, v)),
                None => r,
            }
        }
    }
}

/// The types of a list of attributes.
pub open spec fn atypes(v: Seq<(Seq<char>, Seq<Seq<u8>>)>) -> Seq<Seq<char>> {
    v.map_values(|p: (Seq<char>, Seq<Seq<u8>>)| p.0)
}

/// The attributes without those whose type (compared exactly) was kept before.
pub open spec fn dedup_atypes(v: Seq<(Seq<char>, Seq<Seq<u8>>)>) -> Seq<(Seq<char>, Seq<Seq<u8>>)>
    decreases v.len(),
{
    if v.len() == 0 {
        v
    } else {
        let r = dedup_atypes(v.drop_last());
        if atypes(r).contains(v.last().0) {
            r
        } else {
            r.push(v.last())
        }
    }
}

/// The attributes of an entry, with the operational additions when asked for,
/// each type once.
pub open spec fn finished_attrs(
    kept: Seq<(Seq<char>, Seq<Seq<u8>>)>,
    include_op: bool,
    class: Seq<char>,
    base: Seq<char>,
) -> Seq<(Seq<char>, Seq<Seq<u8>>)> {
    dedup_atypes(
        if include_op {
            kept + operational_additions(kept, class, base)
        } else {
            kept
        },
    )
}

/// The DN of a user entry.
pub open spec fn user_entry_dn(user: User, base: Seq<char>) -> Seq<char> {
    entry_dn_text(seq!['u', 'i', 'd'], user.user_id@, ou_of(user.attributes@, "people"@), base)
}

/// The DN of a group entry.
pub open spec fn group_entry_dn(group: Group, base: Seq<char>) -> Seq<char> {
    entry_dn_text(seq!['c', 'n'], group.display_name@, ou_of(group.attributes@, "groups"@), base)
}

/// Whether `e` is the LDAP entry of `user` for the expanded request `ea`.
pub open spec fn user_entry_ok(
    e: LdapSearchResultEntry,
    user: User,
    base: Seq<char>,
    ea: ExpandedAttributes,
    groups: Option<Seq<GroupDetails>>,
    ignored: Seq<AttributeName>,
    schema: PublicSchema,
) -> bool {
    let kv = entry_keys(
        ea.attribute_keys@,
        ea.include_custom_attributes,
        user.attributes@,
        attr_views(schema.0.user_attributes.attributes@),
    );
    &&& e.dn@ == user_entry_dn(user, base)
    &&& attrs_view(e.attributes@) == finished_attrs(
        user_entry_attrs(kv, ea.include_operational_attributes, user, base, groups, ignored, schema),
        ea.include_operational_attributes,
        "inetOrgPerson"@,
        base,
    )
}

/// Whether `e` is the LDAP entry of `group` for the expanded request `ea`.
pub open spec fn group_entry_ok(
    e: LdapSearchResultEntry,
    group: Group,
    base: Seq<char>,
    ea: ExpandedAttributes,
    user_filter: Option<Seq<char>>,
    ignored: Seq<AttributeName>,
    schema: PublicSchema,
) -> bool {
    let kv = entry_keys(
        ea.attribute_keys@,
        ea.include_custom_attributes,
        group.attributes@,
        attr_views(schema.0.group_attributes.attributes@),
    );
    &&& e.dn@ == group_entry_dn(group, base)
    &&& attrs_view(e.attributes@) == finished_attrs(
        group_entry_attrs(kv, ea.include_operational_attributes, group, base, user_filter, ignored, schema),
        ea.include_operational_attributes,
        "groupOfUniqueNames"@,
        base,
    )
}

/// Appends the stored attributes that the schema does not list to the keys.
fn add_custom_keys(keys: &mut Vec<(AttributeName, String)>, attrs: &Vec<Attribute>, schema_attrs: &crate::schema::AttributeList)
    ensures
        key_views(final(keys)@) == key_views(old(keys)@) + custom_keys(attrs@, attr_views(schema_attrs.attributes@)),
{
    let ghost sa = attr_views(schema_attrs.attributes@);
    let ghost start = key_views(keys@);
    let mut i: usize = 0;
    while i < attrs.len()
        invariant
            i <= attrs@.len(),
            sa == attr_views(schema_attrs.attributes@),
            key_views(keys@) == start + custom_keys(attrs@.take(i as int), sa),
        decreases attrs@.len() - i,
    {
        let a = &attrs[i];
        assert(attrs@.take(i + 1).drop_last() =~= attrs@.take(i as int));
        assert(attrs@.take(i + 1).last() == attrs@[i as int]);
        proof {
            crate::schema::lemma_first_answering(sa, a.name@);
        }
        let known = schema_attrs.get_by_name_or_alias(a.name.as_str());
        if known.is_none() {
            let ghost before = keys@;
            keys.push((a.name.clone(), copy_str(a.name.as_str())));
            assert(key_views(keys@) =~= key_views(before).push((a.name@, a.name@)));
        } else {
            let ghost j = crate::schema::first_answering(sa, a.name@)->0;
            assert(answers_to(sa[j], a.name@));
        }
        i += 1;
    }
    assert(attrs@.take(attrs@.len() as int) =~= attrs@);
}

/// Whether one of the attributes has type `t` exactly.
fn has_exact_type(v: &Vec<LdapPartialAttribute>, t: &str) -> (r: bool)
    ensures
        r == atypes(attrs_view(v@)).contains(t@),
{
    let ghost a = atypes(attrs_view(v@));
    let mut i: usize = 0;
    while i < v.len()
        invariant
            i <= v@.len(),
            a == atypes(attrs_view(v@)),
            forall|j: int| 0 <= j < i ==> a[j] != t@,
        decreases v@.len() - i,
    {
        if str_eq(v[i].atype.as_str(), t) {
            assert(a[i as int] == t@);
            return true;
        }
        i += 1;
    }
    false
}

/// Keeps each attribute unless one of the same type was kept before.
fn dedup_attributes(v: Vec<LdapPartialAttribute>) -> (r: Vec<LdapPartialAttribute>)
    ensures
        attrs_view(r@) == dedup_atypes(attrs_view(v@)),
{
    let ghost orig = attrs_view(v@);
    let ghost n = v@.len();
    let mut rest = v;
    let total: usize = rest.len();
    let mut out: Vec<LdapPartialAttribute> = Vec::new();
    let mut i: usize = 0;
    assert(orig.take(0) =~= Seq::<(Seq<char>, Seq<Seq<u8>>)>::empty());
    while rest.len() > 0
        invariant
            i <= n,
            n == orig.len(),
            n == total,
            attrs_view(rest@) == orig.skip(i as int),
            attrs_view(out@) == dedup_atypes(orig.take(i as int)),
        decreases rest@.len(),
    {
        let ghost before_rest = rest@;
        let a = rest.remove(0);
        assert(attrs_view(before_rest)[0] == crate::proto::attr_view(a));
        assert(attrs_view(rest@) =~= attrs_view(before_rest).drop_first());
        assert(orig.skip(i as int).drop_first() =~= orig.skip(i + 1));
        assert(orig.take(i + 1).drop_last() =~= orig.take(i as int));
        assert(orig.take(i + 1).last() == orig[i as int]);
        assert(orig[i as int] == orig.skip(i as int)[0]);
        if !has_exact_type(&out, a.atype.as_str()) {
            push_attr(&mut out, a);
        }
        i += 1;
    }
    assert(orig.skip(i as int).len() == 0);
    assert(orig.take(i as int) =~= orig);
    out
}

/// Builds the LDAP entry of a user: its DN, then for each requested key (and,
/// when custom attributes are asked for, each stored attribute the schema does not
/// list) the values the user has, operational attributes only when asked for (then
/// with the missing operational ones added); each attribute type once.
pub fn make_ldap_search_user_result_entry(
    user: User,
    base_dn_str: &str,
    expanded_attributes: ExpandedAttributes,
    groups: Option<&[GroupDetails]>,
    ignored_user_attributes: &[AttributeName],
    schema: &PublicSchema,
) -> (r: LdapSearchResultEntry)
    requires
        forall|i: int|
            0 <= i < entry_keys(
                expanded_attributes.attribute_keys@,
                expanded_attributes.include_custom_attributes,
                user.attributes@,
                attr_views(schema.0.user_attributes.attributes@),
            ).len() ==> !user_star(
                *schema,
                crate::text::lower(
                    (#[trigger] entry_keys(
                        expanded_attributes.attribute_keys@,
                        expanded_attributes.include_custom_attributes,
                        user.attributes@,
                        attr_views(schema.0.user_attributes.attributes@),
                    )[i]).0,
                ),
            ),
    ensures
        user_entry_ok(
            r,
            user,
            base_dn_str@,
            expanded_attributes,
            opt_groups(groups),
            ignored_user_attributes@,
            *schema,
        ),
{
    let ghost kv = entry_keys(
        expanded_attributes.attribute_keys@,
        expanded_attributes.include_custom_attributes,
        user.attributes@,
        attr_views(schema.0.user_attributes.attributes@),
    );
    let include_op = expanded_attributes.include_operational_attributes;
    let mut keys = expanded_attributes.attribute_keys;
    if expanded_attributes.include_custom_attributes {
        add_custom_keys(&mut keys, &user.attributes, &schema.0.user_attributes);
    } else {
        assert(key_views(keys@) =~= kv);
    }
    assert(key_views(keys@) == kv);
    let mgr = get_schema_manager();
    let mut attrs: Vec<LdapPartialAttribute> = Vec::new();
    let mut k: usize = 0;
    while k < keys.len()
        invariant
            k <= keys@.len(),
            key_views(keys@) == kv,
            mgr@ == builtin_map(),
            forall|i: int| 0 <= i < kv.len() ==> !user_star(*schema, crate::text::lower((#[trigger] kv[i]).0)),
            attrs_view(attrs@) == user_entry_attrs(
                kv.take(k as int),
                include_op,
                user,
                base_dn_str@,
                opt_groups(groups),
                ignored_user_attributes@,
                *schema,
            ),
        decreases keys@.len() - k,
    {
        assert(kv.take(k + 1).drop_last() =~= kv.take(k as int));
        assert(kv.take(k + 1).last() == kv[k as int]);
        assert(kv[k as int] == (keys@[k as int].0@, keys@[k as int].1@));
        if !(mgr.is_operational(keys[k].0.as_str()) && !include_op) {
            assert(!user_star(*schema, crate::text::lower(kv[k as int].0)));
            match get_user_attribute(&user, &keys[k].0, base_dn_str, groups, ignored_user_attributes, schema) {
                Some(values) => {
                    push_attr(&mut attrs, LdapPartialAttribute { atype: copy_str(keys[k].1.as_str()), vals: values });
                },
                None => {},
            }
        }
        k += 1;
    }
    assert(kv.take(kv.len() as int) =~= kv);
    if include_op {
        inject_operational_attributes(&mut attrs, "inetOrgPerson", base_dn_str);
    }
    let attributes = dedup_attributes(attrs);
    let ou = get_user_ou(&user);
    let dn = build_user_dn(&user.user_id, ou.as_str(), base_dn_str);
    LdapSearchResultEntry { dn, attributes }
}

/// Builds the LDAP entry of a group, as for users; members are restricted to
/// `user_filter` when given.
pub fn make_ldap_search_group_result_entry(
    group: Group,
    base_dn_str: &str,
    expanded_attributes: ExpandedAttributes,
    user_filter: &Option<UserId>,
    ignored_group_attributes: &[AttributeName],
    schema: &PublicSchema,
) -> (r: LdapSearchResultEntry)
    requires
        forall|i: int|
            0 <= i < entry_keys(
                expanded_attributes.attribute_keys@,
                expanded_attributes.include_custom_attributes,
                group.attributes@,
                attr_views(schema.0.group_attributes.attributes@),
            ).len() ==> !group_star(
                *schema,
                (#[trigger] entry_keys(
                    expanded_attributes.attribute_keys@,
                    expanded_attributes.include_custom_attributes,
                    group.attributes@,
                    attr_views(schema.0.group_attributes.attributes@),
                )[i]).0,
            ),
    ensures
        group_entry_ok(
            r,
            group,
            base_dn_str@,
            expanded_attributes,
            opt_user(*user_filter),
            ignored_group_attributes@,
            *schema,
        ),
{
    let ghost kv = entry_keys(
        expanded_attributes.attribute_keys@,
        expanded_attributes.include_custom_attributes,
        group.attributes@,
        attr_views(schema.0.group_attributes.attributes@),
    );
    let include_op = expanded_attributes.include_operational_attributes;
    let mut keys = expanded_attributes.attribute_keys;
    if expanded_attributes.include_custom_attributes {
        add_custom_keys(&mut keys, &group.attributes, &schema.0.group_attributes);
    } else {
        assert(key_views(keys@) =~= kv);
    }
    assert(key_views(keys@) == kv);
    let mgr = get_schema_manager();
    let mut attrs: Vec<LdapPartialAttribute> = Vec::new();
    let mut k: usize = 0;
    while k < keys.len()
        invariant
            k <= keys@.len(),
            key_views(keys@) == kv,
            mgr@ == builtin_map(),
            forall|i: int| 0 <= i < kv.len() ==> !group_star(*schema, (#[trigger] kv[i]).0),
            attrs_view(attrs@) == group_entry_attrs(
                kv.take(k as int),
                include_op,
                group,
                base_dn_str@,
                opt_user(*user_filter),
                ignored_group_attributes@,
                *schema,
            ),
        decreases keys@.len() - k,
    {
        assert(kv.take(k + 1).drop_last() =~= kv.take(k as int));
        assert(kv.take(k + 1).last() == kv[k as int]);
        assert(kv[k as int] == (keys@[k as int].0@, keys@[k as int].1@));
        if !(mgr.is_operational(keys[k].0.as_str()) && !include_op) {
            assert(!group_star(*schema, kv[k as int].0));
            match get_group_attribute(&group, base_dn_str, &keys[k].0, user_filter, ignored_group_attributes, schema) {
                Some(values) => {
                    push_attr(&mut attrs, LdapPartialAttribute { atype: copy_str(keys[k].1.as_str()), vals: values });
                },
                None => {},
            }
        }
        k += 1;
    }
    assert(kv.take(kv.len() as int) =~= kv);
    if include_op {
        inject_operational_attributes(&mut attrs, "groupOfUniqueNames", base_dn_str);
    }
    let attributes = dedup_attributes(attrs);
    let ou = get_group_ou(&group);
    let dn = build_group_dn(&group.display_name, ou.as_str(), base_dn_str);
    LdapSearchResultEntry { dn, attributes }
}


/// The generalized time of an instant as a value list: one value, its bytes.
pub open spec fn generalized_time_values(d: DateTime) -> Option<Seq<Seq<u8>>> {
    match generalized_time(d.secs, d.nanos) {
        Some(t) => Some(seq![encode_utf8(t)]),
        None => None,
    }
}

/// A user's date columns are served from its own date fields: a name that stands for the
/// creation date (such as `createTimestamp` or `creationDate`) gives the generalized time
/// of the user's creation date, and likewise for the modification and password dates.
pub proof fn user_dates_are_served_from_their_fields(
    user: User,
    name: Seq<char>,
    base: Seq<char>,
    groups: Option<Seq<GroupDetails>>,
    ignored: Seq<AttributeName>,
    schema: PublicSchema,
)
    ensures
        user_field(schema, name) == FieldKind::Primary(UserColumn::CreationDate) ==> user_values(
            user,
            name,
            base,
            groups,
            ignored,
            schema,
        ) == generalized_time_values(user.creation_date),
        user_field(schema, name) == FieldKind::Primary(UserColumn::ModifiedDate) ==> user_values(
            user,
            name,
            base,
            groups,
            ignored,
            schema,
        ) == generalized_time_values(user.modified_date),
        user_field(schema, name) == FieldKind::Primary(UserColumn::PasswordModifiedDate) ==> user_values(
            user,
            name,
            base,
            groups,
            ignored,
            schema,
        ) == generalized_time_values(user.password_modified_date),
{
}


/// A group's dates are served from its own date fields: a name that stands for the
/// creation date gives the generalized time of the group's creation date, one that stands
/// for the modification date that of its modification date.
pub proof fn group_dates_are_served_from_their_fields(
    group: Group,
    name: Seq<char>,
    base: Seq<char>,
    user_filter: Option<Seq<char>>,
    ignored: Seq<AttributeName>,
    schema: PublicSchema,
)
    ensures
        group_field(schema, name) == FieldKind::CreationDate ==> group_values(group, name, base, user_filter, ignored, schema)
            == generalized_time_values(group.creation_date),
        group_field(schema, name) == FieldKind::ModifiedDate ==> group_values(group, name, base, user_filter, ignored, schema)
            == generalized_time_values(group.modified_date),
{
}

} // verus!
