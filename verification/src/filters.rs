//! Turning LDAP search filters into the directory's user and group queries.
//!
//! Conjunctions drop sub-filters that are always true and absorb nested
//! conjunctions; disjunctions do the same with always-false sub-filters and nested
//! disjunctions; a negation of a constant is the other constant.
use vstd::prelude::*;
use crate::deserialize::{deserialize_attribute_value, deserialized};
use crate::dn::{
    dn_target, looks_like_dn, pairs_view, get_group_id_from_distinguished_name_or_plain_name,
    get_user_id_from_distinguished_name_or_plain_name, DnTarget,
};
use crate::proto::{LdapError, LdapFilter, LdapResultCode, SubstringFilter};
use crate::schema::{attr_views, AttrView, AttributeType, PublicSchema};
use crate::schema_manager::{
    get_schema_manager, group_field_of, schema_attr_map, user_field_of, AttrMap, FieldKind,
    GroupFieldType, SchemaManager, UserColumn, UserFieldType,
};
use crate::text::{copy_str, eq_ic, eq_ignore_ascii_case, lower, parse_int, parse_int_spec, push_str, str_eq, to_ascii_lowercase, views};
use crate::types::{AttributeName, AttributeValue, GroupId, GroupName, UserId, Uuid};
use crate::utils::LdapInfo;

verus! {

/// The parts of a substring match, as the directory queries take them.
#[derive(Clone, Debug, PartialEq, Eq)]
pub struct SubStringFilter {
    pub initial: Option<String>,
    pub any: Vec<String>,
    pub final_: Option<String>,
}

/// Whether a query substring match has the parts of an LDAP one.
pub open spec fn same_substrings(x: SubStringFilter, sf: SubstringFilter) -> bool {
    &&& (match (x.initial, sf.initial) {
        (Some(a), Some(b)) => a@ == b@,
        (None, None) => true,
        _ => false,
    })
    &&& views(x.any@) == views(sf.any@)
    &&& (match (x.final_, sf.final_) {
        (Some(a), Some(b)) => a@ == b@,
        (None, None) => true,
        _ => false,
    })
}

fn copy_opt(o: &Option<String>) -> (r: Option<String>)
    ensures
        match (r, *o) {
            (Some(a), Some(b)) => a@ == b@,
            (None, None) => true,
            _ => false,
        },
{
    match o {
        Some(s) => Some(s.clone()),
        None => None,
    }
}

fn copy_strings(v: &Vec<String>) -> (r: Vec<String>)
    ensures
        views(r@) == views(v@),
{
    let mut r: Vec<String> = Vec::new();
    let mut i: usize = 0;
    while i < v.len()
        invariant
            i <= v@.len(),
            views(r@) == views(v@).take(i as int),
        decreases v@.len() - i,
    {
        let ghost before = views(r@);
        r.push(v[i].clone());
        assert(views(r@) =~= before.push(v@[i as int]@));
        assert(views(v@).take(i + 1) =~= views(v@).take(i as int).push(v@[i as int]@));
        i += 1;
    }
    assert(views(v@).take(v@.len() as int) =~= views(v@));
    r
}

/// The substring match of an LDAP substring filter.
pub fn to_sub_string_filter(sf: &SubstringFilter) -> (r: SubStringFilter)
    ensures
        same_substrings(r, *sf),
{
    SubStringFilter { initial: copy_opt(&sf.initial), any: copy_strings(&sf.any), final_: copy_opt(&sf.final_) }
}

/// A query over users.
#[derive(Debug, PartialEq, Eq)]
pub enum UserRequestFilter {
    True,
    False,
    And(Vec<UserRequestFilter>),
    Or(Vec<UserRequestFilter>),
    Not(Box<UserRequestFilter>),
    UserId(UserId),
    UserIdSubString(SubStringFilter),
    Equality(UserColumn, String),
    AttributeEquality(AttributeName, AttributeValue),
    SubString(UserColumn, SubStringFilter),
    MemberOf(GroupName),
    GreaterOrEqual(UserColumn, String),
    LessOrEqual(UserColumn, String),
    AttributeGreaterOrEqual(AttributeName, String),
    AttributeLessOrEqual(AttributeName, String),
    CustomAttributePresent(AttributeName),
}

/// A query over groups.
#[derive(Debug, PartialEq, Eq)]
pub enum GroupRequestFilter {
    True,
    False,
    And(Vec<GroupRequestFilter>),
    Or(Vec<GroupRequestFilter>),
    Not(Box<GroupRequestFilter>),
    GroupId(GroupId),
    DisplayName(GroupName),
    Uuid(Uuid),
    Member(UserId),
    AttributeEquality(AttributeName, AttributeValue),
    GreaterOrEqual(String, String),
    LessOrEqual(String, String),
    AttributeGreaterOrEqual(AttributeName, String),
    AttributeLessOrEqual(AttributeName, String),
    CustomAttributePresent(AttributeName),
    DisplayNameSubString(SubStringFilter),
}

/// The text that a refused filter carries (empty for the others).
pub open spec fn refused_filter_text(f: LdapFilter) -> Seq<char> {
    match f {
        LdapFilter::Approx(_, _, t) => t@,
        LdapFilter::Extensible(t) => t@,
        _ => Seq::<char>::empty(),
    }
}

/// The text that a refused filter carries.
fn refused_filter_string(f: &LdapFilter) -> (r: String)
    ensures
        r@ == refused_filter_text(*f),
{
    match f {
        LdapFilter::Approx(_, _, t) => t.clone(),
        LdapFilter::Extensible(t) => t.clone(),
        _ => String::new(),
    }
}

/// Whether `e` is an `UnwillingToPerform` error with the message `m`.
pub open spec fn unwilling(e: LdapError, m: Seq<char>) -> bool {
    e.code == LdapResultCode::UnwillingToPerform && e.message@ == m
}

fn unwilling_error(m: String) -> (e: LdapError)
    ensures
        e.code == LdapResultCode::UnwillingToPerform,
        e.message == m,
{
    LdapError { code: LdapResultCode::UnwillingToPerform, message: m }
}

// ---------------------------------------------------------------- users

/// The conjunction of the sub-queries (up to the first error): always-true ones
/// dropped, nested conjunctions absorbed.
pub open spec fn user_and_parts(rs: Seq<Result<UserRequestFilter, LdapError>>) -> Result<Seq<UserRequestFilter>, LdapError>
    decreases rs.len(),
{
    if rs.len() == 0 {
        Ok(Seq::empty())
    } else {
        match user_and_parts(rs.drop_last()) {
            Err(e) => Err(e),
            Ok(acc) => match rs.last() {
                Err(e) => Err(e),
                Ok(f) => Ok(match f {
                    UserRequestFilter::True => acc,
                    UserRequestFilter::And(v) => acc + v@,
                    _ => acc.push(f),
                }),
            },
        }
    }
}

/// The disjunction of the sub-queries (up to the first error): always-false ones
/// dropped, nested disjunctions absorbed.
pub open spec fn user_or_parts(rs: Seq<Result<UserRequestFilter, LdapError>>) -> Result<Seq<UserRequestFilter>, LdapError>
    decreases rs.len(),
{
    if rs.len() == 0 {
        Ok(Seq::empty())
    } else {
        match user_or_parts(rs.drop_last()) {
            Err(e) => Err(e),
            Ok(acc) => match rs.last() {
                Err(e) => Err(e),
                Ok(f) => Ok(match f {
                    UserRequestFilter::False => acc,
                    UserRequestFilter::Or(v) => acc + v@,
                    _ => acc.push(f),
                }),
            },
        }
    }
}

/// Whether sub-results were computed in order up to the first error.
pub open spec fn evaluated_up_to_error<T, E>(n: nat, rs: Seq<Result<T, E>>) -> bool {
    &&& rs.len() <= n
    &&& forall|i: int| 0 <= i < rs.len() - 1 ==> (#[trigger] rs[i]) is Ok
    &&& rs.len() < n ==> (rs.len() > 0 && rs.last() is Err)
}

/// The query for an attribute equality: the value as given or lowercased (either
/// may match), or nothing when either cannot be read as a value of the attribute.
pub open spec fn user_attr_equality(n: Seq<char>, t: AttributeType, l: bool, value: Seq<char>, r: Result<UserRequestFilter, LdapError>) -> bool {
    exists|o1: Result<AttributeValue, String>, o2: Result<AttributeValue, String>|
        #[trigger] deserialized(seq![value], t, l, o1) && #[trigger] deserialized(seq![lower(value)], t, l, o2) && match (o1, o2) {
            (Ok(v), Ok(vlc)) => r matches Ok(UserRequestFilter::Or(w)) && w@.len() == 2
                && (w@[0] matches UserRequestFilter::AttributeEquality(a, x) && a@ == n && x == v)
                && (w@[1] matches UserRequestFilter::AttributeEquality(b, y) && b@ == n && y == vlc),
            _ => r matches Ok(UserRequestFilter::False),
        }
}

/// The query for a user equality filter on a field.
pub open spec fn user_equality(base: Seq<(Seq<char>, Seq<char>)>, kind: FieldKind, value: Seq<char>, r: Result<UserRequestFilter, LdapError>) -> bool {
    let vl = lower(value);
    match kind {
        FieldKind::Primary(UserColumn::UserId) => r matches Ok(UserRequestFilter::UserId(u)) && u@ == vl,
        FieldKind::Primary(UserColumn::Email) => r matches Ok(UserRequestFilter::Equality(c, s)) && c == UserColumn::LowercaseEmail && s@ == vl,
        FieldKind::Primary(col) => r matches Ok(UserRequestFilter::Equality(c, s)) && c == col && s@ == vl,
        FieldKind::Attribute(n, t, l) => user_attr_equality(n, t, l, value, r),
        FieldKind::ObjectClass => r matches Ok(UserRequestFilter::And(v)) && v@.len() == 0,
        FieldKind::MemberOf => if !looks_like_dn(vl) {
            r matches Ok(UserRequestFilter::MemberOf(g)) && g@ == vl
        } else {
            match dn_target(vl, base) {
                DnTarget::Group(name) => r matches Ok(UserRequestFilter::MemberOf(g)) && g@ == name,
                _ => r matches Ok(UserRequestFilter::False),
            }
        },
        FieldKind::Dn | FieldKind::EntryDn => if !looks_like_dn(vl) {
            r matches Ok(UserRequestFilter::UserId(u)) && u@ == lower(vl)
        } else {
            match dn_target(vl, base) {
                DnTarget::User(id) => r matches Ok(UserRequestFilter::UserId(u)) && u@ == id,
                _ => r matches Ok(UserRequestFilter::False),
            }
        },
        _ => r matches Ok(UserRequestFilter::False),
    }
}

/// Whether a user column holds a date.
pub open spec fn is_date_column(c: UserColumn) -> bool {
    c == UserColumn::CreationDate || c == UserColumn::ModifiedDate || c == UserColumn::PasswordModifiedDate
}

/// Whether `r` is the user query of LDAP filter `f`, under base DN `base` and with
/// attribute map `m` and the user attributes of the schema.
pub open spec fn user_filter_rel(
    base: Seq<(Seq<char>, Seq<char>)>,
    m: AttrMap,
    ua: Seq<AttrView>,
    f: LdapFilter,
    r: Result<UserRequestFilter, LdapError>,
) -> bool
    decreases f,
{
    match f {
        LdapFilter::And(fs) => exists|rs: Seq<Result<UserRequestFilter, LdapError>>|
            #[trigger] evaluated_up_to_error(fs@.len(), rs) && (forall|i: int| 0 <= i < rs.len() ==> user_filter_rel(base, m, ua, fs@[i], #[trigger] rs[i]))
                && match user_and_parts(rs) {
                    Err(e) => r == Err::<UserRequestFilter, LdapError>(e),
                    Ok(v) => if v.len() == 0 {
                        r matches Ok(UserRequestFilter::True)
                    } else if v.len() == 1 {
                        r == Ok::<UserRequestFilter, LdapError>(v[0])
                    } else {
                        r matches Ok(UserRequestFilter::And(w)) && w@ == v
                    },
                },
        LdapFilter::Or(fs) => exists|rs: Seq<Result<UserRequestFilter, LdapError>>|
            #[trigger] evaluated_up_to_error(fs@.len(), rs) && (forall|i: int| 0 <= i < rs.len() ==> user_filter_rel(base, m, ua, fs@[i], #[trigger] rs[i]))
                && match user_or_parts(rs) {
                    Err(e) => r == Err::<UserRequestFilter, LdapError>(e),
                    Ok(v) => if v.len() == 0 {
                        r matches Ok(UserRequestFilter::False)
                    } else if v.len() == 1 {
                        r == Ok::<UserRequestFilter, LdapError>(v[0])
                    } else {
                        r matches Ok(UserRequestFilter::Or(w)) && w@ == v
                    },
                },
        LdapFilter::Not(g) => match r {
            Err(e) => user_filter_rel(base, m, ua, *g, Err(e)),
            Ok(UserRequestFilter::False) => user_filter_rel(base, m, ua, *g, Ok(UserRequestFilter::True)),
            Ok(UserRequestFilter::True) => user_filter_rel(base, m, ua, *g, Ok(UserRequestFilter::False)),
            Ok(UserRequestFilter::Not(b)) => !(*b is True) && !(*b is False) && user_filter_rel(base, m, ua, *g, Ok(*b)),
            _ => false,
        },
        LdapFilter::Equality(field, value) => user_equality(base, user_field_of(m, ua, lower(field@)), value@, r),
        LdapFilter::GreaterOrEqual(field, value) => match user_field_of(m, ua, lower(field@)) {
            FieldKind::Primary(c) if is_date_column(c) => r matches Ok(UserRequestFilter::GreaterOrEqual(c2, s)) && c2 == c && s@ == value@,
            FieldKind::Attribute(n, AttributeType::DateTime, _) => r matches Ok(UserRequestFilter::AttributeGreaterOrEqual(a, s)) && a@ == n && s@ == value@,
            _ => r matches Err(e) && unwilling(e, "GreaterOrEqual not supported on this attribute: "@ + lower(field@)),
        },
        LdapFilter::LessOrEqual(field, value) => match user_field_of(m, ua, lower(field@)) {
            FieldKind::Primary(c) if is_date_column(c) => r matches Ok(UserRequestFilter::LessOrEqual(c2, s)) && c2 == c && s@ == value@,
            FieldKind::Attribute(n, AttributeType::DateTime, _) => r matches Ok(UserRequestFilter::AttributeLessOrEqual(a, s)) && a@ == n && s@ == value@,
            _ => r matches Err(e) && unwilling(e, "LessOrEqual not supported on this attribute: "@ + lower(field@)),
        },
        LdapFilter::Present(field) => match user_field_of(m, ua, lower(field@)) {
            FieldKind::Attribute(n, _, _) => r matches Ok(UserRequestFilter::CustomAttributePresent(a)) && a@ == n,
            FieldKind::NoMatch => r matches Ok(UserRequestFilter::False),
            _ => r matches Ok(UserRequestFilter::True),
        },
        LdapFilter::Substring(field, sf) => match user_field_of(m, ua, lower(field@)) {
            FieldKind::Primary(UserColumn::UserId) => r matches Ok(UserRequestFilter::UserIdSubString(x)) && same_substrings(x, sf),
            FieldKind::Primary(UserColumn::Email) => r matches Ok(UserRequestFilter::SubString(c, x)) && c == UserColumn::LowercaseEmail && same_substrings(x, sf),
            FieldKind::Primary(UserColumn::CreationDate) | FieldKind::Primary(UserColumn::Uuid) => r matches Err(e) && unwilling(e, "Unsupported user attribute for substring filter: \""@ + lower(field@) + "\""@),
            FieldKind::Primary(col) => r matches Ok(UserRequestFilter::SubString(c, x)) && c == col && same_substrings(x, sf),
            FieldKind::NoMatch => r matches Ok(UserRequestFilter::False),
            _ => r matches Err(e) && unwilling(e, "Unsupported user attribute for substring filter: \""@ + lower(field@) + "\""@),
        },
        _ => r matches Err(e) && unwilling(e, "Unsupported user filter: "@ + refused_filter_text(f)),
    }
}

fn user_attribute_equality_filter(field: &AttributeName, typ: AttributeType, is_list: bool, value: &str) -> (r: UserRequestFilter)
    ensures
        user_attr_equality(field@, typ, is_list, value@, Ok(r)),
{
    let value_lc = to_ascii_lowercase(value);
    let mut one: Vec<String> = Vec::new();
    one.push(copy_str(value));
    let mut one_lc: Vec<String> = Vec::new();
    one_lc.push(copy_str(value_lc.as_str()));
    assert(views(one@) =~= seq![value@]);
    assert(views(one_lc@) =~= seq![lower(value@)]);
    let o1 = deserialize_attribute_value(one.as_slice(), typ, is_list);
    let o2 = deserialize_attribute_value(one_lc.as_slice(), typ, is_list);
    let ghost g1 = o1;
    let ghost g2 = o2;
    let r = match (o1, o2) {
        (Ok(v), Ok(v_lc)) => {
            let mut w: Vec<UserRequestFilter> = Vec::new();
            w.push(UserRequestFilter::AttributeEquality(field.clone(), v));
            w.push(UserRequestFilter::AttributeEquality(field.clone(), v_lc));
            UserRequestFilter::Or(w)
        },
        _ => UserRequestFilter::False,
    };
    assert(deserialized(seq![value@], typ, is_list, g1) && deserialized(seq![lower(value@)], typ, is_list, g2));
    r
}

fn user_equality_filter(ldap_info: &LdapInfo, kind: UserFieldType, value: &str) -> (r: UserRequestFilter)
    ensures
        user_equality(pairs_view(ldap_info.base_dn@), kind@, value@, Ok(r)),
{
    let value_lc = to_ascii_lowercase(value);
    proof {
        crate::text::lemma_lower_idempotent(value@);
    }
    match kind {
        UserFieldType::PrimaryField(UserColumn::UserId) => UserRequestFilter::UserId(UserId::new(value_lc.as_str())),
        UserFieldType::PrimaryField(UserColumn::Email) => UserRequestFilter::Equality(UserColumn::LowercaseEmail, value_lc),
        UserFieldType::PrimaryField(col) => UserRequestFilter::Equality(col, value_lc),
        UserFieldType::Attribute(name, typ, is_list) => user_attribute_equality_filter(&name, typ, is_list, value),
        UserFieldType::NoMatch => UserRequestFilter::False,
        UserFieldType::ObjectClass => UserRequestFilter::And(Vec::new()),
        UserFieldType::MemberOf => match get_group_id_from_distinguished_name_or_plain_name(
            value_lc.as_str(),
            ldap_info.base_dn.as_slice(),
            ldap_info.base_dn_str.as_str(),
        ) {
            Ok(g) => UserRequestFilter::MemberOf(g),
            Err(_) => UserRequestFilter::False,
        },
        UserFieldType::EntryDn | UserFieldType::Dn => match get_user_id_from_distinguished_name_or_plain_name(
            value_lc.as_str(),
            ldap_info.base_dn.as_slice(),
            ldap_info.base_dn_str.as_str(),
        ) {
            Ok(u) => UserRequestFilter::UserId(u),
            Err(_) => UserRequestFilter::False,
        },
        UserFieldType::EntryUuid => UserRequestFilter::False,
    }
}

fn quoted_name_message(prefix: &str, name: &AttributeName) -> (r: String)
    ensures
        r@ == prefix@ + name@ + "\""@,
{
    let mut m = copy_str(prefix);
    push_str(&mut m, name.as_str());
    push_str(&mut m, "\"");
    m
}

fn named_message(prefix: &str, name: &AttributeName) -> (r: String)
    ensures
        r@ == prefix@ + name@,
{
    let mut m = copy_str(prefix);
    push_str(&mut m, name.as_str());
    m
}

fn convert_user_rec(
    ldap_info: &LdapInfo,
    mgr: &SchemaManager,
    schema: &PublicSchema,
    filter: &LdapFilter,
) -> (r: Result<UserRequestFilter, LdapError>)
    ensures
        user_filter_rel(pairs_view(ldap_info.base_dn@), mgr@, attr_views(schema.0.user_attributes.attributes@), *filter, r),
    decreases filter,
{
    let ghost base = pairs_view(ldap_info.base_dn@);
    let ghost m = mgr@;
    let ghost ua = attr_views(schema.0.user_attributes.attributes@);
    match filter {
        LdapFilter::And(filters) => {
            let mut res: Vec<UserRequestFilter> = Vec::new();
            let ghost mut rs: Seq<Result<UserRequestFilter, LdapError>> = Seq::empty();
            let mut i: usize = 0;
            while i < filters.len()
                invariant
                    i <= filters@.len(),
                    *filter == LdapFilter::And(*filters),
                    base == pairs_view(ldap_info.base_dn@),
                    m == mgr@,
                    ua == attr_views(schema.0.user_attributes.attributes@),
                    rs.len() == i,
                    forall|j: int| 0 <= j < i ==> (#[trigger] rs[j]) is Ok,
                    forall|j: int| 0 <= j < i ==> user_filter_rel(base, m, ua, filters@[j], #[trigger] rs[j]),
                    user_and_parts(rs) == Ok::<Seq<UserRequestFilter>, LdapError>(res@),
                decreases filters@.len() - i,
            {
                proof {
                    let ghost fs = (*filter)->And_0;
                    assert(decreases_to!(*filter => (*filter)->And_0));
                    assert(decreases_to!(fs => fs@));
                    assert(decreases_to!(fs@ => fs@[i as int]));
                    assert(decreases_to!(*filter => filters@[i as int]));
                }
                let sub = convert_user_rec(ldap_info, mgr, schema, &filters[i]);
                let ghost sg = sub;
                let ghost prev = rs;
                proof {
                    rs = rs.push(sg);
                    assert(rs.drop_last() =~= prev);
                }
                match sub {
                    Err(e) => {
                        assert(evaluated_up_to_error(filters@.len(), rs));
                        assert(forall|j: int| 0 <= j < rs.len() ==> user_filter_rel(base, m, ua, filters@[j], #[trigger] rs[j]));
                        return Err(e);
                    },
                    Ok(UserRequestFilter::True) => {},
                    Ok(UserRequestFilter::And(v)) => {
                        let mut v = v;
                        res.append(&mut v);
                    },
                    Ok(g) => {
                        res.push(g);
                    },
                }
                i += 1;
            }
            assert(evaluated_up_to_error(filters@.len(), rs));
            if res.len() == 0 {
                Ok(UserRequestFilter::True)
            } else if res.len() == 1 {
                let x = res.remove(0);
                Ok(x)
            } else {
                Ok(UserRequestFilter::And(res))
            }
        },
        LdapFilter::Or(filters) => {
            let mut res: Vec<UserRequestFilter> = Vec::new();
            let ghost mut rs: Seq<Result<UserRequestFilter, LdapError>> = Seq::empty();
            let mut i: usize = 0;
            while i < filters.len()
                invariant
                    i <= filters@.len(),
                    *filter == LdapFilter::Or(*filters),
                    base == pairs_view(ldap_info.base_dn@),
                    m == mgr@,
                    ua == attr_views(schema.0.user_attributes.attributes@),
                    rs.len() == i,
                    forall|j: int| 0 <= j < i ==> (#[trigger] rs[j]) is Ok,
                    forall|j: int| 0 <= j < i ==> user_filter_rel(base, m, ua, filters@[j], #[trigger] rs[j]),
                    user_or_parts(rs) == Ok::<Seq<UserRequestFilter>, LdapError>(res@),
                decreases filters@.len() - i,
            {
                proof {
                    let ghost fs = (*filter)->Or_0;
                    assert(decreases_to!(*filter => (*filter)->Or_0));
                    assert(decreases_to!(fs => fs@));
                    assert(decreases_to!(fs@ => fs@[i as int]));
                    assert(decreases_to!(*filter => filters@[i as int]));
                }
                let sub = convert_user_rec(ldap_info, mgr, schema, &filters[i]);
                let ghost sg = sub;
                let ghost prev = rs;
                proof {
                    rs = rs.push(sg);
                    assert(rs.drop_last() =~= prev);
                }
                match sub {
                    Err(e) => {
                        assert(evaluated_up_to_error(filters@.len(), rs));
                        assert(forall|j: int| 0 <= j < rs.len() ==> user_filter_rel(base, m, ua, filters@[j], #[trigger] rs[j]));
                        return Err(e);
                    },
                    Ok(UserRequestFilter::False) => {},
                    Ok(UserRequestFilter::Or(v)) => {
                        let mut v = v;
                        res.append(&mut v);
                    },
                    Ok(g) => {
                        res.push(g);
                    },
                }
                i += 1;
            }
            assert(evaluated_up_to_error(filters@.len(), rs));
            if res.len() == 0 {
                Ok(UserRequestFilter::False)
            } else if res.len() == 1 {
                let x = res.remove(0);
                Ok(x)
            } else {
                Ok(UserRequestFilter::Or(res))
            }
        },
        LdapFilter::Not(g) => {
            let sub = convert_user_rec(ldap_info, mgr, schema, g);
            let ghost o = sub;
            proof {
                let gg = (*filter)->Not_0;
                assert(*gg == **g);
                assert(user_filter_rel(base, m, ua, *gg, o));
            }
            let r = match sub {
                Err(e) => Err(e),
                Ok(UserRequestFilter::True) => Ok(UserRequestFilter::False),
                Ok(UserRequestFilter::False) => Ok(UserRequestFilter::True),
                Ok(h) => Ok(UserRequestFilter::Not(Box::new(h))),
            };
            assert(user_filter_rel(base, m, ua, *filter, r));
            r
        },
        LdapFilter::Equality(field, value) => {
            let fname = AttributeName::new(field.as_str());
            let kind = mgr.map_user_field(&fname, schema);
            let r = Ok(user_equality_filter(ldap_info, kind, value.as_str()));
            assert(user_filter_rel(base, m, ua, *filter, r));
            r
        },
        LdapFilter::GreaterOrEqual(field, value) => {
            let fname = AttributeName::new(field.as_str());
            let r = match mgr.map_user_field(&fname, schema) {
                UserFieldType::PrimaryField(c) => {
                    if c == UserColumn::CreationDate || c == UserColumn::ModifiedDate || c == UserColumn::PasswordModifiedDate {
                        Ok(UserRequestFilter::GreaterOrEqual(c, value.clone()))
                    } else {
                        Err(unwilling_error(named_message("GreaterOrEqual not supported on this attribute: ", &fname)))
                    }
                },
                UserFieldType::Attribute(name, AttributeType::DateTime, _) => Ok(
                    UserRequestFilter::AttributeGreaterOrEqual(name, value.clone()),
                ),
                _ => Err(unwilling_error(named_message("GreaterOrEqual not supported on this attribute: ", &fname))),
            };
            assert(user_filter_rel(base, m, ua, *filter, r));
            r
        },
        LdapFilter::LessOrEqual(field, value) => {
            let fname = AttributeName::new(field.as_str());
            let r = match mgr.map_user_field(&fname, schema) {
                UserFieldType::PrimaryField(c) => {
                    if c == UserColumn::CreationDate || c == UserColumn::ModifiedDate || c == UserColumn::PasswordModifiedDate {
                        Ok(UserRequestFilter::LessOrEqual(c, value.clone()))
                    } else {
                        Err(unwilling_error(named_message("LessOrEqual not supported on this attribute: ", &fname)))
                    }
                },
                UserFieldType::Attribute(name, AttributeType::DateTime, _) => Ok(
                    UserRequestFilter::AttributeLessOrEqual(name, value.clone()),
                ),
                _ => Err(unwilling_error(named_message("LessOrEqual not supported on this attribute: ", &fname))),
            };
            assert(user_filter_rel(base, m, ua, *filter, r));
            r
        },
        LdapFilter::Present(field) => {
            let fname = AttributeName::new(field.as_str());
            Ok(
                match mgr.map_user_field(&fname, schema) {
                    UserFieldType::Attribute(name, _, _) => UserRequestFilter::CustomAttributePresent(name),
                    UserFieldType::NoMatch => UserRequestFilter::False,
                    _ => UserRequestFilter::True,
                },
            )
        },
        LdapFilter::Substring(field, sf) => {
            let fname = AttributeName::new(field.as_str());
            let r = match mgr.map_user_field(&fname, schema) {
                UserFieldType::PrimaryField(UserColumn::UserId) => Ok(UserRequestFilter::UserIdSubString(to_sub_string_filter(sf))),
                UserFieldType::PrimaryField(UserColumn::Email) => Ok(
                    UserRequestFilter::SubString(UserColumn::LowercaseEmail, to_sub_string_filter(sf)),
                ),
                UserFieldType::PrimaryField(UserColumn::CreationDate) | UserFieldType::PrimaryField(UserColumn::Uuid) => Err(
                    unwilling_error(quoted_name_message("Unsupported user attribute for substring filter: \"", &fname)),
                ),
                UserFieldType::PrimaryField(col) => Ok(UserRequestFilter::SubString(col, to_sub_string_filter(sf))),
                UserFieldType::NoMatch => Ok(UserRequestFilter::False),
                _ => Err(unwilling_error(quoted_name_message("Unsupported user attribute for substring filter: \"", &fname))),
            };
            assert(user_filter_rel(base, m, ua, *filter, r));
            r
        },
        _ => {
            let mut msg = copy_str("Unsupported user filter: ");
            let d = refused_filter_string(filter);
            push_str(&mut msg, d.as_str());
            let r = Err(unwilling_error(msg));
            assert(user_filter_rel(base, m, ua, *filter, r));
            r
        },
    }
}

/// The user query of an LDAP filter. Field names are resolved with the attribute map
/// of the built-in schema, then with the user attributes of `schema`.
pub fn convert_user_filter(ldap_info: &LdapInfo, filter: &LdapFilter, schema: &PublicSchema) -> (r: Result<UserRequestFilter, LdapError>)
    ensures
        user_filter_rel(
            pairs_view(ldap_info.base_dn@),
            schema_attr_map(crate::schema::builtin_user_attributes(), crate::schema::builtin_group_attributes()),
            attr_views(schema.0.user_attributes.attributes@),
            *filter,
            r,
        ),
{
    let mgr = get_schema_manager();
    convert_user_rec(ldap_info, &mgr, schema, filter)
}

// ---------------------------------------------------------------- laws on user filters

/// Whether two results agree on failing: both fail, with the same code and message,
/// or both succeed.
pub open spec fn same_failure<T>(a: Result<T, LdapError>, b: Result<T, LdapError>) -> bool {
    match (a, b) {
        (Err(x), Err(y)) => x.code == y.code && x.message@ == y.message@,
        (Ok(_), Ok(_)) => true,
        _ => false,
    }
}

proof fn lemma_user_parts_same_failure(rs1: Seq<Result<UserRequestFilter, LdapError>>, rs2: Seq<Result<UserRequestFilter, LdapError>>)
    requires
        rs1.len() == rs2.len(),
        forall|i: int| 0 <= i < rs1.len() ==> same_failure(#[trigger] rs1[i], rs2[i]),
    ensures
        same_failure(user_and_parts(rs1), user_and_parts(rs2)),
        same_failure(user_or_parts(rs1), user_or_parts(rs2)),
    decreases rs1.len(),
{
    if rs1.len() > 0 {
        let (a, b) = (rs1.drop_last(), rs2.drop_last());
        assert forall|i: int| 0 <= i < a.len() implies same_failure(#[trigger] a[i], b[i]) by {
            assert(same_failure(rs1[i], rs2[i]));
        }
        lemma_user_parts_same_failure(a, b);
        assert(same_failure(rs1[rs1.len() - 1], rs2[rs2.len() - 1]));
    }
}

/// What the sub-filter of a negation gave, read back from the negation's result.
pub open spec fn user_negated(r: Result<UserRequestFilter, LdapError>) -> Result<UserRequestFilter, LdapError> {
    match r {
        Ok(UserRequestFilter::False) => Ok(UserRequestFilter::True),
        Ok(UserRequestFilter::True) => Ok(UserRequestFilter::False),
        Ok(UserRequestFilter::Not(b)) => Ok(*b),
        _ => r,
    }
}

pub(crate) proof fn lemma_same_length_up_to_error<T>(n: nat, rs1: Seq<Result<T, LdapError>>, rs2: Seq<Result<T, LdapError>>)
    requires
        evaluated_up_to_error(n, rs1),
        evaluated_up_to_error(n, rs2),
        forall|i: int| 0 <= i < rs1.len() && i < rs2.len() ==> same_failure(#[trigger] rs1[i], rs2[i]),
    ensures
        rs1.len() == rs2.len(),
{
    if rs1.len() < rs2.len() {
        let k = rs1.len() - 1;
        assert(rs1[k] is Err);
        assert(same_failure(rs1[k], rs2[k]));
        assert(rs2[k] is Ok);
    } else if rs2.len() < rs1.len() {
        let k = rs2.len() - 1;
        assert(rs2[k] is Err);
        assert(same_failure(rs1[k], rs2[k]));
        assert(rs1[k] is Ok);
    }
}

/// Whether a user filter fails, and with which error, is decided by the filter: two
/// results that `convert_user_filter` may give for one filter fail alike.
pub proof fn user_filter_failure_is_determined(
    base: Seq<(Seq<char>, Seq<char>)>,
    m: AttrMap,
    ua: Seq<AttrView>,
    f: LdapFilter,
    r1: Result<UserRequestFilter, LdapError>,
    r2: Result<UserRequestFilter, LdapError>,
)
    requires
        user_filter_rel(base, m, ua, f, r1),
        user_filter_rel(base, m, ua, f, r2),
    ensures
        same_failure(r1, r2),
    decreases f,
{
    match f {
        LdapFilter::And(fs) => {
            let rs1 = choose|rs: Seq<Result<UserRequestFilter, LdapError>>|
                #[trigger] evaluated_up_to_error(fs@.len(), rs) && (forall|i: int| 0 <= i < rs.len() ==> user_filter_rel(base, m, ua, fs@[i], #[trigger] rs[i]))
                    && match user_and_parts(rs) {
                        Err(e) => r1 == Err::<UserRequestFilter, LdapError>(e),
                        Ok(v) => if v.len() == 0 {
                            r1 matches Ok(UserRequestFilter::True)
                        } else if v.len() == 1 {
                            r1 == Ok::<UserRequestFilter, LdapError>(v[0])
                        } else {
                            r1 matches Ok(UserRequestFilter::And(w)) && w@ == v
                        },
                    };
            let rs2 = choose|rs: Seq<Result<UserRequestFilter, LdapError>>|
                #[trigger] evaluated_up_to_error(fs@.len(), rs) && (forall|i: int| 0 <= i < rs.len() ==> user_filter_rel(base, m, ua, fs@[i], #[trigger] rs[i]))
                    && match user_and_parts(rs) {
                        Err(e) => r2 == Err::<UserRequestFilter, LdapError>(e),
                        Ok(v) => if v.len() == 0 {
                            r2 matches Ok(UserRequestFilter::True)
                        } else if v.len() == 1 {
                            r2 == Ok::<UserRequestFilter, LdapError>(v[0])
                        } else {
                            r2 matches Ok(UserRequestFilter::And(w)) && w@ == v
                        },
                    };
            assert forall|i: int| 0 <= i < rs1.len() && i < rs2.len() implies same_failure(#[trigger] rs1[i], rs2[i]) by {
                assert(decreases_to!(f => f->And_0));
                assert(decreases_to!(fs => fs@));
                assert(decreases_to!(fs@ => fs@[i]));
                user_filter_failure_is_determined(base, m, ua, fs@[i], rs1[i], rs2[i]);
            }
            lemma_same_length_up_to_error(fs@.len(), rs1, rs2);
            lemma_user_parts_same_failure(rs1, rs2);
        },
        LdapFilter::Or(fs) => {
            let rs1 = choose|rs: Seq<Result<UserRequestFilter, LdapError>>|
                #[trigger] evaluated_up_to_error(fs@.len(), rs) && (forall|i: int| 0 <= i < rs.len() ==> user_filter_rel(base, m, ua, fs@[i], #[trigger] rs[i]))
                    && match user_or_parts(rs) {
                        Err(e) => r1 == Err::<UserRequestFilter, LdapError>(e),
                        Ok(v) => if v.len() == 0 {
                            r1 matches Ok(UserRequestFilter::False)
                        } else if v.len() == 1 {
                            r1 == Ok::<UserRequestFilter, LdapError>(v[0])
                        } else {
                            r1 matches Ok(UserRequestFilter::Or(w)) && w@ == v
                        },
                    };
            let rs2 = choose|rs: Seq<Result<UserRequestFilter, LdapError>>|
                #[trigger] evaluated_up_to_error(fs@.len(), rs) && (forall|i: int| 0 <= i < rs.len() ==> user_filter_rel(base, m, ua, fs@[i], #[trigger] rs[i]))
                    && match user_or_parts(rs) {
                        Err(e) => r2 == Err::<UserRequestFilter, LdapError>(e),
                        Ok(v) => if v.len() == 0 {
                            r2 matches Ok(UserRequestFilter::False)
                        } else if v.len() == 1 {
                            r2 == Ok::<UserRequestFilter, LdapError>(v[0])
                        } else {
                            r2 matches Ok(UserRequestFilter::Or(w)) && w@ == v
                        },
                    };
            assert forall|i: int| 0 <= i < rs1.len() && i < rs2.len() implies same_failure(#[trigger] rs1[i], rs2[i]) by {
                assert(decreases_to!(f => f->Or_0));
                assert(decreases_to!(fs => fs@));
                assert(decreases_to!(fs@ => fs@[i]));
                user_filter_failure_is_determined(base, m, ua, fs@[i], rs1[i], rs2[i]);
            }
            lemma_same_length_up_to_error(fs@.len(), rs1, rs2);
            lemma_user_parts_same_failure(rs1, rs2);
        },
        LdapFilter::Not(g) => {
            assert(decreases_to!(f => f->Not_0));
            user_filter_failure_is_determined(base, m, ua, *g, user_negated(r1), user_negated(r2));
        },
        _ => {},
    }
}

/// An empty conjunction is always true and an empty disjunction never.
pub proof fn user_filter_empty_and_or(base: Seq<(Seq<char>, Seq<char>)>, m: AttrMap, ua: Seq<AttrView>, fs: Vec<LdapFilter>, r: Result<UserRequestFilter, LdapError>)
    requires
        fs@.len() == 0,
    ensures
        user_filter_rel(base, m, ua, LdapFilter::And(fs), r) ==> r matches Ok(UserRequestFilter::True),
        user_filter_rel(base, m, ua, LdapFilter::Or(fs), r) ==> r matches Ok(UserRequestFilter::False),
{
    let e: Seq<Result<UserRequestFilter, LdapError>> = Seq::empty();
    assert(user_and_parts(e) == Ok::<Seq<UserRequestFilter>, LdapError>(Seq::empty()));
    assert(user_or_parts(e) == Ok::<Seq<UserRequestFilter>, LdapError>(Seq::empty()));
    assert forall|rs: Seq<Result<UserRequestFilter, LdapError>>| #[trigger] evaluated_up_to_error(0, rs) implies rs =~= e by {}
}

/// Whether a user query is in the shape that conversion gives: conjunctions hold no
/// always-true part and no nested conjunction, disjunctions no always-false part and no
/// nested disjunction, and a negation never negates a constant.
pub open spec fn user_normal(f: UserRequestFilter) -> bool
    decreases f,
{
    match f {
        UserRequestFilter::And(v) => forall|i: int|
            0 <= i < v@.len() ==> !(#[trigger] v@[i] is True) && !(v@[i] is And) && user_normal(v@[i]),
        UserRequestFilter::Or(v) => forall|i: int|
            0 <= i < v@.len() ==> !(#[trigger] v@[i] is False) && !(v@[i] is Or) && user_normal(v@[i]),
        UserRequestFilter::Not(b) => !(*b is True) && !(*b is False) && user_normal(*b),
        _ => true,
    }
}

/// Whether every query that a result holds is in normal shape.
pub open spec fn user_result_normal(r: Result<UserRequestFilter, LdapError>) -> bool {
    r matches Ok(x) ==> user_normal(x)
}

proof fn lemma_user_parts_normal(rs: Seq<Result<UserRequestFilter, LdapError>>)
    requires
        forall|i: int| 0 <= i < rs.len() ==> user_result_normal(#[trigger] rs[i]),
    ensures
        user_and_parts(rs) matches Ok(v) ==> forall|j: int|
            0 <= j < v.len() ==> !(#[trigger] v[j] is True) && !(v[j] is And) && user_normal(v[j]),
        user_or_parts(rs) matches Ok(v) ==> forall|j: int|
            0 <= j < v.len() ==> !(#[trigger] v[j] is False) && !(v[j] is Or) && user_normal(v[j]),
    decreases rs.len(),
{
    if rs.len() > 0 {
        let a = rs.drop_last();
        assert forall|i: int| 0 <= i < a.len() implies user_result_normal(#[trigger] a[i]) by {
            assert(user_result_normal(rs[i]));
        }
        lemma_user_parts_normal(a);
        assert(user_result_normal(rs[rs.len() - 1]));
    }
}

/// Every query that `convert_user_filter` gives is in normal shape.
pub proof fn user_filter_results_are_normal(
    base: Seq<(Seq<char>, Seq<char>)>,
    m: AttrMap,
    ua: Seq<AttrView>,
    f: LdapFilter,
    r: Result<UserRequestFilter, LdapError>,
)
    requires
        user_filter_rel(base, m, ua, f, r),
    ensures
        user_result_normal(r),
    decreases f,
{
    match f {
        LdapFilter::And(fs) => {
            let rs = choose|rs: Seq<Result<UserRequestFilter, LdapError>>|
                #[trigger] evaluated_up_to_error(fs@.len(), rs) && (forall|i: int| 0 <= i < rs.len() ==> user_filter_rel(base, m, ua, fs@[i], #[trigger] rs[i]))
                    && match user_and_parts(rs) {
                        Err(e) => r == Err::<UserRequestFilter, LdapError>(e),
                        Ok(v) => if v.len() == 0 {
                            r matches Ok(UserRequestFilter::True)
                        } else if v.len() == 1 {
                            r == Ok::<UserRequestFilter, LdapError>(v[0])
                        } else {
                            r matches Ok(UserRequestFilter::And(w)) && w@ == v
                        },
                    };
            assert forall|i: int| 0 <= i < rs.len() implies user_result_normal(#[trigger] rs[i]) by {
                assert(decreases_to!(f => f->And_0));
                assert(decreases_to!(fs => fs@));
                assert(decreases_to!(fs@ => fs@[i]));
                user_filter_results_are_normal(base, m, ua, fs@[i], rs[i]);
            }
            lemma_user_parts_normal(rs);
            if let Ok(v) = user_and_parts(rs) {
                if v.len() >= 2 {
                    let w = r->Ok_0->And_0;
                    assert(w@ == v);
                    assert forall|j: int| 0 <= j < w@.len() implies !(#[trigger] w@[j] is True) && !(w@[j] is And)
                        && user_normal(w@[j]) by {
                        assert(w@[j] == v[j]);
                    }
                }
            }
        },
        LdapFilter::Or(fs) => {
            let rs = choose|rs: Seq<Result<UserRequestFilter, LdapError>>|
                #[trigger] evaluated_up_to_error(fs@.len(), rs) && (forall|i: int| 0 <= i < rs.len() ==> user_filter_rel(base, m, ua, fs@[i], #[trigger] rs[i]))
                    && match user_or_parts(rs) {
                        Err(e) => r == Err::<UserRequestFilter, LdapError>(e),
                        Ok(v) => if v.len() == 0 {
                            r matches Ok(UserRequestFilter::False)
                        } else if v.len() == 1 {
                            r == Ok::<UserRequestFilter, LdapError>(v[0])
                        } else {
                            r matches Ok(UserRequestFilter::Or(w)) && w@ == v
                        },
                    };
            assert forall|i: int| 0 <= i < rs.len() implies user_result_normal(#[trigger] rs[i]) by {
                assert(decreases_to!(f => f->Or_0));
                assert(decreases_to!(fs => fs@));
                assert(decreases_to!(fs@ => fs@[i]));
                user_filter_results_are_normal(base, m, ua, fs@[i], rs[i]);
            }
            lemma_user_parts_normal(rs);
        },
        LdapFilter::Not(g) => {
            assert(decreases_to!(f => f->Not_0));
            user_filter_results_are_normal(base, m, ua, *g, user_negated(r));
        },
        LdapFilter::Equality(field, value) => {
            if let FieldKind::Attribute(n, t, l) = user_field_of(m, ua, lower(field@)) {
                let (o1, o2) = choose|o1: Result<AttributeValue, String>, o2: Result<AttributeValue, String>|
                    #[trigger] deserialized(seq![value@], t, l, o1) && #[trigger] deserialized(seq![lower(value@)], t, l, o2) && match (o1, o2) {
                        (Ok(v), Ok(vlc)) => r matches Ok(UserRequestFilter::Or(w)) && w@.len() == 2
                            && (w@[0] matches UserRequestFilter::AttributeEquality(a, x) && a@ == n && x == v)
                            && (w@[1] matches UserRequestFilter::AttributeEquality(b, y) && b@ == n && y == vlc),
                        _ => r matches Ok(UserRequestFilter::False),
                    };
                if let Ok(UserRequestFilter::Or(w)) = r {
                    assert forall|j: int| 0 <= j < w@.len() implies !(#[trigger] w@[j] is False) && !(w@[j] is Or)
                        && user_normal(w@[j]) by {
                        if j == 0 {} else {}
                    }
                }
            }
        },
        _ => {},
    }
}

/// A conjunction that conversion keeps as a conjunction has at least two parts, none
/// of them always true or itself a conjunction; dually for disjunctions.
pub proof fn user_filter_and_or_shape(
    base: Seq<(Seq<char>, Seq<char>)>,
    m: AttrMap,
    ua: Seq<AttrView>,
    fs: Vec<LdapFilter>,
    r: Result<UserRequestFilter, LdapError>,
)
    ensures
        user_filter_rel(base, m, ua, LdapFilter::And(fs), r) ==> (r matches Ok(UserRequestFilter::And(w)) ==> w@.len()
            >= 2 && forall|i: int| 0 <= i < w@.len() ==> !(#[trigger] w@[i] is True) && !(w@[i] is And)),
        user_filter_rel(base, m, ua, LdapFilter::Or(fs), r) ==> (r matches Ok(UserRequestFilter::Or(w)) ==> w@.len()
            >= 2 && forall|i: int| 0 <= i < w@.len() ==> !(#[trigger] w@[i] is False) && !(w@[i] is Or)),
{
    let f = LdapFilter::And(fs);
    if user_filter_rel(base, m, ua, f, r) {
        let rs = choose|rs: Seq<Result<UserRequestFilter, LdapError>>|
            #[trigger] evaluated_up_to_error(fs@.len(), rs) && (forall|i: int| 0 <= i < rs.len() ==> user_filter_rel(base, m, ua, fs@[i], #[trigger] rs[i]))
                && match user_and_parts(rs) {
                    Err(e) => r == Err::<UserRequestFilter, LdapError>(e),
                    Ok(v) => if v.len() == 0 {
                        r matches Ok(UserRequestFilter::True)
                    } else if v.len() == 1 {
                        r == Ok::<UserRequestFilter, LdapError>(v[0])
                    } else {
                        r matches Ok(UserRequestFilter::And(w)) && w@ == v
                    },
                };
        assert forall|i: int| 0 <= i < rs.len() implies user_result_normal(#[trigger] rs[i]) by {
            user_filter_results_are_normal(base, m, ua, fs@[i], rs[i]);
        }
        lemma_user_parts_normal(rs);
    }
    let g = LdapFilter::Or(fs);
    if user_filter_rel(base, m, ua, g, r) {
        let rs = choose|rs: Seq<Result<UserRequestFilter, LdapError>>|
            #[trigger] evaluated_up_to_error(fs@.len(), rs) && (forall|i: int| 0 <= i < rs.len() ==> user_filter_rel(base, m, ua, fs@[i], #[trigger] rs[i]))
                && match user_or_parts(rs) {
                    Err(e) => r == Err::<UserRequestFilter, LdapError>(e),
                    Ok(v) => if v.len() == 0 {
                        r matches Ok(UserRequestFilter::False)
                    } else if v.len() == 1 {
                        r == Ok::<UserRequestFilter, LdapError>(v[0])
                    } else {
                        r matches Ok(UserRequestFilter::Or(w)) && w@ == v
                    },
                };
        assert forall|i: int| 0 <= i < rs.len() implies user_result_normal(#[trigger] rs[i]) by {
            user_filter_results_are_normal(base, m, ua, fs@[i], rs[i]);
        }
        lemma_user_parts_normal(rs);
    }
}

proof fn lemma_user_parts_fail(rs: Seq<Result<UserRequestFilter, LdapError>>, k: int)
    requires
        0 <= k < rs.len(),
        rs[k] is Err,
    ensures
        user_and_parts(rs) is Err,
        user_or_parts(rs) is Err,
    decreases rs.len(),
{
    if k < rs.len() - 1 {
        lemma_user_parts_fail(rs.drop_last(), k);
    }
}

/// A conjunction or disjunction with a part that fails, fails.
pub proof fn user_filter_part_failure_fails(
    base: Seq<(Seq<char>, Seq<char>)>,
    m: AttrMap,
    ua: Seq<AttrView>,
    fs: Vec<LdapFilter>,
    k: int,
    e: LdapError,
    r: Result<UserRequestFilter, LdapError>,
)
    requires
        0 <= k < fs@.len(),
        user_filter_rel(base, m, ua, fs@[k], Err(e)),
    ensures
        user_filter_rel(base, m, ua, LdapFilter::And(fs), r) ==> r is Err,
        user_filter_rel(base, m, ua, LdapFilter::Or(fs), r) ==> r is Err,
{
    if user_filter_rel(base, m, ua, LdapFilter::And(fs), r) {
        let rs = choose|rs: Seq<Result<UserRequestFilter, LdapError>>|
            #[trigger] evaluated_up_to_error(fs@.len(), rs) && (forall|i: int| 0 <= i < rs.len() ==> user_filter_rel(base, m, ua, fs@[i], #[trigger] rs[i]))
                && match user_and_parts(rs) {
                    Err(e) => r == Err::<UserRequestFilter, LdapError>(e),
                    Ok(v) => if v.len() == 0 {
                        r matches Ok(UserRequestFilter::True)
                    } else if v.len() == 1 {
                        r == Ok::<UserRequestFilter, LdapError>(v[0])
                    } else {
                        r matches Ok(UserRequestFilter::And(w)) && w@ == v
                    },
                };
        if k < rs.len() {
            user_filter_failure_is_determined(base, m, ua, fs@[k], rs[k], Err(e));
            lemma_user_parts_fail(rs, k);
        } else {
            lemma_user_parts_fail(rs, rs.len() - 1);
        }
    }
    if user_filter_rel(base, m, ua, LdapFilter::Or(fs), r) {
        let rs = choose|rs: Seq<Result<UserRequestFilter, LdapError>>|
            #[trigger] evaluated_up_to_error(fs@.len(), rs) && (forall|i: int| 0 <= i < rs.len() ==> user_filter_rel(base, m, ua, fs@[i], #[trigger] rs[i]))
                && match user_or_parts(rs) {
                    Err(e) => r == Err::<UserRequestFilter, LdapError>(e),
                    Ok(v) => if v.len() == 0 {
                        r matches Ok(UserRequestFilter::False)
                    } else if v.len() == 1 {
                        r == Ok::<UserRequestFilter, LdapError>(v[0])
                    } else {
                        r matches Ok(UserRequestFilter::Or(w)) && w@ == v
                    },
                };
        if k < rs.len() {
            user_filter_failure_is_determined(base, m, ua, fs@[k], rs[k], Err(e));
            lemma_user_parts_fail(rs, k);
        } else {
            lemma_user_parts_fail(rs, rs.len() - 1);
        }
    }
}

/// A negation fails exactly as the negated filter does, turns always-true into
/// always-false and back, and otherwise negates the negated filter's query.
pub proof fn user_filter_not(
    base: Seq<(Seq<char>, Seq<char>)>,
    m: AttrMap,
    ua: Seq<AttrView>,
    g: LdapFilter,
    r: Result<UserRequestFilter, LdapError>,
)
    requires
        user_filter_rel(base, m, ua, LdapFilter::Not(Box::new(g)), r),
    ensures
        user_filter_rel(base, m, ua, g, user_negated(r)),
        user_negated(r) matches Ok(UserRequestFilter::True) ==> r == Ok::<UserRequestFilter, LdapError>(UserRequestFilter::False),
        user_negated(r) matches Ok(UserRequestFilter::False) ==> r == Ok::<UserRequestFilter, LdapError>(UserRequestFilter::True),
        user_negated(r) is Err ==> r == user_negated(r),
{
}

// ---------------------------------------------------------------- groups

/// The canonical text of a UUID, or the reason it is none.
pub uninterp spec fn uuid_parse(s: Seq<char>) -> Result<Seq<char>, Seq<char>>;

/// Parses a UUID and gives its canonical (hyphenated, lowercase) text
/// (`uuid::Uuid::parse_str`, then `to_string`); the error is the parser's message.
#[verifier::external_body]
fn parse_uuid(s: &str) -> (r: Result<String, String>)
    ensures
        match (r, uuid_parse(s@)) {
            (Ok(a), Ok(b)) => a@ == b,
            (Err(a), Err(b)) => a@ == b,
            _ => false,
        },
{
    match uuid::Uuid::parse_str(s) {
        Ok(u) => Ok(u.to_string()),
        Err(e) => Err(e.to_string()),
    }
}

/// The conjunction of group sub-queries (up to the first error).
pub open spec fn group_and_parts(rs: Seq<Result<GroupRequestFilter, LdapError>>) -> Result<Seq<GroupRequestFilter>, LdapError>
    decreases rs.len(),
{
    if rs.len() == 0 {
        Ok(Seq::empty())
    } else {
        match group_and_parts(rs.drop_last()) {
            Err(e) => Err(e),
            Ok(acc) => match rs.last() {
                Err(e) => Err(e),
                Ok(f) => Ok(match f {
                    GroupRequestFilter::True => acc,
                    GroupRequestFilter::And(v) => acc + v@,
                    _ => acc.push(f),
                }),
            },
        }
    }
}

/// The disjunction of group sub-queries (up to the first error).
pub open spec fn group_or_parts(rs: Seq<Result<GroupRequestFilter, LdapError>>) -> Result<Seq<GroupRequestFilter>, LdapError>
    decreases rs.len(),
{
    if rs.len() == 0 {
        Ok(Seq::empty())
    } else {
        match group_or_parts(rs.drop_last()) {
            Err(e) => Err(e),
            Ok(acc) => match rs.last() {
                Err(e) => Err(e),
                Ok(f) => Ok(match f {
                    GroupRequestFilter::False => acc,
                    GroupRequestFilter::Or(v) => acc + v@,
                    _ => acc.push(f),
                }),
            },
        }
    }
}

/// The group query for an attribute equality (value as given or lowercased).
pub open spec fn group_attr_equality(n: Seq<char>, t: AttributeType, l: bool, value: Seq<char>, r: Result<GroupRequestFilter, LdapError>) -> bool {
    exists|o1: Result<AttributeValue, String>, o2: Result<AttributeValue, String>|
        #[trigger] deserialized(seq![value], t, l, o1) && #[trigger] deserialized(seq![lower(value)], t, l, o2) && match (o1, o2) {
            (Ok(v), Ok(vlc)) => r matches Ok(GroupRequestFilter::Or(w)) && w@.len() == 2
                && (w@[0] matches GroupRequestFilter::AttributeEquality(a, x) && a@ == n && x == v)
                && (w@[1] matches GroupRequestFilter::AttributeEquality(b, y) && b@ == n && y == vlc),
            _ => r matches Ok(GroupRequestFilter::False),
        }
}

/// The query for a group equality filter on a field.
pub open spec fn group_equality(base: Seq<(Seq<char>, Seq<char>)>, kind: FieldKind, value: Seq<char>, r: Result<GroupRequestFilter, LdapError>) -> bool {
    let vl = lower(value);
    match kind {
        FieldKind::GroupId => match parse_int_spec(vl, i32::MIN as int, i32::MAX as int) {
            Some(n) => r matches Ok(GroupRequestFilter::GroupId(g)) && g.0 == n,
            None => r matches Ok(GroupRequestFilter::False),
        },
        FieldKind::DisplayName => r matches Ok(GroupRequestFilter::DisplayName(g)) && g@ == vl,
        FieldKind::Uuid => match uuid_parse(vl) {
            Ok(u) => r matches Ok(GroupRequestFilter::Uuid(x)) && x.0@ == u,
            Err(msg) => r matches Err(e) && e.code == LdapResultCode::Other && e.message@ == "Invalid UUID: "@ + msg,
        },
        FieldKind::Member => if !looks_like_dn(vl) {
            r matches Ok(GroupRequestFilter::Member(u)) && u@ == lower(vl)
        } else {
            match dn_target(vl, base) {
                DnTarget::User(id) => r matches Ok(GroupRequestFilter::Member(u)) && u@ == id,
                _ => r matches Ok(GroupRequestFilter::False),
            }
        },
        FieldKind::ObjectClass => r matches Ok(GroupRequestFilter::And(v)) && v@.len() == 0,
        FieldKind::Dn | FieldKind::EntryDn => if !looks_like_dn(vl) {
            r matches Ok(GroupRequestFilter::DisplayName(g)) && g@ == vl
        } else {
            match dn_target(vl, base) {
                DnTarget::Group(name) => r matches Ok(GroupRequestFilter::DisplayName(g)) && g@ == name,
                _ => r matches Ok(GroupRequestFilter::False),
            }
        },
        FieldKind::Attribute(n, t, l) => group_attr_equality(n, t, l, value, r),
        FieldKind::CreationDate => r matches Err(e) && unwilling(e, "Creation date filter for groups not supported"@),
        FieldKind::ModifiedDate => r matches Err(e) && unwilling(e, "Modified date filter for groups not supported"@),
        _ => r matches Ok(GroupRequestFilter::False),
    }
}

/// Whether a lowercased object class names a kind of group.
pub open spec fn is_group_class(v: Seq<char>) -> bool {
    v == "groupofuniquenames"@ || v == "groupofnames"@ || v == "posixgroup"@
}

/// Whether `r` is the group query of LDAP filter `f`.
pub open spec fn group_filter_rel(
    base: Seq<(Seq<char>, Seq<char>)>,
    m: AttrMap,
    ga: Seq<AttrView>,
    f: LdapFilter,
    r: Result<GroupRequestFilter, LdapError>,
) -> bool
    decreases f,
{
    match f {
        LdapFilter::Equality(field, value) => if eq_ic(field@, "objectclass"@) {
            if is_group_class(lower(value@)) {
                r matches Ok(GroupRequestFilter::True)
            } else {
                r matches Ok(GroupRequestFilter::False)
            }
        } else {
            group_equality(base, group_field_of(m, ga, lower(field@)), value@, r)
        },
        LdapFilter::GreaterOrEqual(field, value) => match group_field_of(m, ga, lower(field@)) {
            FieldKind::CreationDate | FieldKind::ModifiedDate => r matches Ok(GroupRequestFilter::GreaterOrEqual(a, b)) && a@ == lower(field@) && b@ == value@,
            FieldKind::Attribute(n, AttributeType::DateTime, _) => r matches Ok(GroupRequestFilter::AttributeGreaterOrEqual(a, s)) && a@ == n && s@ == value@,
            _ => r matches Err(e) && unwilling(e, "GreaterOrEqual not supported on this attribute: "@ + lower(field@)),
        },
        LdapFilter::LessOrEqual(field, value) => match group_field_of(m, ga, lower(field@)) {
            FieldKind::CreationDate | FieldKind::ModifiedDate => r matches Ok(GroupRequestFilter::LessOrEqual(a, b)) && a@ == lower(field@) && b@ == value@,
            FieldKind::Attribute(n, AttributeType::DateTime, _) => r matches Ok(GroupRequestFilter::AttributeLessOrEqual(a, s)) && a@ == n && s@ == value@,
            _ => r matches Err(e) && unwilling(e, "LessOrEqual not supported on this attribute: "@ + lower(field@)),
        },
        LdapFilter::And(fs) => exists|rs: Seq<Result<GroupRequestFilter, LdapError>>|
            #[trigger] evaluated_up_to_error(fs@.len(), rs) && (forall|i: int| 0 <= i < rs.len() ==> group_filter_rel(base, m, ga, fs@[i], #[trigger] rs[i]))
                && match group_and_parts(rs) {
                    Err(e) => r == Err::<GroupRequestFilter, LdapError>(e),
                    Ok(v) => if v.len() == 0 {
                        r matches Ok(GroupRequestFilter::True)
                    } else if v.len() == 1 {
                        r == Ok::<GroupRequestFilter, LdapError>(v[0])
                    } else {
                        r matches Ok(GroupRequestFilter::And(w)) && w@ == v
                    },
                },
        LdapFilter::Or(fs) => exists|rs: Seq<Result<GroupRequestFilter, LdapError>>|
            #[trigger] evaluated_up_to_error(fs@.len(), rs) && (forall|i: int| 0 <= i < rs.len() ==> group_filter_rel(base, m, ga, fs@[i], #[trigger] rs[i]))
                && match group_or_parts(rs) {
                    Err(e) => r == Err::<GroupRequestFilter, LdapError>(e),
                    Ok(v) => if v.len() == 0 {
                        r matches Ok(GroupRequestFilter::False)
                    } else if v.len() == 1 {
                        r == Ok::<GroupRequestFilter, LdapError>(v[0])
                    } else {
                        r matches Ok(GroupRequestFilter::Or(w)) && w@ == v
                    },
                },
        LdapFilter::Not(g) => match r {
            Err(e) => group_filter_rel(base, m, ga, *g, Err(e)),
            Ok(GroupRequestFilter::False) => group_filter_rel(base, m, ga, *g, Ok(GroupRequestFilter::True)),
            Ok(GroupRequestFilter::True) => group_filter_rel(base, m, ga, *g, Ok(GroupRequestFilter::False)),
            Ok(GroupRequestFilter::Not(b)) => !(*b is True) && !(*b is False) && group_filter_rel(base, m, ga, *g, Ok(*b)),
            _ => false,
        },
        LdapFilter::Present(field) => match group_field_of(m, ga, lower(field@)) {
            FieldKind::Attribute(n, _, _) => r matches Ok(GroupRequestFilter::CustomAttributePresent(a)) && a@ == n,
            FieldKind::NoMatch => r matches Ok(GroupRequestFilter::False),
            _ => r matches Ok(GroupRequestFilter::True),
        },
        LdapFilter::Substring(field, sf) => match group_field_of(m, ga, lower(field@)) {
            FieldKind::DisplayName => r matches Ok(GroupRequestFilter::DisplayNameSubString(x)) && same_substrings(x, sf),
            FieldKind::NoMatch => r matches Ok(GroupRequestFilter::False),
            _ => r matches Err(e) && unwilling(e, "Unsupported group attribute for substring filter: \""@ + lower(field@) + "\""@),
        },
        _ => r matches Err(e) && unwilling(e, "Unsupported group filter: "@ + refused_filter_text(f)),
    }
}

fn group_attribute_equality_filter(field: &AttributeName, typ: AttributeType, is_list: bool, value: &str) -> (r: GroupRequestFilter)
    ensures
        group_attr_equality(field@, typ, is_list, value@, Ok(r)),
{
    let value_lc = to_ascii_lowercase(value);
    let mut one: Vec<String> = Vec::new();
    one.push(copy_str(value));
    let mut one_lc: Vec<String> = Vec::new();
    one_lc.push(copy_str(value_lc.as_str()));
    assert(views(one@) =~= seq![value@]);
    assert(views(one_lc@) =~= seq![lower(value@)]);
    let o1 = deserialize_attribute_value(one.as_slice(), typ, is_list);
    let o2 = deserialize_attribute_value(one_lc.as_slice(), typ, is_list);
    let ghost g1 = o1;
    let ghost g2 = o2;
    let r = match (o1, o2) {
        (Ok(v), Ok(v_lc)) => {
            let mut w: Vec<GroupRequestFilter> = Vec::new();
            w.push(GroupRequestFilter::AttributeEquality(field.clone(), v));
            w.push(GroupRequestFilter::AttributeEquality(field.clone(), v_lc));
            GroupRequestFilter::Or(w)
        },
        _ => GroupRequestFilter::False,
    };
    assert(deserialized(seq![value@], typ, is_list, g1) && deserialized(seq![lower(value@)], typ, is_list, g2));
    r
}

fn group_equality_filter(ldap_info: &LdapInfo, kind: GroupFieldType, value: &str) -> (r: Result<GroupRequestFilter, LdapError>)
    ensures
        group_equality(pairs_view(ldap_info.base_dn@), kind@, value@, r),
{
    let value_lc = to_ascii_lowercase(value);
    proof {
        crate::text::lemma_lower_idempotent(value@);
    }
    match kind {
        GroupFieldType::GroupId => match parse_int(value_lc.as_str(), -2147483648i64, 2147483647i64) {
            Some(n) => Ok(GroupRequestFilter::GroupId(GroupId(n as i32))),
            None => Ok(GroupRequestFilter::False),
        },
        GroupFieldType::DisplayName => Ok(GroupRequestFilter::DisplayName(GroupName::new(value_lc.as_str()))),
        GroupFieldType::Uuid => match parse_uuid(value_lc.as_str()) {
            Ok(u) => Ok(GroupRequestFilter::Uuid(Uuid(u))),
            Err(msg) => {
                let mut m = copy_str("Invalid UUID: ");
                push_str(&mut m, msg.as_str());
                Err(LdapError { code: LdapResultCode::Other, message: m })
            },
        },
        GroupFieldType::Member => match get_user_id_from_distinguished_name_or_plain_name(
            value_lc.as_str(),
            ldap_info.base_dn.as_slice(),
            ldap_info.base_dn_str.as_str(),
        ) {
            Ok(u) => Ok(GroupRequestFilter::Member(u)),
            Err(_) => Ok(GroupRequestFilter::False),
        },
        GroupFieldType::ObjectClass => Ok(GroupRequestFilter::And(Vec::new())),
        GroupFieldType::Dn | GroupFieldType::EntryDn => match get_group_id_from_distinguished_name_or_plain_name(
            value_lc.as_str(),
            ldap_info.base_dn.as_slice(),
            ldap_info.base_dn_str.as_str(),
        ) {
            Ok(g) => Ok(GroupRequestFilter::DisplayName(g)),
            Err(_) => Ok(GroupRequestFilter::False),
        },
        GroupFieldType::EntryUuid => Ok(GroupRequestFilter::False),
        GroupFieldType::NoMatch => Ok(GroupRequestFilter::False),
        GroupFieldType::Attribute(name, typ, is_list) => Ok(group_attribute_equality_filter(&name, typ, is_list, value)),
        GroupFieldType::CreationDate => Err(unwilling_error(copy_str("Creation date filter for groups not supported"))),
        GroupFieldType::ModifiedDate => Err(unwilling_error(copy_str("Modified date filter for groups not supported"))),
    }
}

fn is_group_class_name(v: &str) -> (r: bool)
    ensures
        r == is_group_class(v@),
{
    str_eq(v, "groupofuniquenames") || str_eq(v, "groupofnames") || str_eq(v, "posixgroup")
}

fn convert_group_rec(
    ldap_info: &LdapInfo,
    mgr: &SchemaManager,
    schema: &PublicSchema,
    filter: &LdapFilter,
) -> (r: Result<GroupRequestFilter, LdapError>)
    ensures
        group_filter_rel(pairs_view(ldap_info.base_dn@), mgr@, attr_views(schema.0.group_attributes.attributes@), *filter, r),
    decreases filter,
{
    let ghost base = pairs_view(ldap_info.base_dn@);
    let ghost m = mgr@;
    let ghost ga = attr_views(schema.0.group_attributes.attributes@);
    match filter {
        LdapFilter::And(filters) => {
            let mut res: Vec<GroupRequestFilter> = Vec::new();
            let ghost mut rs: Seq<Result<GroupRequestFilter, LdapError>> = Seq::empty();
            let mut i: usize = 0;
            while i < filters.len()
                invariant
                    i <= filters@.len(),
                    *filter == LdapFilter::And(*filters),
                    base == pairs_view(ldap_info.base_dn@),
                    m == mgr@,
                    ga == attr_views(schema.0.group_attributes.attributes@),
                    rs.len() == i,
                    forall|j: int| 0 <= j < i ==> (#[trigger] rs[j]) is Ok,
                    forall|j: int| 0 <= j < i ==> group_filter_rel(base, m, ga, filters@[j], #[trigger] rs[j]),
                    group_and_parts(rs) == Ok::<Seq<GroupRequestFilter>, LdapError>(res@),
                decreases filters@.len() - i,
            {
                proof {
                    let ghost fs = (*filter)->And_0;
                    assert(decreases_to!(*filter => (*filter)->And_0));
                    assert(decreases_to!(fs => fs@));
                    assert(decreases_to!(fs@ => fs@[i as int]));
                    assert(decreases_to!(*filter => filters@[i as int]));
                }
                let sub = convert_group_rec(ldap_info, mgr, schema, &filters[i]);
                let ghost sg = sub;
                let ghost prev = rs;
                proof {
                    rs = rs.push(sg);
                    assert(rs.drop_last() =~= prev);
                }
                match sub {
                    Err(e) => {
                        assert(evaluated_up_to_error(filters@.len(), rs));
                        assert(forall|j: int| 0 <= j < rs.len() ==> group_filter_rel(base, m, ga, filters@[j], #[trigger] rs[j]));
                        return Err(e);
                    },
                    Ok(GroupRequestFilter::True) => {},
                    Ok(GroupRequestFilter::And(v)) => {
                        let mut v = v;
                        res.append(&mut v);
                    },
                    Ok(g) => {
                        res.push(g);
                    },
                }
                i += 1;
            }
            assert(evaluated_up_to_error(filters@.len(), rs));
            if res.len() == 0 {
                Ok(GroupRequestFilter::True)
            } else if res.len() == 1 {
                let x = res.remove(0);
                Ok(x)
            } else {
                Ok(GroupRequestFilter::And(res))
            }
        },
        LdapFilter::Or(filters) => {
            let mut res: Vec<GroupRequestFilter> = Vec::new();
            let ghost mut rs: Seq<Result<GroupRequestFilter, LdapError>> = Seq::empty();
            let mut i: usize = 0;
            while i < filters.len()
                invariant
                    i <= filters@.len(),
                    *filter == LdapFilter::Or(*filters),
                    base == pairs_view(ldap_info.base_dn@),
                    m == mgr@,
                    ga == attr_views(schema.0.group_attributes.attributes@),
                    rs.len() == i,
                    forall|j: int| 0 <= j < i ==> (#[trigger] rs[j]) is Ok,
                    forall|j: int| 0 <= j < i ==> group_filter_rel(base, m, ga, filters@[j], #[trigger] rs[j]),
                    group_or_parts(rs) == Ok::<Seq<GroupRequestFilter>, LdapError>(res@),
                decreases filters@.len() - i,
            {
                proof {
                    let ghost fs = (*filter)->Or_0;
                    assert(decreases_to!(*filter => (*filter)->Or_0));
                    assert(decreases_to!(fs => fs@));
                    assert(decreases_to!(fs@ => fs@[i as int]));
                    assert(decreases_to!(*filter => filters@[i as int]));
                }
                let sub = convert_group_rec(ldap_info, mgr, schema, &filters[i]);
                let ghost sg = sub;
                let ghost prev = rs;
                proof {
                    rs = rs.push(sg);
                    assert(rs.drop_last() =~= prev);
                }
                match sub {
                    Err(e) => {
                        assert(evaluated_up_to_error(filters@.len(), rs));
                        assert(forall|j: int| 0 <= j < rs.len() ==> group_filter_rel(base, m, ga, filters@[j], #[trigger] rs[j]));
                        return Err(e);
                    },
                    Ok(GroupRequestFilter::False) => {},
                    Ok(GroupRequestFilter::Or(v)) => {
                        let mut v = v;
                        res.append(&mut v);
                    },
                    Ok(g) => {
                        res.push(g);
                    },
                }
                i += 1;
            }
            assert(evaluated_up_to_error(filters@.len(), rs));
            if res.len() == 0 {
                Ok(GroupRequestFilter::False)
            } else if res.len() == 1 {
                let x = res.remove(0);
                Ok(x)
            } else {
                Ok(GroupRequestFilter::Or(res))
            }
        },
        LdapFilter::Not(g) => {
            let sub = convert_group_rec(ldap_info, mgr, schema, g);
            let ghost o = sub;
            proof {
                let gg = (*filter)->Not_0;
                assert(*gg == **g);
                assert(group_filter_rel(base, m, ga, *gg, o));
            }
            let r = match sub {
                Err(e) => Err(e),
                Ok(GroupRequestFilter::True) => Ok(GroupRequestFilter::False),
                Ok(GroupRequestFilter::False) => Ok(GroupRequestFilter::True),
                Ok(h) => Ok(GroupRequestFilter::Not(Box::new(h))),
            };
            assert(group_filter_rel(base, m, ga, *filter, r));
            r
        },
        LdapFilter::Equality(field, value) => {
            let r = if eq_ignore_ascii_case(field.as_str(), "objectclass") {
                let v = to_ascii_lowercase(value.as_str());
                if is_group_class_name(v.as_str()) {
                    Ok(GroupRequestFilter::True)
                } else {
                    Ok(GroupRequestFilter::False)
                }
            } else {
                let fname = AttributeName::new(field.as_str());
                let kind = mgr.map_group_field(&fname, schema);
                group_equality_filter(ldap_info, kind, value.as_str())
            };
            assert(group_filter_rel(base, m, ga, *filter, r));
            r
        },
        LdapFilter::GreaterOrEqual(field, value) => {
            let fname = AttributeName::new(field.as_str());
            let r = match mgr.map_group_field(&fname, schema) {
                GroupFieldType::CreationDate | GroupFieldType::ModifiedDate => Ok(
                    GroupRequestFilter::GreaterOrEqual(copy_str(fname.as_str()), value.clone()),
                ),
                GroupFieldType::Attribute(name, AttributeType::DateTime, _) => Ok(
                    GroupRequestFilter::AttributeGreaterOrEqual(name, value.clone()),
                ),
                _ => Err(unwilling_error(named_message("GreaterOrEqual not supported on this attribute: ", &fname))),
            };
            assert(group_filter_rel(base, m, ga, *filter, r));
            r
        },
        LdapFilter::LessOrEqual(field, value) => {
            let fname = AttributeName::new(field.as_str());
            let r = match mgr.map_group_field(&fname, schema) {
                GroupFieldType::CreationDate | GroupFieldType::ModifiedDate => Ok(
                    GroupRequestFilter::LessOrEqual(copy_str(fname.as_str()), value.clone()),
                ),
                GroupFieldType::Attribute(name, AttributeType::DateTime, _) => Ok(
                    GroupRequestFilter::AttributeLessOrEqual(name, value.clone()),
                ),
                _ => Err(unwilling_error(named_message("LessOrEqual not supported on this attribute: ", &fname))),
            };
            assert(group_filter_rel(base, m, ga, *filter, r));
            r
        },
        LdapFilter::Present(field) => {
            let fname = AttributeName::new(field.as_str());
            Ok(
                match mgr.map_group_field(&fname, schema) {
                    GroupFieldType::Attribute(name, _, _) => GroupRequestFilter::CustomAttributePresent(name),
                    GroupFieldType::NoMatch => GroupRequestFilter::False,
                    _ => GroupRequestFilter::True,
                },
            )
        },
        LdapFilter::Substring(field, sf) => {
            let fname = AttributeName::new(field.as_str());
            let r = match mgr.map_group_field(&fname, schema) {
                GroupFieldType::DisplayName => Ok(GroupRequestFilter::DisplayNameSubString(to_sub_string_filter(sf))),
                GroupFieldType::NoMatch => Ok(GroupRequestFilter::False),
                _ => Err(unwilling_error(quoted_name_message("Unsupported group attribute for substring filter: \"", &fname))),
            };
            assert(group_filter_rel(base, m, ga, *filter, r));
            r
        },
        _ => {
            let mut msg = copy_str("Unsupported group filter: ");
            let d = refused_filter_string(filter);
            push_str(&mut msg, d.as_str());
            let r = Err(unwilling_error(msg));
            assert(group_filter_rel(base, m, ga, *filter, r));
            r
        },
    }
}

/// The group query of an LDAP filter. Field names are resolved with the attribute
/// map of the built-in schema, then with the group attributes of `schema`.
pub fn convert_group_filter(ldap_info: &LdapInfo, filter: &LdapFilter, schema: &PublicSchema) -> (r: Result<GroupRequestFilter, LdapError>)
    ensures
        group_filter_rel(
            pairs_view(ldap_info.base_dn@),
            schema_attr_map(crate::schema::builtin_user_attributes(), crate::schema::builtin_group_attributes()),
            attr_views(schema.0.group_attributes.attributes@),
            *filter,
            r,
        ),
{
    let mgr = get_schema_manager();
    convert_group_rec(ldap_info, &mgr, schema, filter)
}

// ---------------------------------------------------------------- laws on group filters

proof fn lemma_group_parts_same_failure(rs1: Seq<Result<GroupRequestFilter, LdapError>>, rs2: Seq<Result<GroupRequestFilter, LdapError>>)
    requires
        rs1.len() == rs2.len(),
        forall|i: int| 0 <= i < rs1.len() ==> same_failure(#[trigger] rs1[i], rs2[i]),
    ensures
        same_failure(group_and_parts(rs1), group_and_parts(rs2)),
        same_failure(group_or_parts(rs1), group_or_parts(rs2)),
    decreases rs1.len(),
{
    if rs1.len() > 0 {
        let (a, b) = (rs1.drop_last(), rs2.drop_last());
        assert forall|i: int| 0 <= i < a.len() implies same_failure(#[trigger] a[i], b[i]) by {
            assert(same_failure(rs1[i], rs2[i]));
        }
        lemma_group_parts_same_failure(a, b);
        assert(same_failure(rs1[rs1.len() - 1], rs2[rs2.len() - 1]));
    }
}

/// What the sub-filter of a negation gave, read back from the negation's result.
pub open spec fn group_negated(r: Result<GroupRequestFilter, LdapError>) -> Result<GroupRequestFilter, LdapError> {
    match r {
        Ok(GroupRequestFilter::False) => Ok(GroupRequestFilter::True),
        Ok(GroupRequestFilter::True) => Ok(GroupRequestFilter::False),
        Ok(GroupRequestFilter::Not(b)) => Ok(*b),
        _ => r,
    }
}

/// Whether a group filter fails, and with which error, is decided by the filter: two
/// results that `convert_group_filter` may give for one filter fail alike.
pub proof fn group_filter_failure_is_determined(
    base: Seq<(Seq<char>, Seq<char>)>,
    m: AttrMap,
    ga: Seq<AttrView>,
    f: LdapFilter,
    r1: Result<GroupRequestFilter, LdapError>,
    r2: Result<GroupRequestFilter, LdapError>,
)
    requires
        group_filter_rel(base, m, ga, f, r1),
        group_filter_rel(base, m, ga, f, r2),
    ensures
        same_failure(r1, r2),
    decreases f,
{
    match f {
        LdapFilter::And(fs) => {
            let rs1 = choose|rs: Seq<Result<GroupRequestFilter, LdapError>>|
                #[trigger] evaluated_up_to_error(fs@.len(), rs) && (forall|i: int| 0 <= i < rs.len() ==> group_filter_rel(base, m, ga, fs@[i], #[trigger] rs[i]))
                    && match group_and_parts(rs) {
                        Err(e) => r1 == Err::<GroupRequestFilter, LdapError>(e),
                        Ok(v) => if v.len() == 0 {
                            r1 matches Ok(GroupRequestFilter::True)
                        } else if v.len() == 1 {
                            r1 == Ok::<GroupRequestFilter, LdapError>(v[0])
                        } else {
                            r1 matches Ok(GroupRequestFilter::And(w)) && w@ == v
                        },
                    };
            let rs2 = choose|rs: Seq<Result<GroupRequestFilter, LdapError>>|
                #[trigger] evaluated_up_to_error(fs@.len(), rs) && (forall|i: int| 0 <= i < rs.len() ==> group_filter_rel(base, m, ga, fs@[i], #[trigger] rs[i]))
                    && match group_and_parts(rs) {
                        Err(e) => r2 == Err::<GroupRequestFilter, LdapError>(e),
                        Ok(v) => if v.len() == 0 {
                            r2 matches Ok(GroupRequestFilter::True)
                        } else if v.len() == 1 {
                            r2 == Ok::<GroupRequestFilter, LdapError>(v[0])
                        } else {
                            r2 matches Ok(GroupRequestFilter::And(w)) && w@ == v
                        },
                    };
            assert forall|i: int| 0 <= i < rs1.len() && i < rs2.len() implies same_failure(#[trigger] rs1[i], rs2[i]) by {
                assert(decreases_to!(f => f->And_0));
                assert(decreases_to!(fs => fs@));
                assert(decreases_to!(fs@ => fs@[i]));
                group_filter_failure_is_determined(base, m, ga, fs@[i], rs1[i], rs2[i]);
            }
            lemma_same_length_up_to_error(fs@.len(), rs1, rs2);
            lemma_group_parts_same_failure(rs1, rs2);
        },
        LdapFilter::Or(fs) => {
            let rs1 = choose|rs: Seq<Result<GroupRequestFilter, LdapError>>|
                #[trigger] evaluated_up_to_error(fs@.len(), rs) && (forall|i: int| 0 <= i < rs.len() ==> group_filter_rel(base, m, ga, fs@[i], #[trigger] rs[i]))
                    && match group_or_parts(rs) {
                        Err(e) => r1 == Err::<GroupRequestFilter, LdapError>(e),
                        Ok(v) => if v.len() == 0 {
                            r1 matches Ok(GroupRequestFilter::False)
                        } else if v.len() == 1 {
                            r1 == Ok::<GroupRequestFilter, LdapError>(v[0])
                        } else {
                            r1 matches Ok(GroupRequestFilter::Or(w)) && w@ == v
                        },
                    };
            let rs2 = choose|rs: Seq<Result<GroupRequestFilter, LdapError>>|
                #[trigger] evaluated_up_to_error(fs@.len(), rs) && (forall|i: int| 0 <= i < rs.len() ==> group_filter_rel(base, m, ga, fs@[i], #[trigger] rs[i]))
                    && match group_or_parts(rs) {
                        Err(e) => r2 == Err::<GroupRequestFilter, LdapError>(e),
                        Ok(v) => if v.len() == 0 {
                            r2 matches Ok(GroupRequestFilter::False)
                        } else if v.len() == 1 {
                            r2 == Ok::<GroupRequestFilter, LdapError>(v[0])
                        } else {
                            r2 matches Ok(GroupRequestFilter::Or(w)) && w@ == v
                        },
                    };
            assert forall|i: int| 0 <= i < rs1.len() && i < rs2.len() implies same_failure(#[trigger] rs1[i], rs2[i]) by {
                assert(decreases_to!(f => f->Or_0));
                assert(decreases_to!(fs => fs@));
                assert(decreases_to!(fs@ => fs@[i]));
                group_filter_failure_is_determined(base, m, ga, fs@[i], rs1[i], rs2[i]);
            }
            lemma_same_length_up_to_error(fs@.len(), rs1, rs2);
            lemma_group_parts_same_failure(rs1, rs2);
        },
        LdapFilter::Not(g) => {
            assert(decreases_to!(f => f->Not_0));
            group_filter_failure_is_determined(base, m, ga, *g, group_negated(r1), group_negated(r2));
        },
        _ => {},
    }
}

/// An empty conjunction is always true and an empty disjunction never.
pub proof fn group_filter_empty_and_or(base: Seq<(Seq<char>, Seq<char>)>, m: AttrMap, ga: Seq<AttrView>, fs: Vec<LdapFilter>, r: Result<GroupRequestFilter, LdapError>)
    requires
        fs@.len() == 0,
    ensures
        group_filter_rel(base, m, ga, LdapFilter::And(fs), r) ==> r matches Ok(GroupRequestFilter::True),
        group_filter_rel(base, m, ga, LdapFilter::Or(fs), r) ==> r matches Ok(GroupRequestFilter::False),
{
    let e: Seq<Result<GroupRequestFilter, LdapError>> = Seq::empty();
    assert(group_and_parts(e) == Ok::<Seq<GroupRequestFilter>, LdapError>(Seq::empty()));
    assert(group_or_parts(e) == Ok::<Seq<GroupRequestFilter>, LdapError>(Seq::empty()));
    assert forall|rs: Seq<Result<GroupRequestFilter, LdapError>>| #[trigger] evaluated_up_to_error(0, rs) implies rs =~= e by {}
}

/// Whether a group query is in the shape that conversion gives: conjunctions hold no
/// always-true part and no nested conjunction, disjunctions no always-false part and no
/// nested disjunction, and a negation never negates a constant.
pub open spec fn group_normal(f: GroupRequestFilter) -> bool
    decreases f,
{
    match f {
        GroupRequestFilter::And(v) => forall|i: int|
            0 <= i < v@.len() ==> !(#[trigger] v@[i] is True) && !(v@[i] is And) && group_normal(v@[i]),
        GroupRequestFilter::Or(v) => forall|i: int|
            0 <= i < v@.len() ==> !(#[trigger] v@[i] is False) && !(v@[i] is Or) && group_normal(v@[i]),
        GroupRequestFilter::Not(b) => !(*b is True) && !(*b is False) && group_normal(*b),
        _ => true,
    }
}

/// Whether every query that a result holds is in normal shape.
pub open spec fn group_result_normal(r: Result<GroupRequestFilter, LdapError>) -> bool {
    r matches Ok(x) ==> group_normal(x)
}

proof fn lemma_group_parts_normal(rs: Seq<Result<GroupRequestFilter, LdapError>>)
    requires
        forall|i: int| 0 <= i < rs.len() ==> group_result_normal(#[trigger] rs[i]),
    ensures
        group_and_parts(rs) matches Ok(v) ==> forall|j: int|
            0 <= j < v.len() ==> !(#[trigger] v[j] is True) && !(v[j] is And) && group_normal(v[j]),
        group_or_parts(rs) matches Ok(v) ==> forall|j: int|
            0 <= j < v.len() ==> !(#[trigger] v[j] is False) && !(v[j] is Or) && group_normal(v[j]),
    decreases rs.len(),
{
    if rs.len() > 0 {
        let a = rs.drop_last();
        assert forall|i: int| 0 <= i < a.len() implies group_result_normal(#[trigger] a[i]) by {
            assert(group_result_normal(rs[i]));
        }
        lemma_group_parts_normal(a);
        assert(group_result_normal(rs[rs.len() - 1]));
    }
}

/// Every query that `convert_group_filter` gives is in normal shape.
pub proof fn group_filter_results_are_normal(
    base: Seq<(Seq<char>, Seq<char>)>,
    m: AttrMap,
    ga: Seq<AttrView>,
    f: LdapFilter,
    r: Result<GroupRequestFilter, LdapError>,
)
    requires
        group_filter_rel(base, m, ga, f, r),
    ensures
        group_result_normal(r),
    decreases f,
{
    match f {
        LdapFilter::And(fs) => {
            let rs = choose|rs: Seq<Result<GroupRequestFilter, LdapError>>|
                #[trigger] evaluated_up_to_error(fs@.len(), rs) && (forall|i: int| 0 <= i < rs.len() ==> group_filter_rel(base, m, ga, fs@[i], #[trigger] rs[i]))
                    && match group_and_parts(rs) {
                        Err(e) => r == Err::<GroupRequestFilter, LdapError>(e),
                        Ok(v) => if v.len() == 0 {
                            r matches Ok(GroupRequestFilter::True)
                        } else if v.len() == 1 {
                            r == Ok::<GroupRequestFilter, LdapError>(v[0])
                        } else {
                            r matches Ok(GroupRequestFilter::And(w)) && w@ == v
                        },
                    };
            assert forall|i: int| 0 <= i < rs.len() implies group_result_normal(#[trigger] rs[i]) by {
                assert(decreases_to!(f => f->And_0));
                assert(decreases_to!(fs => fs@));
                assert(decreases_to!(fs@ => fs@[i]));
                group_filter_results_are_normal(base, m, ga, fs@[i], rs[i]);
            }
            lemma_group_parts_normal(rs);
            if let Ok(v) = group_and_parts(rs) {
                if v.len() >= 2 {
                    let w = r->Ok_0->And_0;
                    assert(w@ == v);
                    assert forall|j: int| 0 <= j < w@.len() implies !(#[trigger] w@[j] is True) && !(w@[j] is And)
                        && group_normal(w@[j]) by {
                        assert(w@[j] == v[j]);
                    }
                }
            }
        },
        LdapFilter::Or(fs) => {
            let rs = choose|rs: Seq<Result<GroupRequestFilter, LdapError>>|
                #[trigger] evaluated_up_to_error(fs@.len(), rs) && (forall|i: int| 0 <= i < rs.len() ==> group_filter_rel(base, m, ga, fs@[i], #[trigger] rs[i]))
                    && match group_or_parts(rs) {
                        Err(e) => r == Err::<GroupRequestFilter, LdapError>(e),
                        Ok(v) => if v.len() == 0 {
                            r matches Ok(GroupRequestFilter::False)
                        } else if v.len() == 1 {
                            r == Ok::<GroupRequestFilter, LdapError>(v[0])
                        } else {
                            r matches Ok(GroupRequestFilter::Or(w)) && w@ == v
                        },
                    };
            assert forall|i: int| 0 <= i < rs.len() implies group_result_normal(#[trigger] rs[i]) by {
                assert(decreases_to!(f => f->Or_0));
                assert(decreases_to!(fs => fs@));
                assert(decreases_to!(fs@ => fs@[i]));
                group_filter_results_are_normal(base, m, ga, fs@[i], rs[i]);
            }
            lemma_group_parts_normal(rs);
        },
        LdapFilter::Not(g) => {
            assert(decreases_to!(f => f->Not_0));
            group_filter_results_are_normal(base, m, ga, *g, group_negated(r));
        },
        LdapFilter::Equality(field, value) => {
            if !eq_ic(field@, "objectclass"@) {
                if let FieldKind::Attribute(n, t, l) = group_field_of(m, ga, lower(field@)) {
                    let (o1, o2) = choose|o1: Result<AttributeValue, String>, o2: Result<AttributeValue, String>|
                        #[trigger] deserialized(seq![value@], t, l, o1) && #[trigger] deserialized(seq![lower(value@)], t, l, o2) && match (o1, o2) {
                            (Ok(v), Ok(vlc)) => r matches Ok(GroupRequestFilter::Or(w)) && w@.len() == 2
                                && (w@[0] matches GroupRequestFilter::AttributeEquality(a, x) && a@ == n && x == v)
                                && (w@[1] matches GroupRequestFilter::AttributeEquality(b, y) && b@ == n && y == vlc),
                            _ => r matches Ok(GroupRequestFilter::False),
                        };
                    if let Ok(GroupRequestFilter::Or(w)) = r {
                        assert forall|j: int| 0 <= j < w@.len() implies !(#[trigger] w@[j] is False) && !(w@[j] is Or)
                            && group_normal(w@[j]) by {
                            if j == 0 {} else {}
                        }
                    }
                }
            }
        },
        _ => {},
    }
}

/// A conjunction that conversion keeps as a conjunction has at least two parts, none
/// of them always true or itself a conjunction; dually for disjunctions.
pub proof fn group_filter_and_or_shape(
    base: Seq<(Seq<char>, Seq<char>)>,
    m: AttrMap,
    ga: Seq<AttrView>,
    fs: Vec<LdapFilter>,
    r: Result<GroupRequestFilter, LdapError>,
)
    ensures
        group_filter_rel(base, m, ga, LdapFilter::And(fs), r) ==> (r matches Ok(GroupRequestFilter::And(w)) ==> w@.len()
            >= 2 && forall|i: int| 0 <= i < w@.len() ==> !(#[trigger] w@[i] is True) && !(w@[i] is And)),
        group_filter_rel(base, m, ga, LdapFilter::Or(fs), r) ==> (r matches Ok(GroupRequestFilter::Or(w)) ==> w@.len()
            >= 2 && forall|i: int| 0 <= i < w@.len() ==> !(#[trigger] w@[i] is False) && !(w@[i] is Or)),
{
    let f = LdapFilter::And(fs);
    if group_filter_rel(base, m, ga, f, r) {
        let rs = choose|rs: Seq<Result<GroupRequestFilter, LdapError>>|
            #[trigger] evaluated_up_to_error(fs@.len(), rs) && (forall|i: int| 0 <= i < rs.len() ==> group_filter_rel(base, m, ga, fs@[i], #[trigger] rs[i]))
                && match group_and_parts(rs) {
                    Err(e) => r == Err::<GroupRequestFilter, LdapError>(e),
                    Ok(v) => if v.len() == 0 {
                        r matches Ok(GroupRequestFilter::True)
                    } else if v.len() == 1 {
                        r == Ok::<GroupRequestFilter, LdapError>(v[0])
                    } else {
                        r matches Ok(GroupRequestFilter::And(w)) && w@ == v
                    },
                };
        assert forall|i: int| 0 <= i < rs.len() implies group_result_normal(#[trigger] rs[i]) by {
            group_filter_results_are_normal(base, m, ga, fs@[i], rs[i]);
        }
        lemma_group_parts_normal(rs);
    }
    let g = LdapFilter::Or(fs);
    if group_filter_rel(base, m, ga, g, r) {
        let rs = choose|rs: Seq<Result<GroupRequestFilter, LdapError>>|
            #[trigger] evaluated_up_to_error(fs@.len(), rs) && (forall|i: int| 0 <= i < rs.len() ==> group_filter_rel(base, m, ga, fs@[i], #[trigger] rs[i]))
                && match group_or_parts(rs) {
                    Err(e) => r == Err::<GroupRequestFilter, LdapError>(e),
                    Ok(v) => if v.len() == 0 {
                        r matches Ok(GroupRequestFilter::False)
                    } else if v.len() == 1 {
                        r == Ok::<GroupRequestFilter, LdapError>(v[0])
                    } else {
                        r matches Ok(GroupRequestFilter::Or(w)) && w@ == v
                    },
                };
        assert forall|i: int| 0 <= i < rs.len() implies group_result_normal(#[trigger] rs[i]) by {
            group_filter_results_are_normal(base, m, ga, fs@[i], rs[i]);
        }
        lemma_group_parts_normal(rs);
    }
}

proof fn lemma_group_parts_fail(rs: Seq<Result<GroupRequestFilter, LdapError>>, k: int)
    requires
        0 <= k < rs.len(),
        rs[k] is Err,
    ensures
        group_and_parts(rs) is Err,
        group_or_parts(rs) is Err,
    decreases rs.len(),
{
    if k < rs.len() - 1 {
        lemma_group_parts_fail(rs.drop_last(), k);
    }
}

/// A conjunction or disjunction with a part that fails, fails.
pub proof fn group_filter_part_failure_fails(
    base: Seq<(Seq<char>, Seq<char>)>,
    m: AttrMap,
    ga: Seq<AttrView>,
    fs: Vec<LdapFilter>,
    k: int,
    e: LdapError,
    r: Result<GroupRequestFilter, LdapError>,
)
    requires
        0 <= k < fs@.len(),
        group_filter_rel(base, m, ga, fs@[k], Err(e)),
    ensures
        group_filter_rel(base, m, ga, LdapFilter::And(fs), r) ==> r is Err,
        group_filter_rel(base, m, ga, LdapFilter::Or(fs), r) ==> r is Err,
{
    if group_filter_rel(base, m, ga, LdapFilter::And(fs), r) {
        let rs = choose|rs: Seq<Result<GroupRequestFilter, LdapError>>|
            #[trigger] evaluated_up_to_error(fs@.len(), rs) && (forall|i: int| 0 <= i < rs.len() ==> group_filter_rel(base, m, ga, fs@[i], #[trigger] rs[i]))
                && match group_and_parts(rs) {
                    Err(e) => r == Err::<GroupRequestFilter, LdapError>(e),
                    Ok(v) => if v.len() == 0 {
                        r matches Ok(GroupRequestFilter::True)
                    } else if v.len() == 1 {
                        r == Ok::<GroupRequestFilter, LdapError>(v[0])
                    } else {
                        r matches Ok(GroupRequestFilter::And(w)) && w@ == v
                    },
                };
        if k < rs.len() {
            group_filter_failure_is_determined(base, m, ga, fs@[k], rs[k], Err(e));
            lemma_group_parts_fail(rs, k);
        } else {
            lemma_group_parts_fail(rs, rs.len() - 1);
        }
    }
    if group_filter_rel(base, m, ga, LdapFilter::Or(fs), r) {
        let rs = choose|rs: Seq<Result<GroupRequestFilter, LdapError>>|
            #[trigger] evaluated_up_to_error(fs@.len(), rs) && (forall|i: int| 0 <= i < rs.len() ==> group_filter_rel(base, m, ga, fs@[i], #[trigger] rs[i]))
                && match group_or_parts(rs) {
                    Err(e) => r == Err::<GroupRequestFilter, LdapError>(e),
                    Ok(v) => if v.len() == 0 {
                        r matches Ok(GroupRequestFilter::False)
                    } else if v.len() == 1 {
                        r == Ok::<GroupRequestFilter, LdapError>(v[0])
                    } else {
                        r matches Ok(GroupRequestFilter::Or(w)) && w@ == v
                    },
                };
        if k < rs.len() {
            group_filter_failure_is_determined(base, m, ga, fs@[k], rs[k], Err(e));
            lemma_group_parts_fail(rs, k);
        } else {
            lemma_group_parts_fail(rs, rs.len() - 1);
        }
    }
}

/// A negation fails exactly as the negated filter does, turns always-true into
/// always-false and back, and otherwise negates the negated filter's query.
pub proof fn group_filter_not(
    base: Seq<(Seq<char>, Seq<char>)>,
    m: AttrMap,
    ga: Seq<AttrView>,
    g: LdapFilter,
    r: Result<GroupRequestFilter, LdapError>,
)
    requires
        group_filter_rel(base, m, ga, LdapFilter::Not(Box::new(g)), r),
    ensures
        group_filter_rel(base, m, ga, g, group_negated(r)),
        group_negated(r) matches Ok(GroupRequestFilter::True) ==> r == Ok::<GroupRequestFilter, LdapError>(GroupRequestFilter::False),
        group_negated(r) matches Ok(GroupRequestFilter::False) ==> r == Ok::<GroupRequestFilter, LdapError>(GroupRequestFilter::True),
        group_negated(r) is Err ==> r == group_negated(r),
{
}

} // verus!
