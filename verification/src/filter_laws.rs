//! Laws across calls of the filter conversions: one filter converts to one query.
use vstd::prelude::*;
use crate::deserialize::deserialized;
use crate::filters::{
    group_and_parts, group_filter_not, group_filter_rel, group_negated, group_or_parts, GroupRequestFilter,
    evaluated_up_to_error, lemma_same_length_up_to_error, same_failure, user_and_parts, user_filter_not,
    user_filter_rel, user_negated, user_or_parts, SubStringFilter, UserRequestFilter,
};
use crate::proto::{LdapError, LdapFilter};
use crate::schema::{AttrView, AttributeType};
use crate::schema_manager::{group_field_of, user_field_of, AttrMap, FieldKind};
use crate::text::{eq_ic, lower, views};
use crate::types::{AttributeValue, Cardinality};

verus! {

/// Whether two optional texts are both absent or have the same text.
pub open spec fn opt_text_same(a: Option<String>, b: Option<String>) -> bool {
    match (a, b) {
        (Some(x), Some(y)) => x@ == y@,
        (None, None) => true,
        _ => false,
    }
}

/// Whether two substring matches have the same parts.
pub open spec fn substrings_same(x: SubStringFilter, y: SubStringFilter) -> bool {
    opt_text_same(x.initial, y.initial) && views(x.any@) == views(y.any@) && opt_text_same(x.final_, y.final_)
}

/// Whether two attribute values (other than pictures) hold the same texts, integers or
/// instants, in the same cardinality.
pub open spec fn value_same(v: AttributeValue, w: AttributeValue) -> bool {
    match (v, w) {
        (AttributeValue::String(Cardinality::Singleton(s)), AttributeValue::String(Cardinality::Singleton(t))) => s@ == t@,
        (AttributeValue::String(Cardinality::Unbounded(l)), AttributeValue::String(Cardinality::Unbounded(k))) => views(l@)
            == views(k@),
        (AttributeValue::Integer(Cardinality::Singleton(a)), AttributeValue::Integer(Cardinality::Singleton(b))) => a == b,
        (AttributeValue::Integer(Cardinality::Unbounded(l)), AttributeValue::Integer(Cardinality::Unbounded(k))) => l@ == k@,
        (AttributeValue::DateTime(Cardinality::Singleton(a)), AttributeValue::DateTime(Cardinality::Singleton(b))) => a == b,
        (AttributeValue::DateTime(Cardinality::Unbounded(l)), AttributeValue::DateTime(Cardinality::Unbounded(k))) => l@
            == k@,
        _ => false,
    }
}

/// Reading one text as a value of a type other than a picture has one outcome.
pub proof fn deserialized_is_determined(
    vals: Seq<Seq<char>>,
    t: AttributeType,
    l: bool,
    o1: Result<AttributeValue, String>,
    o2: Result<AttributeValue, String>,
)
    requires
        t != AttributeType::Avatar,
        vals.len() == 1,
        deserialized(vals, t, l, o1),
        deserialized(vals, t, l, o2),
    ensures
        o1 is Ok <==> o2 is Ok,
        o1 matches Ok(v1) ==> (o2 matches Ok(v2) && value_same(v1, v2)),
{
}

// ---------------------------------------------------------------- users

/// Whether two user queries are the same query: the same shape, with texts that read
/// the same.
pub open spec fn user_query_same(a: UserRequestFilter, b: UserRequestFilter) -> bool
    decreases a,
{
    match a {
        UserRequestFilter::True => b is True,
        UserRequestFilter::False => b is False,
        UserRequestFilter::And(x) => b matches UserRequestFilter::And(y) && x@.len() == y@.len() && forall|i: int|
            0 <= i < x@.len() ==> user_query_same(#[trigger] x@[i], y@[i]),
        UserRequestFilter::Or(x) => b matches UserRequestFilter::Or(y) && x@.len() == y@.len() && forall|i: int|
            0 <= i < x@.len() ==> user_query_same(#[trigger] x@[i], y@[i]),
        UserRequestFilter::Not(x) => b matches UserRequestFilter::Not(y) && user_query_same(*x, *y),
        UserRequestFilter::UserId(x) => b matches UserRequestFilter::UserId(y) && x@ == y@,
        UserRequestFilter::UserIdSubString(x) => b matches UserRequestFilter::UserIdSubString(y) && substrings_same(x, y),
        UserRequestFilter::Equality(c, s) => b matches UserRequestFilter::Equality(d, t) && c == d && s@ == t@,
        UserRequestFilter::AttributeEquality(n, v) => b matches UserRequestFilter::AttributeEquality(k, w) && n@ == k@
            && value_same(v, w),
        UserRequestFilter::SubString(c, x) => b matches UserRequestFilter::SubString(d, y) && c == d && substrings_same(x, y),
        UserRequestFilter::MemberOf(g) => b matches UserRequestFilter::MemberOf(h) && g@ == h@,
        UserRequestFilter::GreaterOrEqual(c, s) => b matches UserRequestFilter::GreaterOrEqual(d, t) && c == d && s@ == t@,
        UserRequestFilter::LessOrEqual(c, s) => b matches UserRequestFilter::LessOrEqual(d, t) && c == d && s@ == t@,
        UserRequestFilter::AttributeGreaterOrEqual(n, s) => b matches UserRequestFilter::AttributeGreaterOrEqual(k, t)
            && n@ == k@ && s@ == t@,
        UserRequestFilter::AttributeLessOrEqual(n, s) => b matches UserRequestFilter::AttributeLessOrEqual(k, t) && n@
            == k@ && s@ == t@,
        UserRequestFilter::CustomAttributePresent(n) => b matches UserRequestFilter::CustomAttributePresent(k) && n@ == k@,
    }
}

/// Whether two conversion results are the same: the same failure, or the same query.
pub open spec fn user_result_same(a: Result<UserRequestFilter, LdapError>, b: Result<UserRequestFilter, LdapError>) -> bool {
    match (a, b) {
        (Err(x), Err(y)) => x.code == y.code && x.message@ == y.message@,
        (Ok(x), Ok(y)) => user_query_same(x, y),
        _ => false,
    }
}

/// Whether an LDAP filter compares a picture attribute of users for equality anywhere:
/// reading the compared value as a picture goes through outside picture processing.
pub open spec fn user_filter_has_picture_equality(m: AttrMap, ua: Seq<AttrView>, f: LdapFilter) -> bool
    decreases f,
{
    match f {
        LdapFilter::And(fs) => exists|i: int| 0 <= i < fs@.len() && user_filter_has_picture_equality(m, ua, #[trigger] fs@[i]),
        LdapFilter::Or(fs) => exists|i: int| 0 <= i < fs@.len() && user_filter_has_picture_equality(m, ua, #[trigger] fs@[i]),
        LdapFilter::Not(g) => user_filter_has_picture_equality(m, ua, *g),
        LdapFilter::Equality(field, _) => user_field_of(m, ua, lower(field@)) matches FieldKind::Attribute(
            _,
            AttributeType::Avatar,
            _,
        ),
        _ => false,
    }
}

/// Whether two part lists are the same: the same failure, or parts that are pairwise the
/// same query.
pub open spec fn user_parts_same(a: Result<Seq<UserRequestFilter>, LdapError>, b: Result<Seq<UserRequestFilter>, LdapError>) -> bool {
    match (a, b) {
        (Err(x), Err(y)) => x.code == y.code && x.message@ == y.message@,
        (Ok(v), Ok(w)) => v.len() == w.len() && forall|j: int| 0 <= j < v.len() ==> #[trigger] user_query_same(v[j], w[j]),
        _ => false,
    }
}

proof fn lemma_user_parts_same(rs1: Seq<Result<UserRequestFilter, LdapError>>, rs2: Seq<Result<UserRequestFilter, LdapError>>)
    requires
        rs1.len() == rs2.len(),
        forall|i: int| 0 <= i < rs1.len() ==> #[trigger] user_result_same(rs1[i], rs2[i]),
    ensures
        user_parts_same(user_and_parts(rs1), user_and_parts(rs2)),
        user_parts_same(user_or_parts(rs1), user_or_parts(rs2)),
    decreases rs1.len(),
{
    if rs1.len() > 0 {
        let (a, b) = (rs1.drop_last(), rs2.drop_last());
        assert forall|i: int| 0 <= i < a.len() implies #[trigger] user_result_same(a[i], b[i]) by {
            assert(user_result_same(rs1[i], rs2[i]));
        }
        lemma_user_parts_same(a, b);
        let k = rs1.len() - 1;
        assert(user_result_same(rs1[k], rs2[k]));
        if let (Ok(acc1), Ok(acc2), Ok(f1), Ok(f2)) = (user_and_parts(a), user_and_parts(b), rs1[k], rs2[k]) {
            if let (UserRequestFilter::And(x), UserRequestFilter::And(y)) = (f1, f2) {
                assert(user_query_same(f1, f2));
                assert(x@.len() == y@.len());
                let (s1, s2) = (acc1 + x@, acc2 + y@);
                assert forall|j: int| 0 <= j < s1.len() implies #[trigger] user_query_same(s1[j], s2[j]) by {
                    if j < acc1.len() {
                        assert(user_query_same(acc1[j], acc2[j]));
                    } else {
                        assert(user_query_same(x@[j - acc1.len()], y@[j - acc1.len()]));
                    }
                }
            } else if !(f1 is True) {
                let (s1, s2) = (acc1.push(f1), acc2.push(f2));
                assert forall|j: int| 0 <= j < s1.len() implies #[trigger] user_query_same(s1[j], s2[j]) by {
                    if j < acc1.len() {
                        assert(user_query_same(acc1[j], acc2[j]));
                    }
                }
            }
        }
        if let (Ok(acc1), Ok(acc2), Ok(f1), Ok(f2)) = (user_or_parts(a), user_or_parts(b), rs1[k], rs2[k]) {
            if let (UserRequestFilter::Or(x), UserRequestFilter::Or(y)) = (f1, f2) {
                assert(user_query_same(f1, f2));
                assert(x@.len() == y@.len());
                let (s1, s2) = (acc1 + x@, acc2 + y@);
                assert forall|j: int| 0 <= j < s1.len() implies #[trigger] user_query_same(s1[j], s2[j]) by {
                    if j < acc1.len() {
                        assert(user_query_same(acc1[j], acc2[j]));
                    } else {
                        assert(user_query_same(x@[j - acc1.len()], y@[j - acc1.len()]));
                    }
                }
            } else if !(f1 is False) {
                let (s1, s2) = (acc1.push(f1), acc2.push(f2));
                assert forall|j: int| 0 <= j < s1.len() implies #[trigger] user_query_same(s1[j], s2[j]) by {
                    if j < acc1.len() {
                        assert(user_query_same(acc1[j], acc2[j]));
                    }
                }
            }
        }
    }
}


/// One filter converts to one result: two results that `convert_user_filter` may give for
/// a filter are the same failure or the same query. Left out are filters that compare a
/// picture attribute for equality, whose value goes through outside picture processing.
pub proof fn user_filter_rel_functional(
    base: Seq<(Seq<char>, Seq<char>)>,
    m: AttrMap,
    ua: Seq<AttrView>,
    f: LdapFilter,
    r1: Result<UserRequestFilter, LdapError>,
    r2: Result<UserRequestFilter, LdapError>,
)
    requires
        !user_filter_has_picture_equality(m, ua, f),
        user_filter_rel(base, m, ua, f, r1),
        user_filter_rel(base, m, ua, f, r2),
    ensures
        user_result_same(r1, r2),
    decreases f,
{
    match f {
        LdapFilter::And(fs) => {
            let rs1 = choose|rs: Seq<Result<UserRequestFilter, LdapError>>|
                #[trigger] evaluated_up_to_error(fs@.len(), rs) && (forall|i: int| 0 <= i < rs.len() ==> user_filter_rel(base, m, ua, fs@[i], #[trigger] rs[i]))
                    && match user_and_parts(rs) {
                        Err(e) => r1 == Err::<UserRequestFilter, LdapError>(e),
                        Ok(v) => if v.len() == 0 {
                            r1 matches Ok(UserRequestFilter::True)
                        } else if v.len() == 1 {
                            r1 == Ok::<UserRequestFilter, LdapError>(v[0])
                        } else {
                            r1 matches Ok(UserRequestFilter::And(w)) && w@ == v
                        },
                    };
            let rs2 = choose|rs: Seq<Result<UserRequestFilter, LdapError>>|
                #[trigger] evaluated_up_to_error(fs@.len(), rs) && (forall|i: int| 0 <= i < rs.len() ==> user_filter_rel(base, m, ua, fs@[i], #[trigger] rs[i]))
                    && match user_and_parts(rs) {
                        Err(e) => r2 == Err::<UserRequestFilter, LdapError>(e),
                        Ok(v) => if v.len() == 0 {
                            r2 matches Ok(UserRequestFilter::True)
                        } else if v.len() == 1 {
                            r2 == Ok::<UserRequestFilter, LdapError>(v[0])
                        } else {
                            r2 matches Ok(UserRequestFilter::And(w)) && w@ == v
                        },
                    };
            assert forall|i: int| 0 <= i < rs1.len() && i < rs2.len() implies #[trigger] user_result_same(rs1[i], rs2[i]) by {
                assert(decreases_to!(f => f->And_0));
                assert(decreases_to!(fs => fs@));
                assert(decreases_to!(fs@ => fs@[i]));
                assert(!user_filter_has_picture_equality(m, ua, fs@[i]));
                user_filter_rel_functional(base, m, ua, fs@[i], rs1[i], rs2[i]);
            }
            assert forall|i: int| 0 <= i < rs1.len() && i < rs2.len() implies same_failure(#[trigger] rs1[i], rs2[i]) by {
                assert(user_result_same(rs1[i], rs2[i]));
            }
            lemma_same_length_up_to_error(fs@.len(), rs1, rs2);
            lemma_user_parts_same(rs1, rs2);
            if let (Ok(v1), Ok(v2)) = (user_and_parts(rs1), user_and_parts(rs2)) {
                if v1.len() >= 2 {
                    let (w1, w2) = (r1->Ok_0->And_0, r2->Ok_0->And_0);
                    assert forall|j: int| 0 <= j < w1@.len() implies user_query_same(#[trigger] w1@[j], w2@[j]) by {
                        assert(user_query_same(v1[j], v2[j]));
                    }
                } else if v1.len() == 1 {
                    assert(user_query_same(v1[0], v2[0]));
                }
            }
        },
        LdapFilter::Or(fs) => {
            let rs1 = choose|rs: Seq<Result<UserRequestFilter, LdapError>>|
                #[trigger] evaluated_up_to_error(fs@.len(), rs) && (forall|i: int| 0 <= i < rs.len() ==> user_filter_rel(base, m, ua, fs@[i], #[trigger] rs[i]))
                    && match user_or_parts(rs) {
                        Err(e) => r1 == Err::<UserRequestFilter, LdapError>(e),
                        Ok(v) => if v.len() == 0 {
                            r1 matches Ok(UserRequestFilter::False)
                        } else if v.len() == 1 {
                            r1 == Ok::<UserRequestFilter, LdapError>(v[0])
                        } else {
                            r1 matches Ok(UserRequestFilter::Or(w)) && w@ == v
                        },
                    };
            let rs2 = choose|rs: Seq<Result<UserRequestFilter, LdapError>>|
                #[trigger] evaluated_up_to_error(fs@.len(), rs) && (forall|i: int| 0 <= i < rs.len() ==> user_filter_rel(base, m, ua, fs@[i], #[trigger] rs[i]))
                    && match user_or_parts(rs) {
                        Err(e) => r2 == Err::<UserRequestFilter, LdapError>(e),
                        Ok(v) => if v.len() == 0 {
                            r2 matches Ok(UserRequestFilter::False)
                        } else if v.len() == 1 {
                            r2 == Ok::<UserRequestFilter, LdapError>(v[0])
                        } else {
                            r2 matches Ok(UserRequestFilter::Or(w)) && w@ == v
                        },
                    };
            assert forall|i: int| 0 <= i < rs1.len() && i < rs2.len() implies #[trigger] user_result_same(rs1[i], rs2[i]) by {
                assert(decreases_to!(f => f->Or_0));
                assert(decreases_to!(fs => fs@));
                assert(decreases_to!(fs@ => fs@[i]));
                assert(!user_filter_has_picture_equality(m, ua, fs@[i]));
                user_filter_rel_functional(base, m, ua, fs@[i], rs1[i], rs2[i]);
            }
            assert forall|i: int| 0 <= i < rs1.len() && i < rs2.len() implies same_failure(#[trigger] rs1[i], rs2[i]) by {
                assert(user_result_same(rs1[i], rs2[i]));
            }
            lemma_same_length_up_to_error(fs@.len(), rs1, rs2);
            lemma_user_parts_same(rs1, rs2);
            if let (Ok(v1), Ok(v2)) = (user_or_parts(rs1), user_or_parts(rs2)) {
                if v1.len() >= 2 {
                    let (w1, w2) = (r1->Ok_0->Or_0, r2->Ok_0->Or_0);
                    assert forall|j: int| 0 <= j < w1@.len() implies user_query_same(#[trigger] w1@[j], w2@[j]) by {
                        assert(user_query_same(v1[j], v2[j]));
                    }
                } else if v1.len() == 1 {
                    assert(user_query_same(v1[0], v2[0]));
                }
            }
        },
        LdapFilter::Not(g) => {
            assert(decreases_to!(f => f->Not_0));
            user_filter_rel_functional(base, m, ua, *g, user_negated(r1), user_negated(r2));
            if let (Ok(UserRequestFilter::Not(b1)), Ok(UserRequestFilter::Not(b2))) = (r1, r2) {
                assert(user_query_same(*b1, *b2));
            }
        },
        LdapFilter::Equality(field, value) => {
            if let FieldKind::Attribute(n, t, l) = user_field_of(m, ua, lower(field@)) {
                let (o1, o2) = choose|o1: Result<AttributeValue, String>, o2: Result<AttributeValue, String>|
                    #[trigger] deserialized(seq![value@], t, l, o1) && #[trigger] deserialized(seq![lower(value@)], t, l, o2) && match (o1, o2) {
                        (Ok(v), Ok(vlc)) => r1 matches Ok(UserRequestFilter::Or(w)) && w@.len() == 2
                            && (w@[0] matches UserRequestFilter::AttributeEquality(a, x) && a@ == n && x == v)
                            && (w@[1] matches UserRequestFilter::AttributeEquality(b, y) && b@ == n && y == vlc),
                        _ => r1 matches Ok(UserRequestFilter::False),
                    };
                let (p1, p2) = choose|o1: Result<AttributeValue, String>, o2: Result<AttributeValue, String>|
                    #[trigger] deserialized(seq![value@], t, l, o1) && #[trigger] deserialized(seq![lower(value@)], t, l, o2) && match (o1, o2) {
                        (Ok(v), Ok(vlc)) => r2 matches Ok(UserRequestFilter::Or(w)) && w@.len() == 2
                            && (w@[0] matches UserRequestFilter::AttributeEquality(a, x) && a@ == n && x == v)
                            && (w@[1] matches UserRequestFilter::AttributeEquality(b, y) && b@ == n && y == vlc),
                        _ => r2 matches Ok(UserRequestFilter::False),
                    };
                deserialized_is_determined(seq![value@], t, l, o1, p1);
                deserialized_is_determined(seq![lower(value@)], t, l, o2, p2);
                if let (Ok(UserRequestFilter::Or(w1)), Ok(UserRequestFilter::Or(w2))) = (r1, r2) {
                    assert forall|j: int| 0 <= j < w1@.len() implies user_query_same(#[trigger] w1@[j], w2@[j]) by {
                        if j == 0 {} else {}
                    }
                }
            }
        },
        _ => {},
    }
}

/// Negating a filter: a sub-filter that always holds gives a query that never does and
/// back, a failure stays the same failure, and any other query is negated. Left out are
/// filters that compare a picture attribute for equality.
pub proof fn user_filter_negation(
    base: Seq<(Seq<char>, Seq<char>)>,
    m: AttrMap,
    ua: Seq<AttrView>,
    g: LdapFilter,
    r0: Result<UserRequestFilter, LdapError>,
    r: Result<UserRequestFilter, LdapError>,
)
    requires
        !user_filter_has_picture_equality(m, ua, g),
        user_filter_rel(base, m, ua, g, r0),
        user_filter_rel(base, m, ua, LdapFilter::Not(Box::new(g)), r),
    ensures
        r0 matches Ok(UserRequestFilter::True) ==> r == Ok::<UserRequestFilter, LdapError>(UserRequestFilter::False),
        r0 matches Ok(UserRequestFilter::False) ==> r == Ok::<UserRequestFilter, LdapError>(UserRequestFilter::True),
        r0 is Err ==> r is Err && same_failure(r, r0),
        r0 matches Ok(q) ==> (!(q is True) && !(q is False) ==> (r matches Ok(UserRequestFilter::Not(b)) && user_query_same(*b, q))),
{
    user_filter_not(base, m, ua, g, r);
    user_filter_rel_functional(base, m, ua, g, user_negated(r), r0);
}


/// What an order comparison in a user query asks of a user: given the instant each date
/// column of the user holds and the instant a bound text stands for, whether the user
/// is selected (`None` for queries that are not date comparisons).
pub open spec fn user_query_date_selects(
    q: UserRequestFilter,
    user_dates: spec_fn(crate::schema_manager::UserColumn) -> int,
    instant_of: spec_fn(Seq<char>) -> int,
) -> Option<bool> {
    match q {
        UserRequestFilter::GreaterOrEqual(c, v) => Some(user_dates(c) >= instant_of(v@)),
        UserRequestFilter::LessOrEqual(c, v) => Some(user_dates(c) <= instant_of(v@)),
        _ => None,
    }
}

/// An LDAP order comparison on a user date column (such as `createTimestamp>=v`)
/// converts to a query that selects by that column in the same direction: `>=` the users
/// at or after the instant of `v`, `<=` those at or before it.
pub proof fn user_date_filters_keep_direction(
    base: Seq<(Seq<char>, Seq<char>)>,
    m: AttrMap,
    ua: Seq<AttrView>,
    field: String,
    value: String,
    col: crate::schema_manager::UserColumn,
    r: Result<UserRequestFilter, LdapError>,
    user_dates: spec_fn(crate::schema_manager::UserColumn) -> int,
    instant_of: spec_fn(Seq<char>) -> int,
)
    requires
        user_field_of(m, ua, lower(field@)) == FieldKind::Primary(col),
        crate::filters::is_date_column(col),
    ensures
        user_filter_rel(base, m, ua, LdapFilter::GreaterOrEqual(field, value), r) ==> (r matches Ok(q)
            && user_query_date_selects(q, user_dates, instant_of) == Some(user_dates(col) >= instant_of(value@))),
        user_filter_rel(base, m, ua, LdapFilter::LessOrEqual(field, value), r) ==> (r matches Ok(q)
            && user_query_date_selects(q, user_dates, instant_of) == Some(user_dates(col) <= instant_of(value@))),
{
}

// ---------------------------------------------------------------- groups

/// Whether two group queries are the same query: the same shape, with texts that read
/// the same.
pub open spec fn group_query_same(a: GroupRequestFilter, b: GroupRequestFilter) -> bool
    decreases a,
{
    match a {
        GroupRequestFilter::True => b is True,
        GroupRequestFilter::False => b is False,
        GroupRequestFilter::And(x) => b matches GroupRequestFilter::And(y) && x@.len() == y@.len() && forall|i: int|
            0 <= i < x@.len() ==> group_query_same(#[trigger] x@[i], y@[i]),
        GroupRequestFilter::Or(x) => b matches GroupRequestFilter::Or(y) && x@.len() == y@.len() && forall|i: int|
            0 <= i < x@.len() ==> group_query_same(#[trigger] x@[i], y@[i]),
        GroupRequestFilter::Not(x) => b matches GroupRequestFilter::Not(y) && group_query_same(*x, *y),
        GroupRequestFilter::GroupId(x) => b matches GroupRequestFilter::GroupId(y) && x == y,
        GroupRequestFilter::DisplayName(x) => b matches GroupRequestFilter::DisplayName(y) && x@ == y@,
        GroupRequestFilter::Uuid(x) => b matches GroupRequestFilter::Uuid(y) && x.0@ == y.0@,
        GroupRequestFilter::Member(x) => b matches GroupRequestFilter::Member(y) && x@ == y@,
        GroupRequestFilter::AttributeEquality(n, v) => b matches GroupRequestFilter::AttributeEquality(k, w) && n@ == k@
            && value_same(v, w),
        GroupRequestFilter::GreaterOrEqual(c, s) => b matches GroupRequestFilter::GreaterOrEqual(d, t) && c@ == d@ && s@ == t@,
        GroupRequestFilter::LessOrEqual(c, s) => b matches GroupRequestFilter::LessOrEqual(d, t) && c@ == d@ && s@ == t@,
        GroupRequestFilter::AttributeGreaterOrEqual(n, s) => b matches GroupRequestFilter::AttributeGreaterOrEqual(k, t)
            && n@ == k@ && s@ == t@,
        GroupRequestFilter::AttributeLessOrEqual(n, s) => b matches GroupRequestFilter::AttributeLessOrEqual(k, t) && n@
            == k@ && s@ == t@,
        GroupRequestFilter::CustomAttributePresent(n) => b matches GroupRequestFilter::CustomAttributePresent(k) && n@ == k@,
        GroupRequestFilter::DisplayNameSubString(x) => b matches GroupRequestFilter::DisplayNameSubString(y) && substrings_same(x, y),
    }
}

/// Whether two conversion results are the same: the same failure, or the same query.
pub open spec fn group_result_same(a: Result<GroupRequestFilter, LdapError>, b: Result<GroupRequestFilter, LdapError>) -> bool {
    match (a, b) {
        (Err(x), Err(y)) => x.code == y.code && x.message@ == y.message@,
        (Ok(x), Ok(y)) => group_query_same(x, y),
        _ => false,
    }
}

/// Whether an LDAP filter compares a picture attribute of groups for equality anywhere:
/// reading the compared value as a picture goes through outside picture processing.
pub open spec fn group_filter_has_picture_equality(m: AttrMap, ga: Seq<AttrView>, f: LdapFilter) -> bool
    decreases f,
{
    match f {
        LdapFilter::And(fs) => exists|i: int| 0 <= i < fs@.len() && group_filter_has_picture_equality(m, ga, #[trigger] fs@[i]),
        LdapFilter::Or(fs) => exists|i: int| 0 <= i < fs@.len() && group_filter_has_picture_equality(m, ga, #[trigger] fs@[i]),
        LdapFilter::Not(g) => group_filter_has_picture_equality(m, ga, *g),
        LdapFilter::Equality(field, _) => !eq_ic(field@, "objectclass"@) && group_field_of(m, ga, lower(field@)) matches FieldKind::Attribute(
            _,
            AttributeType::Avatar,
            _,
        ),
        _ => false,
    }
}

/// Whether two part lists are the same: the same failure, or parts that are pairwise the
/// same query.
pub open spec fn group_parts_same(a: Result<Seq<GroupRequestFilter>, LdapError>, b: Result<Seq<GroupRequestFilter>, LdapError>) -> bool {
    match (a, b) {
        (Err(x), Err(y)) => x.code == y.code && x.message@ == y.message@,
        (Ok(v), Ok(w)) => v.len() == w.len() && forall|j: int| 0 <= j < v.len() ==> #[trigger] group_query_same(v[j], w[j]),
        _ => false,
    }
}

proof fn lemma_group_parts_same(rs1: Seq<Result<GroupRequestFilter, LdapError>>, rs2: Seq<Result<GroupRequestFilter, LdapError>>)
    requires
        rs1.len() == rs2.len(),
        forall|i: int| 0 <= i < rs1.len() ==> #[trigger] group_result_same(rs1[i], rs2[i]),
    ensures
        group_parts_same(group_and_parts(rs1), group_and_parts(rs2)),
        group_parts_same(group_or_parts(rs1), group_or_parts(rs2)),
    decreases rs1.len(),
{
    if rs1.len() > 0 {
        let (a, b) = (rs1.drop_last(), rs2.drop_last());
        assert forall|i: int| 0 <= i < a.len() implies #[trigger] group_result_same(a[i], b[i]) by {
            assert(group_result_same(rs1[i], rs2[i]));
        }
        lemma_group_parts_same(a, b);
        let k = rs1.len() - 1;
        assert(group_result_same(rs1[k], rs2[k]));
        if let (Ok(acc1), Ok(acc2), Ok(f1), Ok(f2)) = (group_and_parts(a), group_and_parts(b), rs1[k], rs2[k]) {
            if let (GroupRequestFilter::And(x), GroupRequestFilter::And(y)) = (f1, f2) {
                assert(group_query_same(f1, f2));
                assert(x@.len() == y@.len());
                let (s1, s2) = (acc1 + x@, acc2 + y@);
                assert forall|j: int| 0 <= j < s1.len() implies #[trigger] group_query_same(s1[j], s2[j]) by {
                    if j < acc1.len() {
                        assert(group_query_same(acc1[j], acc2[j]));
                    } else {
                        assert(group_query_same(x@[j - acc1.len()], y@[j - acc1.len()]));
                    }
                }
            } else if !(f1 is True) {
                let (s1, s2) = (acc1.push(f1), acc2.push(f2));
                assert forall|j: int| 0 <= j < s1.len() implies #[trigger] group_query_same(s1[j], s2[j]) by {
                    if j < acc1.len() {
                        assert(group_query_same(acc1[j], acc2[j]));
                    }
                }
            }
        }
        if let (Ok(acc1), Ok(acc2), Ok(f1), Ok(f2)) = (group_or_parts(a), group_or_parts(b), rs1[k], rs2[k]) {
            if let (GroupRequestFilter::Or(x), GroupRequestFilter::Or(y)) = (f1, f2) {
                assert(group_query_same(f1, f2));
                assert(x@.len() == y@.len());
                let (s1, s2) = (acc1 + x@, acc2 + y@);
                assert forall|j: int| 0 <= j < s1.len() implies #[trigger] group_query_same(s1[j], s2[j]) by {
                    if j < acc1.len() {
                        assert(group_query_same(acc1[j], acc2[j]));
                    } else {
                        assert(group_query_same(x@[j - acc1.len()], y@[j - acc1.len()]));
                    }
                }
            } else if !(f1 is False) {
                let (s1, s2) = (acc1.push(f1), acc2.push(f2));
                assert forall|j: int| 0 <= j < s1.len() implies #[trigger] group_query_same(s1[j], s2[j]) by {
                    if j < acc1.len() {
                        assert(group_query_same(acc1[j], acc2[j]));
                    }
                }
            }
        }
    }
}


/// One filter converts to one result: two results that `convert_group_filter` may give for
/// a filter are the same failure or the same query. Left out are filters that compare a
/// picture attribute for equality, whose value goes through outside picture processing.
pub proof fn group_filter_rel_functional(
    base: Seq<(Seq<char>, Seq<char>)>,
    m: AttrMap,
    ga: Seq<AttrView>,
    f: LdapFilter,
    r1: Result<GroupRequestFilter, LdapError>,
    r2: Result<GroupRequestFilter, LdapError>,
)
    requires
        !group_filter_has_picture_equality(m, ga, f),
        group_filter_rel(base, m, ga, f, r1),
        group_filter_rel(base, m, ga, f, r2),
    ensures
        group_result_same(r1, r2),
    decreases f,
{
    match f {
        LdapFilter::And(fs) => {
            let rs1 = choose|rs: Seq<Result<GroupRequestFilter, LdapError>>|
                #[trigger] evaluated_up_to_error(fs@.len(), rs) && (forall|i: int| 0 <= i < rs.len() ==> group_filter_rel(base, m, ga, fs@[i], #[trigger] rs[i]))
                    && match group_and_parts(rs) {
                        Err(e) => r1 == Err::<GroupRequestFilter, LdapError>(e),
                        Ok(v) => if v.len() == 0 {
                            r1 matches Ok(GroupRequestFilter::True)
                        } else if v.len() == 1 {
                            r1 == Ok::<GroupRequestFilter, LdapError>(v[0])
                        } else {
                            r1 matches Ok(GroupRequestFilter::And(w)) && w@ == v
                        },
                    };
            let rs2 = choose|rs: Seq<Result<GroupRequestFilter, LdapError>>|
                #[trigger] evaluated_up_to_error(fs@.len(), rs) && (forall|i: int| 0 <= i < rs.len() ==> group_filter_rel(base, m, ga, fs@[i], #[trigger] rs[i]))
                    && match group_and_parts(rs) {
                        Err(e) => r2 == Err::<GroupRequestFilter, LdapError>(e),
                        Ok(v) => if v.len() == 0 {
                            r2 matches Ok(GroupRequestFilter::True)
                        } else if v.len() == 1 {
                            r2 == Ok::<GroupRequestFilter, LdapError>(v[0])
                        } else {
                            r2 matches Ok(GroupRequestFilter::And(w)) && w@ == v
                        },
                    };
            assert forall|i: int| 0 <= i < rs1.len() && i < rs2.len() implies #[trigger] group_result_same(rs1[i], rs2[i]) by {
                assert(decreases_to!(f => f->And_0));
                assert(decreases_to!(fs => fs@));
                assert(decreases_to!(fs@ => fs@[i]));
                assert(!group_filter_has_picture_equality(m, ga, fs@[i]));
                group_filter_rel_functional(base, m, ga, fs@[i], rs1[i], rs2[i]);
            }
            assert forall|i: int| 0 <= i < rs1.len() && i < rs2.len() implies same_failure(#[trigger] rs1[i], rs2[i]) by {
                assert(group_result_same(rs1[i], rs2[i]));
            }
            lemma_same_length_up_to_error(fs@.len(), rs1, rs2);
            lemma_group_parts_same(rs1, rs2);
            if let (Ok(v1), Ok(v2)) = (group_and_parts(rs1), group_and_parts(rs2)) {
                if v1.len() >= 2 {
                    let (w1, w2) = (r1->Ok_0->And_0, r2->Ok_0->And_0);
                    assert forall|j: int| 0 <= j < w1@.len() implies group_query_same(#[trigger] w1@[j], w2@[j]) by {
                        assert(group_query_same(v1[j], v2[j]));
                    }
                } else if v1.len() == 1 {
                    assert(group_query_same(v1[0], v2[0]));
                }
            }
        },
        LdapFilter::Or(fs) => {
            let rs1 = choose|rs: Seq<Result<GroupRequestFilter, LdapError>>|
                #[trigger] evaluated_up_to_error(fs@.len(), rs) && (forall|i: int| 0 <= i < rs.len() ==> group_filter_rel(base, m, ga, fs@[i], #[trigger] rs[i]))
                    && match group_or_parts(rs) {
                        Err(e) => r1 == Err::<GroupRequestFilter, LdapError>(e),
                        Ok(v) => if v.len() == 0 {
                            r1 matches Ok(GroupRequestFilter::False)
                        } else if v.len() == 1 {
                            r1 == Ok::<GroupRequestFilter, LdapError>(v[0])
                        } else {
                            r1 matches Ok(GroupRequestFilter::Or(w)) && w@ == v
                        },
                    };
            let rs2 = choose|rs: Seq<Result<GroupRequestFilter, LdapError>>|
                #[trigger] evaluated_up_to_error(fs@.len(), rs) && (forall|i: int| 0 <= i < rs.len() ==> group_filter_rel(base, m, ga, fs@[i], #[trigger] rs[i]))
                    && match group_or_parts(rs) {
                        Err(e) => r2 == Err::<GroupRequestFilter, LdapError>(e),
                        Ok(v) => if v.len() == 0 {
                            r2 matches Ok(GroupRequestFilter::False)
                        } else if v.len() == 1 {
                            r2 == Ok::<GroupRequestFilter, LdapError>(v[0])
                        } else {
                            r2 matches Ok(GroupRequestFilter::Or(w)) && w@ == v
                        },
                    };
            assert forall|i: int| 0 <= i < rs1.len() && i < rs2.len() implies #[trigger] group_result_same(rs1[i], rs2[i]) by {
                assert(decreases_to!(f => f->Or_0));
                assert(decreases_to!(fs => fs@));
                assert(decreases_to!(fs@ => fs@[i]));
                assert(!group_filter_has_picture_equality(m, ga, fs@[i]));
                group_filter_rel_functional(base, m, ga, fs@[i], rs1[i], rs2[i]);
            }
            assert forall|i: int| 0 <= i < rs1.len() && i < rs2.len() implies same_failure(#[trigger] rs1[i], rs2[i]) by {
                assert(group_result_same(rs1[i], rs2[i]));
            }
            lemma_same_length_up_to_error(fs@.len(), rs1, rs2);
            lemma_group_parts_same(rs1, rs2);
            if let (Ok(v1), Ok(v2)) = (group_or_parts(rs1), group_or_parts(rs2)) {
                if v1.len() >= 2 {
                    let (w1, w2) = (r1->Ok_0->Or_0, r2->Ok_0->Or_0);
                    assert forall|j: int| 0 <= j < w1@.len() implies group_query_same(#[trigger] w1@[j], w2@[j]) by {
                        assert(group_query_same(v1[j], v2[j]));
                    }
                } else if v1.len() == 1 {
                    assert(group_query_same(v1[0], v2[0]));
                }
            }
        },
        LdapFilter::Not(g) => {
            assert(decreases_to!(f => f->Not_0));
            group_filter_rel_functional(base, m, ga, *g, group_negated(r1), group_negated(r2));
            if let (Ok(GroupRequestFilter::Not(b1)), Ok(GroupRequestFilter::Not(b2))) = (r1, r2) {
                assert(group_query_same(*b1, *b2));
            }
        },
        LdapFilter::Equality(field, value) => {
            if eq_ic(field@, "objectclass"@) {
            } else if let FieldKind::Attribute(n, t, l) = group_field_of(m, ga, lower(field@)) {
                let (o1, o2) = choose|o1: Result<AttributeValue, String>, o2: Result<AttributeValue, String>|
                    #[trigger] deserialized(seq![value@], t, l, o1) && #[trigger] deserialized(seq![lower(value@)], t, l, o2) && match (o1, o2) {
                        (Ok(v), Ok(vlc)) => r1 matches Ok(GroupRequestFilter::Or(w)) && w@.len() == 2
                            && (w@[0] matches GroupRequestFilter::AttributeEquality(a, x) && a@ == n && x == v)
                            && (w@[1] matches GroupRequestFilter::AttributeEquality(b, y) && b@ == n && y == vlc),
                        _ => r1 matches Ok(GroupRequestFilter::False),
                    };
                let (p1, p2) = choose|o1: Result<AttributeValue, String>, o2: Result<AttributeValue, String>|
                    #[trigger] deserialized(seq![value@], t, l, o1) && #[trigger] deserialized(seq![lower(value@)], t, l, o2) && match (o1, o2) {
                        (Ok(v), Ok(vlc)) => r2 matches Ok(GroupRequestFilter::Or(w)) && w@.len() == 2
                            && (w@[0] matches GroupRequestFilter::AttributeEquality(a, x) && a@ == n && x == v)
                            && (w@[1] matches GroupRequestFilter::AttributeEquality(b, y) && b@ == n && y == vlc),
                        _ => r2 matches Ok(GroupRequestFilter::False),
                    };
                deserialized_is_determined(seq![value@], t, l, o1, p1);
                deserialized_is_determined(seq![lower(value@)], t, l, o2, p2);
                if let (Ok(GroupRequestFilter::Or(w1)), Ok(GroupRequestFilter::Or(w2))) = (r1, r2) {
                    assert forall|j: int| 0 <= j < w1@.len() implies group_query_same(#[trigger] w1@[j], w2@[j]) by {
                        if j == 0 {} else {}
                    }
                }
            }
        },
        _ => {},
    }
}

/// Negating a filter: a sub-filter that always holds gives a query that never does and
/// back, a failure stays the same failure, and any other query is negated. Left out are
/// filters that compare a picture attribute for equality.
pub proof fn group_filter_negation(
    base: Seq<(Seq<char>, Seq<char>)>,
    m: AttrMap,
    ga: Seq<AttrView>,
    g: LdapFilter,
    r0: Result<GroupRequestFilter, LdapError>,
    r: Result<GroupRequestFilter, LdapError>,
)
    requires
        !group_filter_has_picture_equality(m, ga, g),
        group_filter_rel(base, m, ga, g, r0),
        group_filter_rel(base, m, ga, LdapFilter::Not(Box::new(g)), r),
    ensures
        r0 matches Ok(GroupRequestFilter::True) ==> r == Ok::<GroupRequestFilter, LdapError>(GroupRequestFilter::False),
        r0 matches Ok(GroupRequestFilter::False) ==> r == Ok::<GroupRequestFilter, LdapError>(GroupRequestFilter::True),
        r0 is Err ==> r is Err && same_failure(r, r0),
        r0 matches Ok(q) ==> (!(q is True) && !(q is False) ==> (r matches Ok(GroupRequestFilter::Not(b)) && group_query_same(*b, q))),
{
    group_filter_not(base, m, ga, g, r);
    group_filter_rel_functional(base, m, ga, g, group_negated(r), r0);
}

} // verus!
