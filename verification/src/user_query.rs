//! The database condition that selects the users a user query asks for.
use vstd::prelude::*;
use crate::deserialize::deserialized;
use crate::filters::{
    evaluated_up_to_error, user_and_parts, user_filter_rel, user_negated, user_or_parts, SubStringFilter, UserRequestFilter,
};
use crate::proto::{LdapError, LdapFilter};
use crate::schema::AttrView;
use crate::schema_manager::{user_field_of, AttrMap, FieldKind, UserColumn};
use crate::text::lower;
use crate::types::AttributeValue;
use crate::storage::{attribute_value_to_db_bytes, db_bytes};
use crate::text::{to_lowercase, unicode_lower};
use crate::types::{AttributeName, UserId};

verus! {

/// A condition on stored users.
#[derive(Debug, PartialEq, Eq)]
pub enum UserCondition {
    /// Always holds, or never.
    Const(bool),
    /// All of the conditions hold.
    All(Vec<UserCondition>),
    /// One of the conditions holds.
    Any(Vec<UserCondition>),
    Not(Box<UserCondition>),
    UserIdIs(UserId),
    /// The column holds this text.
    ColumnIs(UserColumn, String),
    /// The user is a member of a group whose lowercase display name is this text.
    MemberOfLowercaseName(String),
    /// The user id matches the substring pattern.
    UserIdMatches(SubStringFilter),
    /// The lowercased column matches the substring pattern.
    ColumnMatches(UserColumn, SubStringFilter),
    /// The user has the attribute, with these stored bytes when some are given.
    AttributeStored(AttributeName, Option<Vec<u8>>),
    /// The date column is at least, or at most, the given value.
    DateAtLeast(UserColumn, String),
    DateAtMost(UserColumn, String),
    /// Selects by the group attributes table: a group id whose stored value of the
    /// attribute is at least, or at most, the given text.
    GroupAttributeAtLeast(AttributeName, String),
    GroupAttributeAtMost(AttributeName, String),
}

/// Whether a user column holds a date.
pub open spec fn is_user_date_column(c: UserColumn) -> bool {
    c == UserColumn::CreationDate || c == UserColumn::ModifiedDate || c == UserColumn::PasswordModifiedDate
}

/// Whether a user query can be put to the database: a user id is never compared as a
/// plain column, and only date columns are compared by order.
pub open spec fn user_query_supported(f: UserRequestFilter) -> bool
    decreases f,
{
    match f {
        UserRequestFilter::And(fs) => forall|i: int| 0 <= i < fs@.len() ==> user_query_supported(#[trigger] fs@[i]),
        UserRequestFilter::Or(fs) => forall|i: int| 0 <= i < fs@.len() ==> user_query_supported(#[trigger] fs@[i]),
        UserRequestFilter::Not(b) => user_query_supported(*b),
        UserRequestFilter::Equality(c, _) => c != UserColumn::UserId,
        UserRequestFilter::GreaterOrEqual(c, _) => is_user_date_column(c),
        UserRequestFilter::LessOrEqual(c, _) => is_user_date_column(c),
        _ => true,
    }
}

/// Whether `c` is the condition of the user query `f`: constants stay constants, an empty
/// conjunction always holds and an empty disjunction never, the others keep their parts
/// in order; e-mail addresses and group names are compared lowercased, attribute values
/// in their stored bytes.
pub open spec fn user_condition_of(f: UserRequestFilter, c: UserCondition) -> bool
    decreases f,
{
    match f {
        UserRequestFilter::True => c == UserCondition::Const(true),
        UserRequestFilter::False => c == UserCondition::Const(false),
        UserRequestFilter::And(fs) => if fs@.len() == 0 {
            c == UserCondition::Const(true)
        } else {
            c matches UserCondition::All(cs) && cs@.len() == fs@.len() && forall|i: int|
                0 <= i < fs@.len() ==> user_condition_of(fs@[i], #[trigger] cs@[i])
        },
        UserRequestFilter::Or(fs) => if fs@.len() == 0 {
            c == UserCondition::Const(false)
        } else {
            c matches UserCondition::Any(cs) && cs@.len() == fs@.len() && forall|i: int|
                0 <= i < fs@.len() ==> user_condition_of(fs@[i], #[trigger] cs@[i])
        },
        UserRequestFilter::Not(b) => c matches UserCondition::Not(cb) && user_condition_of(*b, *cb),
        UserRequestFilter::UserId(u) => c == UserCondition::UserIdIs(u),
        UserRequestFilter::Equality(col, v) => if col == UserColumn::Email {
            c matches UserCondition::ColumnIs(c2, s) && c2 == UserColumn::LowercaseEmail && s@ == unicode_lower(v@)
        } else {
            c == UserCondition::ColumnIs(col, v)
        },
        UserRequestFilter::AttributeEquality(n, v) => c matches UserCondition::AttributeStored(n2, Some(b)) && n2 == n
            && b@ == db_bytes(v),
        UserRequestFilter::MemberOf(g) => c matches UserCondition::MemberOfLowercaseName(s) && s@ == unicode_lower(g@),
        UserRequestFilter::UserIdSubString(sf) => c == UserCondition::UserIdMatches(sf),
        UserRequestFilter::SubString(col, sf) => c == UserCondition::ColumnMatches(col, sf),
        UserRequestFilter::CustomAttributePresent(n) => c == UserCondition::AttributeStored(n, None),
        UserRequestFilter::GreaterOrEqual(col, v) => c == UserCondition::DateAtLeast(col, v),
        UserRequestFilter::LessOrEqual(col, v) => c == UserCondition::DateAtMost(col, v),
        UserRequestFilter::AttributeGreaterOrEqual(n, v) => c == UserCondition::GroupAttributeAtLeast(n, v),
        UserRequestFilter::AttributeLessOrEqual(n, v) => c == UserCondition::GroupAttributeAtMost(n, v),
    }
}

/// The parts of a conjunction or disjunction.
spec fn user_parts_of(f: UserRequestFilter) -> Option<Seq<UserRequestFilter>> {
    match f {
        UserRequestFilter::And(v) => Some(v@),
        UserRequestFilter::Or(w) => Some(w@),
        _ => None,
    }
}

/// The conditions of the parts of a conjunction or disjunction, in order.
fn user_part_conditions(fs: Vec<UserRequestFilter>, Ghost(whole): Ghost<UserRequestFilter>) -> (r: Vec<UserCondition>)
    requires
        user_parts_of(whole) == Some(fs@),
        forall|i: int| 0 <= i < fs@.len() ==> user_query_supported(#[trigger] fs@[i]),
    ensures
        r@.len() == fs@.len(),
        forall|i: int| 0 <= i < fs@.len() ==> user_condition_of(fs@[i], #[trigger] r@[i]),
    decreases whole, 1nat,
{
    let ghost all = fs@;
    let mut rest = fs;
    let mut r: Vec<UserCondition> = Vec::new();
    while rest.len() > 0
        invariant
            rest@ == all.take(rest@.len() as int),
            rest@.len() <= all.len(),
            r@.len() == all.len() - rest@.len(),
            forall|j: int| 0 <= j < r@.len() ==> user_condition_of(all[rest@.len() + j], #[trigger] r@[j]),
            forall|i: int| 0 <= i < all.len() ==> user_query_supported(#[trigger] all[i]),
            user_parts_of(whole) == Some(all),
        decreases rest@.len(),
    {
        let k: usize = rest.len() - 1;
        let ghost before = r@;
        let x = rest.pop().unwrap();
        assert(x == all[k as int]);
        proof {
            if let UserRequestFilter::And(v) = whole {
                assert(decreases_to!(whole => whole->And_0));
                assert(decreases_to!(v => v@));
                assert(decreases_to!(v@ => v@[k as int]));
            } else if let UserRequestFilter::Or(w) = whole {
                assert(decreases_to!(whole => whole->Or_0));
                assert(decreases_to!(w => w@));
                assert(decreases_to!(w@ => w@[k as int]));
            }
        }
        let c = user_filter_condition_in(x, Ghost(whole));
        r.insert(0, c);
        assert(rest@ =~= all.take(rest@.len() as int));
        assert forall|j: int| 0 <= j < r@.len() implies user_condition_of(all[rest@.len() + j], #[trigger] r@[j]) by {
            if j > 0 {
                assert(r@[j] == before[j - 1]);
            }
        }
    }
    r
}

fn user_filter_condition_in(f: UserRequestFilter, Ghost(whole): Ghost<UserRequestFilter>) -> (r: UserCondition)
    requires
        decreases_to!(whole => f),
        user_query_supported(f),
    ensures
        user_condition_of(f, r),
    decreases whole, 0nat,
{
    user_filter_condition_rec(f)
}

fn user_filter_condition_rec(f: UserRequestFilter) -> (r: UserCondition)
    requires
        user_query_supported(f),
    ensures
        user_condition_of(f, r),
    decreases f, 2nat,
{
    match f {
        UserRequestFilter::True => UserCondition::Const(true),
        UserRequestFilter::False => UserCondition::Const(false),
        UserRequestFilter::And(fs) => {
            if fs.len() == 0 {
                UserCondition::Const(true)
            } else {
                let ghost whole = UserRequestFilter::And(fs);
                UserCondition::All(user_part_conditions(fs, Ghost(whole)))
            }
        },
        UserRequestFilter::Or(fs) => {
            if fs.len() == 0 {
                UserCondition::Const(false)
            } else {
                let ghost whole = UserRequestFilter::Or(fs);
                UserCondition::Any(user_part_conditions(fs, Ghost(whole)))
            }
        },
        UserRequestFilter::Not(b) => UserCondition::Not(Box::new(user_filter_condition_rec(*b))),
        UserRequestFilter::UserId(u) => UserCondition::UserIdIs(u),
        UserRequestFilter::Equality(col, v) => {
            if col == UserColumn::Email {
                UserCondition::ColumnIs(UserColumn::LowercaseEmail, to_lowercase(v.as_str()))
            } else {
                UserCondition::ColumnIs(col, v)
            }
        },
        UserRequestFilter::AttributeEquality(n, v) => {
            let b = attribute_value_to_db_bytes(&v);
            UserCondition::AttributeStored(n, Some(b))
        },
        UserRequestFilter::MemberOf(g) => UserCondition::MemberOfLowercaseName(to_lowercase(g.as_str())),
        UserRequestFilter::UserIdSubString(sf) => UserCondition::UserIdMatches(sf),
        UserRequestFilter::SubString(col, sf) => UserCondition::ColumnMatches(col, sf),
        UserRequestFilter::CustomAttributePresent(n) => UserCondition::AttributeStored(n, None),
        UserRequestFilter::GreaterOrEqual(col, v) => UserCondition::DateAtLeast(col, v),
        UserRequestFilter::LessOrEqual(col, v) => UserCondition::DateAtMost(col, v),
        UserRequestFilter::AttributeGreaterOrEqual(n, v) => UserCondition::GroupAttributeAtLeast(n, v),
        UserRequestFilter::AttributeLessOrEqual(n, v) => UserCondition::GroupAttributeAtMost(n, v),
    }
}

/// The database condition of a user query that the database can answer.
pub fn user_filter_condition(f: UserRequestFilter) -> (r: UserCondition)
    requires
        user_query_supported(f),
    ensures
        user_condition_of(f, r),
{
    user_filter_condition_rec(f)
}


/// Whether every query that a result holds can be put to the database.
pub open spec fn user_result_supported(r: Result<UserRequestFilter, LdapError>) -> bool {
    r matches Ok(x) ==> user_query_supported(x)
}

proof fn lemma_user_parts_supported(rs: Seq<Result<UserRequestFilter, LdapError>>)
    requires
        forall|i: int| 0 <= i < rs.len() ==> user_result_supported(#[trigger] rs[i]),
    ensures
        user_and_parts(rs) matches Ok(v) ==> forall|j: int| 0 <= j < v.len() ==> user_query_supported(#[trigger] v[j]),
        user_or_parts(rs) matches Ok(v) ==> forall|j: int| 0 <= j < v.len() ==> user_query_supported(#[trigger] v[j]),
    decreases rs.len(),
{
    if rs.len() > 0 {
        let a = rs.drop_last();
        assert forall|i: int| 0 <= i < a.len() implies user_result_supported(#[trigger] a[i]) by {
            assert(user_result_supported(rs[i]));
        }
        lemma_user_parts_supported(a);
        assert(user_result_supported(rs[rs.len() - 1]));
    }
}

/// Every query that `convert_user_filter` gives can be put to the database.
pub proof fn converted_user_queries_are_supported(
    base: Seq<(Seq<char>, Seq<char>)>,
    m: AttrMap,
    ua: Seq<AttrView>,
    f: LdapFilter,
    r: Result<UserRequestFilter, LdapError>,
)
    requires
        user_filter_rel(base, m, ua, f, r),
    ensures
        user_result_supported(r),
    decreases f,
{
    match f {
        LdapFilter::And(fs) => {
            let rs = choose|rs: Seq<Result<UserRequestFilter, LdapError>>|
                #[trigger] evaluated_up_to_error(fs@.len(), rs) && (forall|i: int| 0 <= i < rs.len() ==> user_filter_rel(base, m, ua, fs@[i], #[trigger] rs[i]))
                    && match user_and_parts(rs) {
                        Err(e) => r == Err::<UserRequestFilter, LdapError>(e),
                        Ok(v) => if v.len() == 0 {
                            r matches Ok(UserRequestFilter::True)
                        } else if v.len() == 1 {
                            r == Ok::<UserRequestFilter, LdapError>(v[0])
                        } else {
                            r matches Ok(UserRequestFilter::And(w)) && w@ == v
                        },
                    };
            assert forall|i: int| 0 <= i < rs.len() implies user_result_supported(#[trigger] rs[i]) by {
                assert(decreases_to!(f => f->And_0));
                assert(decreases_to!(fs => fs@));
                assert(decreases_to!(fs@ => fs@[i]));
                converted_user_queries_are_supported(base, m, ua, fs@[i], rs[i]);
            }
            lemma_user_parts_supported(rs);
            if let Ok(v) = user_and_parts(rs) {
                if v.len() >= 2 {
                    let w = r->Ok_0->And_0;
                    assert forall|j: int| 0 <= j < w@.len() implies user_query_supported(#[trigger] w@[j]) by {
                        assert(w@[j] == v[j]);
                    }
                }
            }
        },
        LdapFilter::Or(fs) => {
            let rs = choose|rs: Seq<Result<UserRequestFilter, LdapError>>|
                #[trigger] evaluated_up_to_error(fs@.len(), rs) && (forall|i: int| 0 <= i < rs.len() ==> user_filter_rel(base, m, ua, fs@[i], #[trigger] rs[i]))
                    && match user_or_parts(rs) {
                        Err(e) => r == Err::<UserRequestFilter, LdapError>(e),
                        Ok(v) => if v.len() == 0 {
                            r matches Ok(UserRequestFilter::False)
                        } else if v.len() == 1 {
                            r == Ok::<UserRequestFilter, LdapError>(v[0])
                        } else {
                            r matches Ok(UserRequestFilter::Or(w)) && w@ == v
                        },
                    };
            assert forall|i: int| 0 <= i < rs.len() implies user_result_supported(#[trigger] rs[i]) by {
                assert(decreases_to!(f => f->Or_0));
                assert(decreases_to!(fs => fs@));
                assert(decreases_to!(fs@ => fs@[i]));
                converted_user_queries_are_supported(base, m, ua, fs@[i], rs[i]);
            }
            lemma_user_parts_supported(rs);
            if let Ok(v) = user_or_parts(rs) {
                if v.len() >= 2 {
                    let w = r->Ok_0->Or_0;
                    assert forall|j: int| 0 <= j < w@.len() implies user_query_supported(#[trigger] w@[j]) by {
                        assert(w@[j] == v[j]);
                    }
                }
            }
        },
        LdapFilter::Not(g) => {
            assert(decreases_to!(f => f->Not_0));
            converted_user_queries_are_supported(base, m, ua, *g, user_negated(r));
        },
        LdapFilter::Equality(field, value) => {
            if let FieldKind::Attribute(n, t, l) = user_field_of(m, ua, lower(field@)) {
                let (o1, o2) = choose|o1: Result<AttributeValue, String>, o2: Result<AttributeValue, String>|
                    #[trigger] deserialized(seq![value@], t, l, o1) && #[trigger] deserialized(seq![lower(value@)], t, l, o2) && match (o1, o2) {
                        (Ok(v), Ok(vlc)) => r matches Ok(UserRequestFilter::Or(w)) && w@.len() == 2
                            && (w@[0] matches UserRequestFilter::AttributeEquality(a, x) && a@ == n && x == v)
                            && (w@[1] matches UserRequestFilter::AttributeEquality(b, y) && b@ == n && y == vlc),
                        _ => r matches Ok(UserRequestFilter::False),
                    };
                if let Ok(UserRequestFilter::Or(w)) = r {
                    assert forall|j: int| 0 <= j < w@.len() implies user_query_supported(#[trigger] w@[j]) by {
                        if j == 0 {} else {}
                    }
                }
            }
        },
        _ => {},
    }
}


/// What a date condition asks of a user: given the instant each date column of the
/// user holds and the instant a bound text stands for, whether the user is selected
/// (`None` for conditions that are not about dates).
pub open spec fn date_condition_selects(
    c: UserCondition,
    user_dates: spec_fn(UserColumn) -> int,
    instant_of: spec_fn(Seq<char>) -> int,
) -> Option<bool> {
    match c {
        UserCondition::DateAtLeast(col, v) => Some(user_dates(col) >= instant_of(v@)),
        UserCondition::DateAtMost(col, v) => Some(user_dates(col) <= instant_of(v@)),
        _ => None,
    }
}

/// An order comparison on a date column selects by that column, in its direction: the
/// condition of `GreaterOrEqual(col, v)` selects exactly the users whose `col` is at or
/// after the instant of `v`, that of `LessOrEqual(col, v)` those at or before it.
pub proof fn user_date_conditions_keep_direction(
    col: UserColumn,
    v: String,
    c: UserCondition,
    user_dates: spec_fn(UserColumn) -> int,
    instant_of: spec_fn(Seq<char>) -> int,
)
    ensures
        user_condition_of(UserRequestFilter::GreaterOrEqual(col, v), c) ==> date_condition_selects(c, user_dates, instant_of)
            == Some(user_dates(col) >= instant_of(v@)),
        user_condition_of(UserRequestFilter::LessOrEqual(col, v), c) ==> date_condition_selects(c, user_dates, instant_of)
            == Some(user_dates(col) <= instant_of(v@)),
{
}

} // verus!
