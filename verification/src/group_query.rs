//! The database condition that selects the groups a group query asks for.
use vstd::prelude::*;
use crate::filters::{GroupRequestFilter, SubStringFilter};
use crate::storage::{attribute_value_to_db_bytes, db_bytes};
use crate::text::{lower, str_eq, to_ascii_lowercase, to_lowercase, unicode_lower};
use crate::types::{AttributeName, UserId};

verus! {

/// A date column of the groups table.
#[derive(Clone, Copy, Debug, PartialEq, Eq, Structural)]
pub enum GroupDateColumn {
    CreationDate,
    ModifiedDate,
}

/// A condition on stored groups.
#[derive(Debug, PartialEq, Eq)]
pub enum GroupCondition {
    /// Always holds, or never.
    Const(bool),
    /// All of the conditions hold.
    All(Vec<GroupCondition>),
    /// One of the conditions holds.
    Any(Vec<GroupCondition>),
    Not(Box<GroupCondition>),
    /// The stored lowercase display name is this text.
    LowercaseNameIs(String),
    IdIs(i32),
    UuidIs(String),
    /// The user is a member of the group.
    HasMember(UserId),
    /// The lowercased display name matches the substring pattern.
    NameMatches(SubStringFilter),
    /// The group has the attribute, with these stored bytes when some are given.
    AttributeStored(AttributeName, Option<Vec<u8>>),
    /// The date column is at least, or at most, the given value.
    DateAtLeast(GroupDateColumn, String),
    DateAtMost(GroupDateColumn, String),
    /// A stored value of the attribute is at least, or at most, the given text.
    AttributeAtLeast(AttributeName, String),
    AttributeAtMost(AttributeName, String),
}

/// The date column that a (lowercased) column name of a date comparison names.
pub open spec fn date_column_named(col: Seq<char>) -> Option<GroupDateColumn> {
    if col == "creationdate"@ {
        Some(GroupDateColumn::CreationDate)
    } else if col == "modifieddate"@ {
        Some(GroupDateColumn::ModifiedDate)
    } else {
        None
    }
}

/// Whether `c` is the condition of the group query `f`: constants stay constants, an empty
/// conjunction always holds and an empty disjunction never, the others keep their parts
/// in order; names are compared lowercased, attribute values in their stored bytes; a
/// date comparison on a column other than the creation or modification date matches
/// nothing.
pub open spec fn group_condition_of(f: GroupRequestFilter, c: GroupCondition) -> bool
    decreases f,
{
    match f {
        GroupRequestFilter::True => c == GroupCondition::Const(true),
        GroupRequestFilter::False => c == GroupCondition::Const(false),
        GroupRequestFilter::And(fs) => if fs@.len() == 0 {
            c == GroupCondition::Const(true)
        } else {
            c matches GroupCondition::All(cs) && cs@.len() == fs@.len() && forall|i: int|
                0 <= i < fs@.len() ==> group_condition_of(fs@[i], #[trigger] cs@[i])
        },
        GroupRequestFilter::Or(fs) => if fs@.len() == 0 {
            c == GroupCondition::Const(false)
        } else {
            c matches GroupCondition::Any(cs) && cs@.len() == fs@.len() && forall|i: int|
                0 <= i < fs@.len() ==> group_condition_of(fs@[i], #[trigger] cs@[i])
        },
        GroupRequestFilter::Not(b) => c matches GroupCondition::Not(cb) && group_condition_of(*b, *cb),
        GroupRequestFilter::DisplayName(n) => c matches GroupCondition::LowercaseNameIs(s) && s@ == unicode_lower(n@),
        GroupRequestFilter::GroupId(id) => c == GroupCondition::IdIs(id.0),
        GroupRequestFilter::Uuid(u) => c == GroupCondition::UuidIs(u.0),
        GroupRequestFilter::Member(u) => c == GroupCondition::HasMember(u),
        GroupRequestFilter::DisplayNameSubString(sf) => c == GroupCondition::NameMatches(sf),
        GroupRequestFilter::AttributeEquality(n, v) => c matches GroupCondition::AttributeStored(n2, Some(b)) && n2 == n
            && b@ == db_bytes(v),
        GroupRequestFilter::CustomAttributePresent(n) => c == GroupCondition::AttributeStored(n, None),
        GroupRequestFilter::GreaterOrEqual(col, v) => match date_column_named(lower(col@)) {
            Some(d) => c == GroupCondition::DateAtLeast(d, v),
            None => c == GroupCondition::Const(false),
        },
        GroupRequestFilter::LessOrEqual(col, v) => match date_column_named(lower(col@)) {
            Some(d) => c == GroupCondition::DateAtMost(d, v),
            None => c == GroupCondition::Const(false),
        },
        GroupRequestFilter::AttributeGreaterOrEqual(n, v) => c == GroupCondition::AttributeAtLeast(n, v),
        GroupRequestFilter::AttributeLessOrEqual(n, v) => c == GroupCondition::AttributeAtMost(n, v),
    }
}

fn date_column(col: &str) -> (r: Option<GroupDateColumn>)
    ensures
        r == date_column_named(lower(col@)),
{
    let l = to_ascii_lowercase(col);
    if str_eq(l.as_str(), "creationdate") {
        Some(GroupDateColumn::CreationDate)
    } else if str_eq(l.as_str(), "modifieddate") {
        Some(GroupDateColumn::ModifiedDate)
    } else {
        None
    }
}

/// The parts of a conjunction or disjunction.
spec fn parts_of(f: GroupRequestFilter) -> Option<Seq<GroupRequestFilter>> {
    match f {
        GroupRequestFilter::And(v) => Some(v@),
        GroupRequestFilter::Or(w) => Some(w@),
        _ => None,
    }
}

/// The conditions of the parts of a conjunction or disjunction, in order.
fn part_conditions(fs: Vec<GroupRequestFilter>, Ghost(whole): Ghost<GroupRequestFilter>) -> (r: Vec<GroupCondition>)
    requires
        parts_of(whole) == Some(fs@),
    ensures
        r@.len() == fs@.len(),
        forall|i: int| 0 <= i < fs@.len() ==> group_condition_of(fs@[i], #[trigger] r@[i]),
    decreases whole, 1nat,
{
    let ghost all = fs@;
    let mut rest = fs;
    let mut r: Vec<GroupCondition> = Vec::new();
    while rest.len() > 0
        invariant
            rest@ == all.take(rest@.len() as int),
            rest@.len() <= all.len(),
            r@.len() == all.len() - rest@.len(),
            forall|j: int| 0 <= j < r@.len() ==> group_condition_of(all[rest@.len() + j], #[trigger] r@[j]),
            parts_of(whole) == Some(all),
        decreases rest@.len(),
    {
        let k: usize = rest.len() - 1;
        let ghost before = r@;
        let x = rest.pop().unwrap();
        assert(x == all[k as int]);
        proof {
            if let GroupRequestFilter::And(v) = whole {
                assert(decreases_to!(whole => whole->And_0));
                assert(decreases_to!(v => v@));
                assert(decreases_to!(v@ => v@[k as int]));
            } else if let GroupRequestFilter::Or(w) = whole {
                assert(decreases_to!(whole => whole->Or_0));
                assert(decreases_to!(w => w@));
                assert(decreases_to!(w@ => w@[k as int]));
            }
        }
        let c = group_filter_condition_in(x, Ghost(whole));
        r.insert(0, c);
        assert(rest@ =~= all.take(rest@.len() as int));
        assert forall|j: int| 0 <= j < r@.len() implies group_condition_of(all[rest@.len() + j], #[trigger] r@[j]) by {
            if j > 0 {
                assert(r@[j] == before[j - 1]);
            }
        }
    }
    r
}

fn group_filter_condition_in(f: GroupRequestFilter, Ghost(whole): Ghost<GroupRequestFilter>) -> (r: GroupCondition)
    requires
        decreases_to!(whole => f),
    ensures
        group_condition_of(f, r),
    decreases whole, 0nat,
{
    group_filter_condition_rec(f)
}

fn group_filter_condition_rec(f: GroupRequestFilter) -> (r: GroupCondition)
    ensures
        group_condition_of(f, r),
    decreases f, 2nat,
{
    match f {
        GroupRequestFilter::True => GroupCondition::Const(true),
        GroupRequestFilter::False => GroupCondition::Const(false),
        GroupRequestFilter::And(fs) => {
            if fs.len() == 0 {
                GroupCondition::Const(true)
            } else {
                let ghost whole = GroupRequestFilter::And(fs);
                GroupCondition::All(part_conditions(fs, Ghost(whole)))
            }
        },
        GroupRequestFilter::Or(fs) => {
            if fs.len() == 0 {
                GroupCondition::Const(false)
            } else {
                let ghost whole = GroupRequestFilter::Or(fs);
                GroupCondition::Any(part_conditions(fs, Ghost(whole)))
            }
        },
        GroupRequestFilter::Not(b) => GroupCondition::Not(Box::new(group_filter_condition_rec(*b))),
        GroupRequestFilter::DisplayName(n) => GroupCondition::LowercaseNameIs(to_lowercase(n.as_str())),
        GroupRequestFilter::GroupId(id) => GroupCondition::IdIs(id.0),
        GroupRequestFilter::Uuid(u) => GroupCondition::UuidIs(u.0),
        GroupRequestFilter::Member(u) => GroupCondition::HasMember(u),
        GroupRequestFilter::DisplayNameSubString(sf) => GroupCondition::NameMatches(sf),
        GroupRequestFilter::AttributeEquality(n, v) => {
            let b = attribute_value_to_db_bytes(&v);
            GroupCondition::AttributeStored(n, Some(b))
        },
        GroupRequestFilter::CustomAttributePresent(n) => GroupCondition::AttributeStored(n, None),
        GroupRequestFilter::GreaterOrEqual(col, v) => match date_column(col.as_str()) {
            Some(d) => GroupCondition::DateAtLeast(d, v),
            None => GroupCondition::Const(false),
        },
        GroupRequestFilter::LessOrEqual(col, v) => match date_column(col.as_str()) {
            Some(d) => GroupCondition::DateAtMost(d, v),
            None => GroupCondition::Const(false),
        },
        GroupRequestFilter::AttributeGreaterOrEqual(n, v) => GroupCondition::AttributeAtLeast(n, v),
        GroupRequestFilter::AttributeLessOrEqual(n, v) => GroupCondition::AttributeAtMost(n, v),
    }
}

/// The database condition of a group query.
pub fn group_filter_condition(f: GroupRequestFilter) -> (r: GroupCondition)
    ensures
        group_condition_of(f, r),
{
    group_filter_condition_rec(f)
}


/// What a date condition asks of a group: given the instant each date column of the
/// group holds and the instant a bound text stands for, whether the group is selected
/// (`None` for conditions that are not about dates).
pub open spec fn group_date_condition_selects(
    c: GroupCondition,
    group_dates: spec_fn(GroupDateColumn) -> int,
    instant_of: spec_fn(Seq<char>) -> int,
) -> Option<bool> {
    match c {
        GroupCondition::DateAtLeast(col, v) => Some(group_dates(col) >= instant_of(v@)),
        GroupCondition::DateAtMost(col, v) => Some(group_dates(col) <= instant_of(v@)),
        _ => None,
    }
}

/// An order comparison on `creationDate` or `modifiedDate` (any case) selects by that
/// column, in its direction: `GreaterOrEqual` the groups at or after the instant of the
/// bound, `LessOrEqual` those at or before it; on another column it selects nothing.
pub proof fn group_date_conditions_keep_direction(
    col: String,
    v: String,
    c: GroupCondition,
    group_dates: spec_fn(GroupDateColumn) -> int,
    instant_of: spec_fn(Seq<char>) -> int,
)
    ensures
        lower(col@) == "creationdate"@ && group_condition_of(GroupRequestFilter::GreaterOrEqual(col, v), c)
            ==> group_date_condition_selects(c, group_dates, instant_of) == Some(
            group_dates(GroupDateColumn::CreationDate) >= instant_of(v@),
        ),
        lower(col@) == "modifieddate"@ && group_condition_of(GroupRequestFilter::GreaterOrEqual(col, v), c)
            ==> group_date_condition_selects(c, group_dates, instant_of) == Some(
            group_dates(GroupDateColumn::ModifiedDate) >= instant_of(v@),
        ),
        lower(col@) == "creationdate"@ && group_condition_of(GroupRequestFilter::LessOrEqual(col, v), c)
            ==> group_date_condition_selects(c, group_dates, instant_of) == Some(
            group_dates(GroupDateColumn::CreationDate) <= instant_of(v@),
        ),
        lower(col@) == "modifieddate"@ && group_condition_of(GroupRequestFilter::LessOrEqual(col, v), c)
            ==> group_date_condition_selects(c, group_dates, instant_of) == Some(
            group_dates(GroupDateColumn::ModifiedDate) <= instant_of(v@),
        ),
        lower(col@) != "creationdate"@ && lower(col@) != "modifieddate"@ && (group_condition_of(
            GroupRequestFilter::GreaterOrEqual(col, v),
            c,
        ) || group_condition_of(GroupRequestFilter::LessOrEqual(col, v), c)) ==> c == GroupCondition::Const(false),
{
    reveal_strlit("creationdate");
    reveal_strlit("modifieddate");
    assert("creationdate"@[0] != "modifieddate"@[0]);
}

} // verus!
