//! Everything that creating a user decides, from the request and what the database
//! holds: the default OU, the checks of the POSIX numbers, the free `uidnumber`, the
//! POSIX attributes given and the rows stored.
use vstd::prelude::*;
use crate::schema::{attr_views, PublicSchema};
use crate::storage::{
    assign_user_posix, check_views, creation_checks, extended_by, first_number_candidate, has_attr_named,
    lemma_has_named_extended, needs_uid_number, new_user_rows, next_number_candidate, number_taken_error,
    posix_creation_checks, row_views, taken_message, unless_named, user_attribute_rows, user_posix_additions,
    with_default_ou, NumberSearch, PlainValue, PosixCheck, PosixCheckView, PosixSettings,
};
use crate::text::{copy_str, int_text, views};
use crate::types::{Attribute, AttributeName, AttributeValue, Cardinality, UserId};

verus! {

/// The OU a new user is put in when the request names none: the first allowed OU, else
/// `people`.
pub open spec fn default_ou_of(allowed: Seq<Seq<char>>) -> Seq<char> {
    if allowed.len() > 0 {
        allowed[0]
    } else {
        "people"@
    }
}

/// Why a POSIX check fails, if it does: a number out of range, or a `uidnumber` that a
/// user holds, or a `gidnumber` that a group holds.
pub open spec fn check_failure(c: PosixCheckView, taken_uids: Seq<i64>, taken_gids: Seq<i64>) -> Option<Seq<char>> {
    match c {
        PosixCheckView::Invalid(m) => Some(m),
        PosixCheckView::Taken(n, v) => if (n == "uidnumber"@ && taken_uids.contains(v as i64)) || (n == "gidnumber"@
            && taken_gids.contains(v as i64)) {
            Some(taken_message(v))
        } else {
            None
        },
    }
}

/// The failure of the first check that fails, in order.
pub open spec fn first_failure(cs: Seq<PosixCheckView>, taken_uids: Seq<i64>, taken_gids: Seq<i64>) -> Option<Seq<char>>
    decreases cs.len(),
{
    if cs.len() == 0 {
        None
    } else {
        match first_failure(cs.drop_last(), taken_uids, taken_gids) {
            Some(m) => Some(m),
            None => check_failure(cs.last(), taken_uids, taken_gids),
        }
    }
}

/// Whether the number `k` is among the taken ones.
pub open spec fn is_taken(taken: Seq<i64>, k: int) -> bool {
    taken.contains(k as i64)
}

/// Whether `n` is the smallest number of `[start, max]` that is not taken.
pub open spec fn is_first_free(n: int, start: int, max: int, taken: Seq<i64>) -> bool {
    &&& start <= n <= max
    &&& !taken.contains(n as i64)
    &&& forall|k: int| start <= k < n ==> #[trigger] is_taken(taken, k)
}

/// The smallest number of `[start, max]` that is not taken, when there is one.
pub open spec fn first_free(start: int, max: int, taken: Seq<i64>) -> int {
    choose|n: int| is_first_free(n, start, max, taken)
}

proof fn lemma_first_free_unique(n: int, start: int, max: int, taken: Seq<i64>)
    requires
        is_first_free(n, start, max, taken),
    ensures
        first_free(start, max, taken) == n,
{
    let m = first_free(start, max, taken);
    assert(is_first_free(m, start, max, taken));
    if m < n {
        assert(is_taken(taken, m));
    } else if n < m {
        assert(is_taken(taken, n));
    }
}

proof fn lemma_extended_twice(
    r: Seq<Attribute>,
    mid: Seq<Attribute>,
    attrs: Seq<Attribute>,
    a1: Seq<(Seq<char>, PlainValue)>,
    a2: Seq<(Seq<char>, PlainValue)>,
)
    requires
        extended_by(mid, attrs, a1),
        extended_by(r, mid, a2),
    ensures
        extended_by(r, attrs, a1 + a2),
{
    assert(r.take(attrs.len() as int) =~= mid.take(attrs.len() as int));
    assert forall|k: int| 0 <= k < (a1 + a2).len() implies crate::storage::holds_plain(
        #[trigger] r[attrs.len() + k],
        (a1 + a2)[k].0,
        (a1 + a2)[k].1,
    ) by {
        if k < a1.len() {
            assert(crate::storage::holds_plain(mid[attrs.len() + k], a1[k].0, a1[k].1));
            assert(r[attrs.len() + k] == mid[attrs.len() + k]);
        } else {
            assert(crate::storage::holds_plain(r[mid.len() + (k - a1.len())], a2[k - a1.len()].0, a2[k - a1.len()].1));
        }
    }
}

/// Whether every number of `[start, max]` is taken.
pub open spec fn all_taken(start: int, max: int, taken: Seq<i64>) -> bool {
    forall|k: int| start <= k <= max ==> #[trigger] is_taken(taken, k)
}

fn holds_number(taken: &[i64], v: i64) -> (r: bool)
    ensures
        r == taken@.contains(v),
{
    let mut i: usize = 0;
    while i < taken.len()
        invariant
            i <= taken@.len(),
            forall|j: int| 0 <= j < i ==> taken@[j] != v,
        decreases taken@.len() - i,
    {
        if taken[i] == v {
            return true;
        }
        i += 1;
    }
    false
}

fn default_ou(allowed: &[String]) -> (r: String)
    ensures
        r@ == default_ou_of(views(allowed@)),
{
    if allowed.len() > 0 {
        copy_str(allowed[0].as_str())
    } else {
        copy_str("people")
    }
}

/// Runs the POSIX checks in order: the failure of the first that fails.
pub fn first_check_failure(checks: &Vec<PosixCheck>, taken_uids: &[i64], taken_gids: &[i64]) -> (r: Option<String>)
    ensures
        match first_failure(check_views(checks@), taken_uids@, taken_gids@) {
            Some(m) => r matches Some(e) && e@ == m,
            None => r is None,
        },
{
    let ghost cv = check_views(checks@);
    let mut i: usize = 0;
    while i < checks.len()
        invariant
            i <= checks@.len(),
            cv == check_views(checks@),
            first_failure(cv.take(i as int), taken_uids@, taken_gids@) is None,
        decreases checks@.len() - i,
    {
        assert(cv.take(i + 1).drop_last() =~= cv.take(i as int));
        let failure = match &checks[i] {
            PosixCheck::Invalid(m) => Some(copy_str(m.as_str())),
            PosixCheck::Taken(n, v) => {
                let uid = crate::text::str_eq(n.as_str(), "uidnumber");
                let gid = crate::text::str_eq(n.as_str(), "gidnumber");
                if (uid && holds_number(taken_uids, *v)) || (gid && holds_number(taken_gids, *v)) {
                    Some(number_taken_error(*v))
                } else {
                    None
                }
            },
        };
        match failure {
            Some(e) => {
                proof {
                    lemma_first_failure_prefix(cv, taken_uids@, taken_gids@, i as int + 1);
                }
                return Some(e);
            },
            None => {},
        }
        i += 1;
    }
    assert(cv.take(checks@.len() as int) =~= cv);
    None
}

proof fn lemma_first_failure_prefix(cs: Seq<PosixCheckView>, tu: Seq<i64>, tg: Seq<i64>, k: int)
    requires
        0 <= k <= cs.len(),
        first_failure(cs.take(k), tu, tg) is Some,
    ensures
        first_failure(cs, tu, tg) == first_failure(cs.take(k), tu, tg),
    decreases cs.len() - k,
{
    if k < cs.len() {
        assert(cs.take(k + 1).drop_last() =~= cs.take(k));
        lemma_first_failure_prefix(cs, tu, tg, k + 1);
    } else {
        assert(cs.take(k) =~= cs);
    }
}

/// The message when the range of numbers to search is empty.
pub open spec fn empty_range_message(kind: Seq<char>, start: int, max: int) -> Seq<char> {
    kind + " start ("@ + int_text(start) + ") > max ("@ + int_text(max) + ")"@
}

/// The message when every number of the range is taken.
pub open spec fn exhausted_message(kind: Seq<char>, start: int, max: int) -> Seq<char> {
    "No available "@ + kind + " in range "@ + int_text(start) + "-"@ + int_text(max) + " (all taken)"@
}

/// The smallest number of `[start, max]` that is not taken (`kind` names the number).
pub fn find_free_number(kind: &str, start: i64, max: i64, taken: &[i64]) -> (r: Result<i64, String>)
    ensures
        start > max ==> (r matches Err(m) && m@ == empty_range_message(kind@, start as int, max as int)),
        start <= max && all_taken(start as int, max as int, taken@) ==> (r matches Err(m) && m@ == exhausted_message(
            kind@,
            start as int,
            max as int,
        )),
        start <= max && !all_taken(start as int, max as int, taken@) ==> (r matches Ok(n) && is_first_free(
            n as int,
            start as int,
            max as int,
            taken@,
        )),
{
    let mut c: i64 = match first_number_candidate(kind, start, max) {
        NumberSearch::Exhausted(m) => return Err(m),
        NumberSearch::Check(c) => c,
    };
    loop
        invariant
            start <= c <= max,
            forall|k: int| start <= k < c ==> #[trigger] is_taken(taken@, k),
        decreases max - c,
    {
        if !holds_number(taken, c) {
            proof {
                assert(!is_taken(taken@, c as int));
                assert(!all_taken(start as int, max as int, taken@));
            }
            return Ok(c);
        }
        match next_number_candidate(kind, start, max, c) {
            NumberSearch::Check(n) => {
                c = n;
            },
            NumberSearch::Exhausted(m) => {
                proof {
                    assert forall|k: int| start <= k <= max implies #[trigger] is_taken(taken@, k) by {
                        if k == c {
                        }
                    }
                }
                return Err(m);
            },
        }
    }
}

/// What creating a user stores: its attributes, with the OU and POSIX attributes it is
/// given, and the attribute rows.
pub struct UserCreationPlan {
    pub attributes: Vec<Attribute>,
    pub rows: Vec<(AttributeName, Vec<u8>)>,
}

proof fn lemma_checks_ignore_text(attrs: Seq<Attribute>, a: Attribute)
    requires
        a.value is String,
    ensures
        creation_checks(attrs.push(a)) == creation_checks(attrs),
{
    assert(attrs.push(a).drop_last() =~= attrs);
}

/// Decides the creation of user `user_id` with the requested attributes, given the
/// allowed OUs, the POSIX settings, the `uidnumber`s that users hold and the
/// `gidnumber`s that groups hold:
/// - the user is put in the default OU when the request names no `ou`;
/// - each requested `uidnumber` or `gidnumber` must be 0 or between 3000 and 60000, and
///   not held already; the first failing check refuses the creation;
/// - when the settings assign user ids and none is requested, the smallest free number
///   of the configured range is taken, and the creation is refused when there is none;
/// - the POSIX attributes that the settings ask for are added, and the rows stored are
///   those of the attributes that the schema knows.
pub fn plan_user_creation(
    user_id: &UserId,
    attributes: Vec<Attribute>,
    allowed_ous: &[String],
    settings: &PosixSettings,
    taken_uids: &[i64],
    taken_gids: &[i64],
    schema: &PublicSchema,
) -> (r: Result<UserCreationPlan, String>)
    ensures
        ({
            let checks = creation_checks(attributes@);
            let needs_uid = settings.user_uidnumber_assign && !has_attr_named(attributes@, "uidnumber"@);
            let (start, max) = (settings.user_uidnumber_start as int, settings.user_uidnumber_max as int);
            let ou_adds = unless_named(attributes@, true, "ou"@, PlainValue::Text(default_ou_of(views(allowed_ous@))));
            &&& first_failure(checks, taken_uids@, taken_gids@) matches Some(m) ==> (r matches Err(e) && e@ == m)
            &&& first_failure(checks, taken_uids@, taken_gids@) is None ==> {
                &&& needs_uid && start > max ==> (r matches Err(e) && e@ == empty_range_message("uidNumber"@, start, max))
                &&& needs_uid && start <= max && all_taken(start, max, taken_uids@) ==> (r matches Err(e) && e@
                    == exhausted_message("uidNumber"@, start, max))
                &&& (!needs_uid || (start <= max && !all_taken(start, max, taken_uids@))) ==> (r matches Ok(plan)
                    && extended_by(
                    plan.attributes@,
                    attributes@,
                    ou_adds + user_posix_additions(attributes@, *settings, first_free(start, max, taken_uids@), user_id@),
                ) && row_views(plan.rows@) == new_user_rows(plan.attributes@, attr_views(schema.0.user_attributes.attributes@)))
            }
        }),
{
    let ghost attrs = attributes@;
    let ou = default_ou(allowed_ous);
    let with_ou = with_default_ou(attributes, ou.as_str());
    let ghost mid = with_ou@;
    let ghost ou_adds = unless_named(attrs, true, "ou"@, PlainValue::Text(ou@));
    proof {
        reveal_strlit("ou");
        reveal_strlit("uidnumber");
        if ou_adds.len() == 1 {
            assert(mid.drop_last() =~= attrs);
            assert(mid =~= attrs.push(mid[attrs.len() as int]));
            assert(crate::storage::holds_plain(mid[attrs.len() + 0int], ou_adds[0].0, ou_adds[0].1));
            lemma_checks_ignore_text(attrs, mid[attrs.len() as int]);
        } else {
            assert(mid =~= attrs);
        }
        assert forall|k: int| 0 <= k < ou_adds.len() implies crate::text::lower((#[trigger] ou_adds[k]).0) != "uidnumber"@ by {
            assert(crate::text::lower("ou"@)[0] != "uidnumber"@[0]);
        }
        lemma_has_named_extended(mid, attrs, ou_adds, "uidnumber"@);
    }
    let checks = posix_creation_checks(with_ou.as_slice());
    match first_check_failure(&checks, taken_uids, taken_gids) {
        Some(e) => return Err(e),
        None => {},
    }
    let needs = needs_uid_number(&with_ou, settings);
    let uid: i64 = if needs {
        match find_free_number("uidNumber", settings.user_uidnumber_start, settings.user_uidnumber_max, taken_uids) {
            Ok(n) => n,
            Err(m) => {
                proof {
                    reveal_strlit("uidNumber");
                }
                return Err(m);
            },
        }
    } else {
        0
    };
    let all = assign_user_posix(with_ou, settings, uid, user_id);
    let rows = user_attribute_rows(&all, schema);
    let plan = UserCreationPlan { attributes: all, rows };
    proof {
        let u = uid as int;
        let (start, max) = (settings.user_uidnumber_start as int, settings.user_uidnumber_max as int);
        if needs {
            lemma_first_free_unique(u, start, max, taken_uids@);
        }
        reveal_strlit("gidnumber");
        reveal_strlit("loginshell");
        reveal_strlit("homedirectory");
        assert forall|k: int| 0 <= k < ou_adds.len() implies crate::text::lower((#[trigger] ou_adds[k]).0) != "gidnumber"@ by {
            assert(crate::text::lower("ou"@)[0] != "gidnumber"@[0]);
        }
        assert forall|k: int| 0 <= k < ou_adds.len() implies crate::text::lower((#[trigger] ou_adds[k]).0) != "loginshell"@ by {
            assert(crate::text::lower("ou"@)[0] != "loginshell"@[0]);
        }
        assert forall|k: int| 0 <= k < ou_adds.len() implies crate::text::lower((#[trigger] ou_adds[k]).0) != "homedirectory"@ by {
            assert(crate::text::lower("ou"@)[0] != "homedirectory"@[0]);
        }
        lemma_has_named_extended(mid, attrs, ou_adds, "gidnumber"@);
        lemma_has_named_extended(mid, attrs, ou_adds, "loginshell"@);
        lemma_has_named_extended(mid, attrs, ou_adds, "homedirectory"@);
        let adds = user_posix_additions(attrs, *settings, first_free(start, max, taken_uids@), user_id@);
        assert(user_posix_additions(mid, *settings, u, user_id@) == adds);
        lemma_extended_twice(plan.attributes@, mid, attrs, ou_adds, adds);
        assert(ou_adds == unless_named(attrs, true, "ou"@, PlainValue::Text(default_ou_of(views(allowed_ous@)))));
    }
    Ok(plan)
}

} // verus!
