//! The LDAP compare operation, answered from the entries of a search.
use vstd::prelude::*;
use crate::proto::{
    LdapCompareRequest, LdapError, LdapOp, LdapPartialAttribute, LdapResultCode, LdapResultOp,
    LdapSearchResultEntry,
};
use crate::text::{copy_str, eq_ic, eq_ignore_ascii_case, lower};

verus! {

/// The entries among search responses, in order.
pub open spec fn result_entries(ops: Seq<LdapOp>) -> Seq<LdapSearchResultEntry>
    decreases ops.len(),
{
    if ops.len() == 0 {
        Seq::empty()
    } else {
        let r = result_entries(ops.drop_last());
        match ops.last() {
            LdapOp::SearchResultEntry(e) => r.push(e),
            _ => r,
        }
    }
}

/// The index of the first entry whose DN is `dn` (without ASCII case).
pub open spec fn first_with_dn(entries: Seq<LdapSearchResultEntry>, dn: Seq<char>) -> Option<int>
    decreases entries.len(),
{
    if entries.len() == 0 {
        None
    } else if eq_ic(entries[0].dn@, dn) {
        Some(0)
    } else {
        match first_with_dn(entries.drop_first(), dn) {
            Some(i) => Some(i + 1),
            None => None,
        }
    }
}

/// Whether the entry holds the value for the attribute (names compared without ASCII case).
pub open spec fn entry_holds(e: LdapSearchResultEntry, atype: Seq<char>, val: Seq<u8>) -> bool {
    exists|i: int, j: int|
        0 <= i < e.attributes@.len() && 0 <= j < e.attributes@[i].vals@.len()
            && #[trigger] eq_ic(e.attributes@[i].atype@, atype) && #[trigger] e.attributes@[i].vals@[j]@ == val
}

/// The compare result: `CompareTrue` or `CompareFalse` for the entry with the DN of
/// the request, `NoSuchObject` (naming the base DN) when the search gave none.
pub open spec fn compare_outcome(
    request: LdapCompareRequest,
    ops: Seq<LdapOp>,
    base_dn: Seq<char>,
) -> (LdapResultCode, Seq<char>) {
    let entries = result_entries(ops);
    match first_with_dn(entries, request.dn@) {
        Some(i) => (
            if entry_holds(entries[i], request.atype@, request.val@) {
                LdapResultCode::CompareTrue
            } else {
                LdapResultCode::CompareFalse
            },
            request.dn@,
        ),
        None => (LdapResultCode::NoSuchObject, base_dn),
    }
}

fn bytes_eq(a: &Vec<u8>, b: &Vec<u8>) -> (r: bool)
    ensures
        r == (a@ == b@),
{
    if a.len() != b.len() {
        return false;
    }
    let mut i: usize = 0;
    while i < a.len()
        invariant
            i <= a@.len() == b@.len(),
            forall|j: int| 0 <= j < i ==> a@[j] == b@[j],
        decreases a@.len() - i,
    {
        if a[i] != b[i] {
            return false;
        }
        i += 1;
    }
    assert(a@ =~= b@);
    true
}

fn holds_value(attr: &LdapPartialAttribute, val: &Vec<u8>) -> (r: bool)
    ensures
        r == exists|j: int| 0 <= j < attr.vals@.len() && #[trigger] attr.vals@[j]@ == val@,
{
    let mut j: usize = 0;
    while j < attr.vals.len()
        invariant
            j <= attr.vals@.len(),
            forall|k: int| 0 <= k < j ==> attr.vals@[k]@ != val@,
        decreases attr.vals@.len() - j,
    {
        if bytes_eq(&attr.vals[j], val) {
            return true;
        }
        j += 1;
    }
    false
}

fn entry_has(e: &LdapSearchResultEntry, atype: &str, val: &Vec<u8>) -> (r: bool)
    ensures
        r == entry_holds(*e, atype@, val@),
{
    let mut i: usize = 0;
    while i < e.attributes.len()
        invariant
            i <= e.attributes@.len(),
            forall|k: int, j: int|
                0 <= k < i && 0 <= j < e.attributes@[k].vals@.len() ==> !(eq_ic(e.attributes@[k].atype@, atype@)
                    && e.attributes@[k].vals@[j]@ == val@),
        decreases e.attributes@.len() - i,
    {
        let a = &e.attributes[i];
        if eq_ignore_ascii_case(a.atype.as_str(), atype) && holds_value(a, val) {
            return true;
        }
        i += 1;
    }
    false
}

/// Answers a compare request from the responses of a search for its DN: only the
/// entry whose DN equals the request's (without ASCII case) is looked at.
pub fn compare(request: LdapCompareRequest, search_results: Vec<LdapOp>, base_dn: &str) -> (r: Result<
    Vec<LdapOp>,
    LdapError,
>)
    ensures
        r matches Ok(v) && v@.len() == 1 && (v@[0] matches LdapOp::CompareResult(res) && (res.code, res.matcheddn@)
            == compare_outcome(request, search_results@, base_dn@) && res.message@.len() == 0
            && res.referral@.len() == 0),
{
    let ghost ops = search_results@;
    let ghost entries = result_entries(ops);
    let mut i: usize = 0;
    let ghost mut seen: Seq<LdapSearchResultEntry> = Seq::empty();
    while i < search_results.len()
        invariant
            i <= ops.len(),
            ops == search_results@,
            entries == result_entries(ops),
            result_entries(ops.take(i as int)) == seen,
            forall|k: int| 0 <= k < seen.len() ==> !eq_ic((#[trigger] seen[k]).dn@, request.dn@),
        decreases ops.len() - i,
    {
        assert(ops.take(i + 1).drop_last() =~= ops.take(i as int));
        match &search_results[i] {
            LdapOp::SearchResultEntry(e) => {
                if eq_ignore_ascii_case(e.dn.as_str(), request.dn.as_str()) {
                    let code = if entry_has(e, request.atype.as_str(), &request.val) {
                        LdapResultCode::CompareTrue
                    } else {
                        LdapResultCode::CompareFalse
                    };
                    proof {
                        let s2 = seen.push(*e);
                        assert(result_entries(ops.take(i + 1)) == s2);
                        lemma_first_with_dn_at(s2, request.dn@);
                        lemma_first_with_dn_prefix(entries, ops, i as int + 1, request.dn@);
                        assert(entries[s2.len() - 1] == *e);
                    }
                    let mut v: Vec<LdapOp> = Vec::new();
                    v.push(
                        LdapOp::CompareResult(
                            LdapResultOp {
                                code,
                                matcheddn: request.dn,
                                message: String::new(),
                                referral: Vec::new(),
                            },
                        ),
                    );
                    return Ok(v);
                }
                proof {
                    seen = seen.push(*e);
                }
            },
            _ => {},
        }
        i += 1;
    }
    proof {
        assert(ops.take(ops.len() as int) =~= ops);
        lemma_first_with_dn_none(seen, request.dn@);
    }
    let mut v: Vec<LdapOp> = Vec::new();
    v.push(
        LdapOp::CompareResult(
            LdapResultOp {
                code: LdapResultCode::NoSuchObject,
                matcheddn: copy_str(base_dn),
                message: String::new(),
                referral: Vec::new(),
            },
        ),
    );
    Ok(v)
}

proof fn lemma_first_with_dn_none(entries: Seq<LdapSearchResultEntry>, dn: Seq<char>)
    requires
        forall|k: int| 0 <= k < entries.len() ==> !eq_ic((#[trigger] entries[k]).dn@, dn),
    ensures
        first_with_dn(entries, dn) is None,
    decreases entries.len(),
{
    if entries.len() > 0 {
        assert(!eq_ic(entries[0].dn@, dn));
        assert forall|k: int| 0 <= k < entries.drop_first().len() implies !eq_ic(
            (#[trigger] entries.drop_first()[k]).dn@,
            dn,
        ) by {
            assert(entries.drop_first()[k] == entries[k + 1]);
        }
        lemma_first_with_dn_none(entries.drop_first(), dn);
    }
}

/// When only the last of the entries has the DN, it is the first with it.
proof fn lemma_first_with_dn_at(entries: Seq<LdapSearchResultEntry>, dn: Seq<char>)
    requires
        entries.len() > 0,
        eq_ic(entries.last().dn@, dn),
        forall|k: int| 0 <= k < entries.len() - 1 ==> !eq_ic((#[trigger] entries[k]).dn@, dn),
    ensures
        first_with_dn(entries, dn) == Some(entries.len() - 1),
    decreases entries.len(),
{
    if entries.len() > 1 {
        assert(!eq_ic(entries[0].dn@, dn));
        let d = entries.drop_first();
        assert(d.last() == entries.last());
        assert forall|k: int| 0 <= k < d.len() - 1 implies !eq_ic((#[trigger] d[k]).dn@, dn) by {
            assert(d[k] == entries[k + 1]);
        }
        lemma_first_with_dn_at(d, dn);
    }
}

/// The first entry with a DN among a prefix of the responses is the first among all.
proof fn lemma_first_with_dn_prefix(entries: Seq<LdapSearchResultEntry>, ops: Seq<LdapOp>, n: int, dn: Seq<char>)
    requires
        0 <= n <= ops.len(),
        entries == result_entries(ops),
        first_with_dn(result_entries(ops.take(n)), dn) is Some,
    ensures
        first_with_dn(entries, dn) == first_with_dn(result_entries(ops.take(n)), dn),
        result_entries(ops.take(n)).len() <= entries.len(),
        forall|k: int| 0 <= k < result_entries(ops.take(n)).len() ==> entries[k] == result_entries(ops.take(n))[k],
    decreases ops.len(),
{
    if n == ops.len() {
        assert(ops.take(n) =~= ops);
    } else {
        let d = ops.drop_last();
        assert(d.take(n) =~= ops.take(n));
        lemma_first_with_dn_prefix(result_entries(d), d, n, dn);
        lemma_first_with_dn_extend(result_entries(d), ops, dn);
    }
}

/// Adding responses at the end keeps the first entry with a DN, once there is one.
proof fn lemma_first_with_dn_extend(prev: Seq<LdapSearchResultEntry>, ops: Seq<LdapOp>, dn: Seq<char>)
    requires
        ops.len() > 0,
        prev == result_entries(ops.drop_last()),
        first_with_dn(prev, dn) is Some,
    ensures
        first_with_dn(result_entries(ops), dn) == first_with_dn(prev, dn),
        prev.len() <= result_entries(ops).len(),
        forall|k: int| 0 <= k < prev.len() ==> result_entries(ops)[k] == prev[k],
{
    match ops.last() {
        LdapOp::SearchResultEntry(e) => {
            lemma_first_with_dn_push(prev, e, dn);
        },
        _ => {},
    }
}

proof fn lemma_first_with_dn_push(prev: Seq<LdapSearchResultEntry>, e: LdapSearchResultEntry, dn: Seq<char>)
    requires
        first_with_dn(prev, dn) is Some,
    ensures
        first_with_dn(prev.push(e), dn) == first_with_dn(prev, dn),
    decreases prev.len(),
{
    if prev.len() > 0 && !eq_ic(prev[0].dn@, dn) {
        assert(prev.push(e).drop_first() =~= prev.drop_first().push(e));
        lemma_first_with_dn_push(prev.drop_first(), e, dn);
    }
}


/// Compare answers from all values of an attribute: when the entry with the request's DN
/// has an attribute of the requested type (without ASCII case) holding the requested
/// value at any position, the answer is `CompareTrue`; when no attribute of that type
/// holds it at any position, `CompareFalse`.
pub proof fn compare_looks_at_every_value(
    request: LdapCompareRequest,
    ops: Seq<LdapOp>,
    base_dn: Seq<char>,
    k: int,
)
    requires
        first_with_dn(result_entries(ops), request.dn@) == Some(k),
    ensures
        (exists|i: int, j: int|
            0 <= i < result_entries(ops)[k].attributes@.len() && 0 <= j < result_entries(ops)[k].attributes@[i].vals@.len()
                && eq_ic(#[trigger] result_entries(ops)[k].attributes@[i].atype@, request.atype@)
                && #[trigger] result_entries(ops)[k].attributes@[i].vals@[j]@ == request.val@) ==> compare_outcome(
            request,
            ops,
            base_dn,
        ).0 == LdapResultCode::CompareTrue,
        (forall|i: int, j: int|
            0 <= i < result_entries(ops)[k].attributes@.len() && 0 <= j < result_entries(ops)[k].attributes@[i].vals@.len()
                ==> !(eq_ic(#[trigger] result_entries(ops)[k].attributes@[i].atype@, request.atype@)
                && #[trigger] result_entries(ops)[k].attributes@[i].vals@[j]@ == request.val@)) ==> compare_outcome(
            request,
            ops,
            base_dn,
        ).0 == LdapResultCode::CompareFalse,
{
}

} // verus!
