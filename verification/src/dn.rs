//! Distinguished names and the organizational-unit (OU) hierarchy.
//!
//! A DN is a list of (attribute, value) pairs, leaf first. An "internal OU" is the
//! OU path from the top down, its levels separated by a backslash ("people\home").
use vstd::prelude::*;
use crate::proto::{LdapError, LdapResultCode};
use crate::text::{
    char_string, chars_of, contains_char, copy_str, empty_string, eq_ic, eq_ignore_ascii_case, join,
    join_strings, lemma_split_nonempty, lower, push_str, split, split_str, to_ascii_lowercase, trim,
    trim_str, views,
};
use crate::types::{GroupName, UserId};

verus! {

/// The default OU of users.
pub const DEFAULT_PRIMARY_USER_OU: &'static str = "people";

/// The default OU of groups.
pub const DEFAULT_PRIMARY_GROUP_OU: &'static str = "groups";

/// A DN pair as plain text.
pub open spec fn pair_view(p: (String, String)) -> (Seq<char>, Seq<char>) {
    (p.0@, p.1@)
}

/// A DN as plain text.
pub open spec fn pairs_view(v: Seq<(String, String)>) -> Seq<(Seq<char>, Seq<char>)> {
    v.map_values(|p: (String, String)| pair_view(p))
}

/// The backslash that separates OU levels.
pub open spec fn ou_sep() -> Seq<char> {
    seq!['\\']
}

/// Whether a DN key names an organizational unit ("ou", in any case).
pub open spec fn is_ou_key(k: Seq<char>) -> bool {
    eq_ic(k, seq!['o', 'u'])
}

/// The values of the OU pairs, in DN order (leaf first).
pub open spec fn ou_values(p: Seq<(Seq<char>, Seq<char>)>) -> Seq<Seq<char>>
    decreases p.len(),
{
    if p.len() == 0 {
        Seq::<Seq<char>>::empty()
    } else {
        let r = ou_values(p.drop_last());
        if is_ou_key(p.last().0) {
            r.push(p.last().1)
        } else {
            r
        }
    }
}

/// A sequence in reverse order.
pub open spec fn rev<A>(s: Seq<A>) -> Seq<A> {
    Seq::new(s.len(), |i: int| s[s.len() - 1 - i])
}

/// The internal OU that the OU pairs of a DN denote (top level first).
pub open spec fn internal_ou_of(p: Seq<(Seq<char>, Seq<char>)>) -> Seq<char> {
    join(rev(ou_values(p)), ou_sep())
}

/// The levels of an internal OU, trimmed, without empty ones, in the given order.
pub open spec fn kept_levels(parts: Seq<Seq<char>>) -> Seq<Seq<char>>
    decreases parts.len(),
{
    if parts.len() == 0 {
        Seq::<Seq<char>>::empty()
    } else {
        let r = kept_levels(parts.drop_last());
        if trim(parts.last()).len() > 0 {
            r.push(trim(parts.last()))
        } else {
            r
        }
    }
}

/// The OU pairs of an internal OU, leaf first.
pub open spec fn rdn_chain_of(ou: Seq<char>) -> Seq<(Seq<char>, Seq<char>)> {
    if trim(ou).len() == 0 {
        Seq::<(Seq<char>, Seq<char>)>::empty()
    } else {
        kept_levels(rev(split(ou, '\\'))).map_values(|t: Seq<char>| (seq!['o', 'u'], t))
    }
}

/// "k=v" pairs joined with commas.
pub open spec fn dn_text(p: Seq<(Seq<char>, Seq<char>)>) -> Seq<char> {
    join(
        p.map_values(|x: (Seq<char>, Seq<char>)| x.0 + seq!['='] + x.1),
        seq![','],
    )
}

/// Whether two DN pairs are equal, both sides compared without ASCII case.
pub open spec fn pair_eq_ic(a: (Seq<char>, Seq<char>), b: (Seq<char>, Seq<char>)) -> bool {
    eq_ic(a.0, b.0) && eq_ic(a.1, b.1)
}

/// Whether `sub` ends with `base`, pairs compared without ASCII case.
pub open spec fn is_subtree_spec(
    sub: Seq<(Seq<char>, Seq<char>)>,
    base: Seq<(Seq<char>, Seq<char>)>,
) -> bool {
    base.len() == 0 || (sub.len() >= base.len() && forall|i: int|
        0 <= i < base.len() ==> #[trigger] pair_eq_ic(sub[sub.len() - base.len() + i], base[i]))
}

/// Whether `ou` is exactly one level below `parent` (the empty parent is the root).
pub open spec fn is_direct_child(parent: Seq<char>, ou: Seq<char>) -> bool {
    let pl = lower(parent);
    let ol = lower(ou);
    if pl.len() == 0 {
        !ol.contains('\\')
    } else if ol.len() >= pl.len() + 1 && ol.take(pl.len() + 1 as int) == pl.push('\\') {
        !ol.skip(pl.len() + 1 as int).contains('\\')
    } else {
        false
    }
}

/// The OUs of `allowed` that are direct children of `parent`, in order.
pub open spec fn direct_children(parent: Seq<char>, allowed: Seq<Seq<char>>) -> Seq<Seq<char>>
    decreases allowed.len(),
{
    if allowed.len() == 0 {
        Seq::<Seq<char>>::empty()
    } else {
        let r = direct_children(parent, allowed.drop_last());
        if is_direct_child(parent, allowed.last()) {
            r.push(allowed.last())
        } else {
            r
        }
    }
}

/// The comma-separated pieces of a DN, lowercased.
pub open spec fn dn_pieces(dn: Seq<char>) -> Seq<Seq<char>> {
    split(lower(dn), ',')
}

/// The trimmed `=`-separated items of one piece.
pub open spec fn dn_items(piece: Seq<char>) -> Seq<Seq<char>> {
    split(piece, '=').map_values(|x: Seq<char>| trim(x))
}

/// A piece is a pair when it holds exactly one `=`.
pub open spec fn piece_ok(piece: Seq<char>) -> bool {
    dn_items(piece).len() == 2
}

/// The message for a piece that is not a pair.
pub open spec fn pair_error_message(items: Seq<Seq<char>>) -> Seq<char> {
    if items.len() < 2 {
        "Missing DN value"@
    } else {
        "Too many elements in distinguished name: \""@ + items[0] + "\", \""@ + items[1]
            + "\", \""@ + items[2] + "\""@
    }
}

/// The message for the first piece that is not a pair.
pub open spec fn dn_error(pieces: Seq<Seq<char>>) -> Seq<char>
    decreases pieces.len(),
{
    if pieces.len() == 0 {
        Seq::<char>::empty()
    } else if !piece_ok(pieces[0]) {
        pair_error_message(dn_items(pieces[0]))
    } else {
        dn_error(pieces.drop_first())
    }
}

/// The pairs of a DN, or `None` when some piece is not a pair.
pub open spec fn parse_dn(dn: Seq<char>) -> Option<Seq<(Seq<char>, Seq<char>)>> {
    let pieces = dn_pieces(dn);
    if forall|i: int| 0 <= i < pieces.len() ==> piece_ok(#[trigger] pieces[i]) {
        Some(
            Seq::new(
                pieces.len(),
                |i: int| (dn_items(pieces[i])[0], dn_items(pieces[i])[1]),
            ),
        )
    } else {
        None
    }
}

fn ou_string() -> (r: String)
    ensures
        r@ == seq!['o', 'u'],
{
    let mut s = empty_string();
    crate::text::push_char(&mut s, 'o');
    crate::text::push_char(&mut s, 'u');
    assert(s@ =~= seq!['o', 'u']);
    s
}

fn is_ou(k: &str) -> (r: bool)
    ensures
        r == is_ou_key(k@),
{
    let o = ou_string();
    eq_ignore_ascii_case(k, o.as_str())
}

/// The values of the OU pairs, leaf first.
fn collect_ou_values(p: &[(String, String)]) -> (r: Vec<String>)
    ensures
        views(r@) == ou_values(pairs_view(p@)),
{
    let mut r: Vec<String> = Vec::new();
    let mut i: usize = 0;
    while i < p.len()
        invariant
            i <= p@.len(),
            views(r@) == ou_values(pairs_view(p@).take(i as int)),
        decreases p@.len() - i,
    {
        let ghost before = views(r@);
        assert(pairs_view(p@).take(i + 1).drop_last() =~= pairs_view(p@).take(i as int));
        assert(pairs_view(p@).take(i + 1).last() == pair_view(p@[i as int]));
        if is_ou(p[i].0.as_str()) {
            r.push(p[i].1.clone());
            assert(views(r@) =~= before.push(p@[i as int].1@));
        }
        i += 1;
    }
    assert(pairs_view(p@).take(p@.len() as int) =~= pairs_view(p@));
    r
}

/// A copy of a list of strings in reverse order.
fn reversed(v: &Vec<String>) -> (r: Vec<String>)
    ensures
        views(r@) == rev(views(v@)),
{
    let mut r: Vec<String> = Vec::new();
    let mut k: usize = v.len();
    while k > 0
        invariant
            k <= v@.len(),
            views(r@) == rev(views(v@)).take(v@.len() - k),
        decreases k,
    {
        k -= 1;
        let ghost before = views(r@);
        r.push(v[k].clone());
        assert(views(r@) =~= before.push(v@[k as int]@));
        assert(views(r@) =~= rev(views(v@)).take(v@.len() - k));
    }
    assert(rev(views(v@)).take(v@.len() as int) =~= rev(views(v@)));
    r
}

/// Returns the internal OU (e.g. "people\home") from DN parts by collecting all
/// `ou=` pairs and joining them top level first with `\`.
pub fn get_internal_ou_from_dn_parts(dn_parts: &[(String, String)]) -> (r: String)
    ensures
        r@ == internal_ou_of(pairs_view(dn_parts@)),
{
    ldap_rdn_chain_to_internal_ou(dn_parts)
}

/// The internal OU from an LDAP RDN chain; the reverse of `internal_ou_to_ldap_rdn_chain`.
pub fn ldap_rdn_chain_to_internal_ou(rdn_chain: &[(String, String)]) -> (r: String)
    ensures
        r@ == internal_ou_of(pairs_view(rdn_chain@)),
{
    let vals = collect_ou_values(rdn_chain);
    let rv = reversed(&vals);
    let sep = char_string('\\');
    join_strings(&rv, sep.as_str())
}

/// Whether `ou` is one level below `parent`.
fn direct_child(parent_l: &str, ou: &str) -> (r: bool)
    requires
        parent_l@ == lower(parent_l@),
    ensures
        r == is_direct_child(parent_l@, ou@),
{
    let ou_l = to_ascii_lowercase(ou);
    assert(lower(parent_l@) =~= parent_l@);
    if parent_l.is_empty() {
        !contains_char(ou_l.as_str(), '\\')
    } else {
        let mut prefix = copy_str(parent_l);
        crate::text::push_char(&mut prefix, '\\');
        if crate::text::starts_with(ou_l.as_str(), prefix.as_str()) {
            let v = chars_of(ou_l.as_str());
            let start = chars_of(prefix.as_str()).len();
            assert(ou_l@.take(start as int) =~= parent_l@.push('\\'));
            let mut i = start;
            while i < v.len()
                invariant
                    start <= i <= v@.len(),
                    start == parent_l@.len() + 1,
                    ou_l@.take(start as int) == parent_l@.push('\\'),
                    ou_l@ == lower(ou@),
                    parent_l@ == lower(parent_l@),
                    parent_l@.len() > 0,
                    v@ == ou_l@,
                    forall|j: int| start <= j < i ==> v@[j] != '\\',
                decreases v@.len() - i,
            {
                if v[i] == '\\' {
                    assert(ou_l@.skip(start as int)[i - start] == '\\');
                    assert(ou_l@.skip(start as int).contains('\\'));
                    return false;
                }
                i += 1;
            }
            assert forall|j: int| 0 <= j < ou_l@.skip(start as int).len() implies ou_l@.skip(
                start as int,
            )[j] != '\\' by {
                assert(ou_l@.skip(start as int)[j] == v@[start + j]);
            }
            true
        } else {
            false
        }
    }
}

/// Returns only the direct child OUs (exactly one level deeper) of `parent_internal_ou`
/// among `allowed_ous`; the empty parent stands for the root.
pub fn get_direct_child_ous(parent_internal_ou: &str, allowed_ous: &[String]) -> (r: Vec<String>)
    ensures
        views(r@) == direct_children(parent_internal_ou@, views(allowed_ous@)),
{
    let parent_l = to_ascii_lowercase(parent_internal_ou);
    proof {
        crate::text::lemma_lower_idempotent(parent_internal_ou@);
    }
    let mut r: Vec<String> = Vec::new();
    let mut i: usize = 0;
    while i < allowed_ous.len()
        invariant
            i <= allowed_ous@.len(),
            parent_l@ == lower(parent_internal_ou@),
            parent_l@ == lower(parent_l@),
            views(r@) == direct_children(parent_internal_ou@, views(allowed_ous@).take(i as int)),
        decreases allowed_ous@.len() - i,
    {
        let ghost before = views(r@);
        let ghost pre = views(allowed_ous@).take(i as int);
        assert(views(allowed_ous@).take(i + 1).drop_last() =~= pre);
        assert(views(allowed_ous@).take(i + 1).last() == allowed_ous@[i as int]@);
        proof {
            lemma_direct_child_lower(parent_internal_ou@, allowed_ous@[i as int]@);
        }
        if direct_child(parent_l.as_str(), allowed_ous[i].as_str()) {
            r.push(allowed_ous[i].clone());
            assert(views(r@) =~= before.push(allowed_ous@[i as int]@));
        }
        i += 1;
    }
    assert(views(allowed_ous@).take(allowed_ous@.len() as int) =~= views(allowed_ous@));
    r
}

proof fn lemma_direct_child_lower(parent: Seq<char>, ou: Seq<char>)
    ensures
        is_direct_child(lower(parent), ou) == is_direct_child(parent, ou),
{
    crate::text::lemma_lower_idempotent(parent);
}

/// The OU pairs of an internal OU ("people" or "people\home"), leaf first.
pub fn internal_ou_to_ldap_rdn_chain(ou: &str) -> (r: Vec<(String, String)>)
    ensures
        pairs_view(r@) == rdn_chain_of(ou@),
{
    let t = trim_str(ou);
    if t.as_str().is_empty() {
        let empty: Vec<(String, String)> = Vec::new();
        assert(pairs_view(empty@) =~= rdn_chain_of(ou@));
        return empty;
    }
    let parts = split_str(ou, '\\');
    let rparts = reversed(&parts);
    let ghost rp = views(rparts@);
    let mut chain: Vec<(String, String)> = Vec::new();
    let mut i: usize = 0;
    while i < rparts.len()
        invariant
            i <= rparts@.len(),
            rp == views(rparts@),
            pairs_view(chain@) == kept_levels(rp.take(i as int)).map_values(
                |t: Seq<char>| (seq!['o', 'u'], t),
            ),
        decreases rparts@.len() - i,
    {
        let ghost before = pairs_view(chain@);
        assert(rp.take(i + 1).drop_last() =~= rp.take(i as int));
        assert(rp.take(i + 1).last() == rparts@[i as int]@);
        let trimmed = trim_str(rparts[i].as_str());
        if !trimmed.as_str().is_empty() {
            chain.push((ou_string(), trimmed));
            assert(pairs_view(chain@) =~= before.push((seq!['o', 'u'], trim(rparts@[i as int]@))));
            assert(kept_levels(rp.take(i + 1)) == kept_levels(rp.take(i as int)).push(
                trim(rparts@[i as int]@),
            ));
            assert(kept_levels(rp.take(i + 1)).map_values(|t: Seq<char>| (seq!['o', 'u'], t))
                =~= kept_levels(rp.take(i as int)).map_values(
                |t: Seq<char>| (seq!['o', 'u'], t),
            ).push((seq!['o', 'u'], trim(rparts@[i as int]@))));
        }
        i += 1;
    }
    assert(rp.take(rparts@.len() as int) =~= rp);
    chain
}

/// Returns true if `dn_parts` is an allowed OU container (any depth) directly under the base.
pub fn is_container_dn(
    dn_parts: &[(String, String)],
    base_dn: &[(String, String)],
    allowed_ous: &[String],
) -> (r: bool)
    ensures
        r == ((exists|i: int|
            0 <= i < allowed_ous@.len() && #[trigger] eq_ic(
                allowed_ous@[i]@,
                internal_ou_of(pairs_view(dn_parts@)),
            )) && dn_parts@.len() == base_dn@.len() + ou_values(pairs_view(dn_parts@)).len()),
{
    let vals = collect_ou_values(dn_parts);
    let internal_ou = ldap_rdn_chain_to_internal_ou(dn_parts);
    let mut is_allowed = false;
    let mut i: usize = 0;
    while i < allowed_ous.len()
        invariant
            i <= allowed_ous@.len(),
            internal_ou@ == internal_ou_of(pairs_view(dn_parts@)),
            is_allowed == (exists|j: int|
                0 <= j < i && #[trigger] eq_ic(allowed_ous@[j]@, internal_ou@)),
        decreases allowed_ous@.len() - i,
    {
        if eq_ignore_ascii_case(allowed_ous[i].as_str(), internal_ou.as_str()) {
            is_allowed = true;
        }
        i += 1;
    }
    proof {
        assert(views(vals@).len() == vals@.len());
    }
    is_allowed && dn_parts.len() as u128 == base_dn.len() as u128 + vals.len() as u128
}

/// Returns true if `subtree` is a subtree of (or equal to) `base_tree`.
pub fn is_subtree(subtree: &[(String, String)], base_tree: &[(String, String)]) -> (r: bool)
    ensures
        r == is_subtree_spec(pairs_view(subtree@), pairs_view(base_tree@)),
{
    if base_tree.len() == 0 {
        return true;
    }
    if subtree.len() < base_tree.len() {
        return false;
    }
    let offset = subtree.len() - base_tree.len();
    let ghost sv = pairs_view(subtree@);
    let ghost bv = pairs_view(base_tree@);
    let mut k: usize = offset;
    while k < subtree.len()
        invariant
            offset <= k <= subtree@.len(),
            base_tree@.len() > 0,
            subtree@.len() >= base_tree@.len(),
            offset == subtree@.len() - base_tree@.len(),
            sv == pairs_view(subtree@),
            bv == pairs_view(base_tree@),
            forall|j: int|
                0 <= j < k - offset ==> #[trigger] pair_eq_ic(sv[sv.len() - bv.len() + j], bv[j]),
        decreases subtree@.len() - k,
    {
        let i = k - offset;
        assert(sv[k as int] == pair_view(subtree@[k as int]));
        assert(sv.len() - bv.len() + i == k);
        assert(bv[i as int] == pair_view(base_tree@[i as int]));
        if !eq_ignore_ascii_case(subtree[k].0.as_str(), base_tree[i].0.as_str())
            || !eq_ignore_ascii_case(subtree[k].1.as_str(), base_tree[i].1.as_str()) {
            let ghost ii: int = i as int;
            assert(!pair_eq_ic(sv[sv.len() - bv.len() + ii], bv[ii]));
            assert(!is_subtree_spec(sv, bv));
            return false;
        }
        k += 1;
    }
    true
}

/// Splits a piece at `=` and trims each item.
fn dn_items_of(piece: &str) -> (r: Vec<String>)
    ensures
        views(r@) == dn_items(piece@),
{
    let parts = split_str(piece, '=');
    let ghost sp = split(piece@, '=');
    let mut r: Vec<String> = Vec::new();
    let mut i: usize = 0;
    while i < parts.len()
        invariant
            i <= parts@.len(),
            views(parts@) == sp,
            sp == split(piece@, '='),
            views(r@) == sp.take(i as int).map_values(|x: Seq<char>| trim(x)),
        decreases parts@.len() - i,
    {
        let ghost before = views(r@);
        let t = trim_str(parts[i].as_str());
        r.push(t);
        assert(views(r@) =~= before.push(trim(sp[i as int])));
        assert(sp.take(i + 1).map_values(|x: Seq<char>| trim(x)) =~= sp.take(i as int).map_values(
            |x: Seq<char>| trim(x),
        ).push(trim(sp[i as int])));
        i += 1;
    }
    assert(sp.take(parts@.len() as int) =~= sp);
    r
}

/// The message for a piece whose items are not a pair.
fn pair_error(items: &Vec<String>) -> (m: String)
    requires
        items@.len() != 2,
    ensures
        m@ == pair_error_message(views(items@)),
{
    if items.len() < 2 {
        copy_str("Missing DN value")
    } else {
        let mut m = copy_str("Too many elements in distinguished name: \"");
        push_str(&mut m, items[0].as_str());
        push_str(&mut m, "\", \"");
        push_str(&mut m, items[1].as_str());
        push_str(&mut m, "\", \"");
        push_str(&mut m, items[2].as_str());
        push_str(&mut m, "\"");
        m
    }
}

proof fn lemma_dn_error_first_bad(pieces: Seq<Seq<char>>, i: int)
    requires
        0 <= i < pieces.len(),
        forall|j: int| 0 <= j < i ==> piece_ok(#[trigger] pieces[j]),
        !piece_ok(pieces[i]),
    ensures
        dn_error(pieces) == pair_error_message(dn_items(pieces[i])),
    decreases i,
{
    if i > 0 {
        let rest = pieces.drop_first();
        assert forall|j: int| 0 <= j < i - 1 implies piece_ok(#[trigger] rest[j]) by {
            assert(rest[j] == pieces[j + 1]);
        }
        assert(piece_ok(pieces[0]));
        lemma_dn_error_first_bad(rest, i - 1);
    }
}

/// Parses a DN ("uid=bob,ou=people,dc=example,dc=com") into its (attribute, value)
/// pairs, leaf first. The whole DN is lowercased and each item trimmed; a piece
/// that is not exactly one `attribute=value` pair is an `InvalidDNSyntax` error.
pub fn parse_distinguished_name(dn: &str) -> (r: Result<Vec<(String, String)>, LdapError>)
    ensures
        match r {
            Ok(v) => parse_dn(dn@) == Some(pairs_view(v@)),
            Err(e) => parse_dn(dn@) is None && e.code == LdapResultCode::InvalidDNSyntax
                && e.message@ == dn_error(dn_pieces(dn@)),
        },
{
    let lower_dn = to_ascii_lowercase(dn);
    let pieces = split_str(lower_dn.as_str(), ',');
    let ghost ps = dn_pieces(dn@);
    let mut out: Vec<(String, String)> = Vec::new();
    let mut i: usize = 0;
    while i < pieces.len()
        invariant
            i <= pieces@.len(),
            views(pieces@) == ps,
            ps == dn_pieces(dn@),
            out@.len() == i,
            forall|j: int| 0 <= j < i ==> piece_ok(#[trigger] ps[j]),
            forall|j: int|
                0 <= j < i ==> #[trigger] pair_view(out@[j]) == (
                    dn_items(ps[j])[0],
                    dn_items(ps[j])[1],
                ),
        decreases pieces@.len() - i,
    {
        let items = dn_items_of(pieces[i].as_str());
        assert(pieces@[i as int]@ == ps[i as int]);
        if items.len() != 2 {
            proof {
                lemma_dn_error_first_bad(ps, i as int);
                assert(!piece_ok(ps[i as int]));
            }
            return Err(LdapError { code: LdapResultCode::InvalidDNSyntax, message: pair_error(&items) });
        }
        let k = items[0].clone();
        let v = items[1].clone();
        out.push((k, v));
        assert(pair_view(out@[i as int]) == (dn_items(ps[i as int])[0], dn_items(ps[i as int])[1]));
        i += 1;
    }
    assert(pairs_view(out@) =~= Seq::new(
        ps.len(),
        |j: int| (dn_items(ps[j])[0], dn_items(ps[j])[1]),
    ));
    Ok(out)
}

/// What a DN names, relative to a base DN.
pub enum DnTarget {
    User(Seq<char>),
    Group(Seq<char>),
    BadSubtree,
    UnexpectedFormat,
    InvalidSyntax(Seq<char>),
}

/// What `dn` names under `base`: a user (`uid=...`) or group (`cn=...`) entry is a
/// leaf directly under its OU chain, which sits directly under the base.
pub open spec fn dn_target(dn: Seq<char>, base: Seq<(Seq<char>, Seq<char>)>) -> DnTarget {
    match parse_dn(dn) {
        None => DnTarget::InvalidSyntax(dn_error(dn_pieces(dn))),
        Some(p) => {
            if !is_subtree_spec(p, base) {
                DnTarget::BadSubtree
            } else if p.len() == base.len() + ou_values(p).len() + 1 && eq_ic(p[0].0, seq!['u', 'i', 'd']) {
                DnTarget::User(lower(p[0].1))
            } else if p.len() == base.len() + ou_values(p).len() + 1 && eq_ic(p[0].0, seq!['c', 'n']) {
                DnTarget::Group(p[0].1)
            } else {
                DnTarget::UnexpectedFormat
            }
        },
    }
}

/// The result of looking up what a DN names.
pub enum UserOrGroupName {
    User(UserId),
    Group(GroupName),
    BadSubStree,
    UnexpectedFormat,
    InvalidSyntax(LdapError),
}

/// The message for a DN that is not in the expected format.
pub open spec fn unexpected_format_message(input: Seq<char>, expected: Seq<char>) -> Seq<char> {
    "Unexpected DN format. Got \""@ + input + "\", expected: "@ + expected
}

/// The error message for a DN lookup that did not give what was wanted.
pub open spec fn target_error_message(t: DnTarget, input: Seq<char>, expected: Seq<char>) -> Seq<char> {
    match t {
        DnTarget::BadSubtree => "Not a subtree of the base tree"@,
        DnTarget::InvalidSyntax(m) => m,
        _ => unexpected_format_message(input, expected),
    }
}

impl UserOrGroupName {
    /// The lookup result as plain values.
    pub open spec fn target(&self) -> DnTarget {
        match self {
            UserOrGroupName::User(u) => DnTarget::User(u@),
            UserOrGroupName::Group(g) => DnTarget::Group(g@),
            UserOrGroupName::BadSubStree => DnTarget::BadSubtree,
            UserOrGroupName::UnexpectedFormat => DnTarget::UnexpectedFormat,
            UserOrGroupName::InvalidSyntax(e) => DnTarget::InvalidSyntax(e.message@),
        }
    }

    /// The error to answer when the lookup did not give the wanted kind of entry.
    pub fn into_ldap_error(self, input: &str, expected_format: String) -> (r: LdapError)
        ensures
            r.message@ == target_error_message(self.target(), input@, expected_format@),
            self matches UserOrGroupName::InvalidSyntax(e) ==> r == e,
            !(self is InvalidSyntax) ==> r.code == LdapResultCode::InvalidDNSyntax,
    {
        match self {
            UserOrGroupName::BadSubStree => LdapError {
                code: LdapResultCode::InvalidDNSyntax,
                message: copy_str("Not a subtree of the base tree"),
            },
            UserOrGroupName::InvalidSyntax(err) => err,
            _ => {
                let mut m = copy_str("Unexpected DN format. Got \"");
                push_str(&mut m, input);
                push_str(&mut m, "\", expected: ");
                push_str(&mut m, expected_format.as_str());
                LdapError { code: LdapResultCode::InvalidDNSyntax, message: m }
            },
        }
    }
}

fn uid_string() -> (r: String)
    ensures
        r@ == seq!['u', 'i', 'd'],
{
    let mut s = char_string('u');
    crate::text::push_char(&mut s, 'i');
    crate::text::push_char(&mut s, 'd');
    assert(s@ =~= seq!['u', 'i', 'd']);
    s
}

fn cn_string() -> (r: String)
    ensures
        r@ == seq!['c', 'n'],
{
    let mut s = char_string('c');
    crate::text::push_char(&mut s, 'n');
    assert(s@ =~= seq!['c', 'n']);
    s
}

/// Tells whether `dn` names a user or a group entry under `base_tree`.
pub fn get_user_or_group_id_from_distinguished_name(
    dn: &str,
    base_tree: &[(String, String)],
) -> (r: UserOrGroupName)
    ensures
        r.target() == dn_target(dn@, pairs_view(base_tree@)),
        r matches UserOrGroupName::InvalidSyntax(e) ==> e.code == LdapResultCode::InvalidDNSyntax,
{
    let parts = match parse_distinguished_name(dn) {
        Ok(p) => p,
        Err(e) => return UserOrGroupName::InvalidSyntax(e),
    };
    if !is_subtree(parts.as_slice(), base_tree) {
        return UserOrGroupName::BadSubStree;
    }
    let ous = collect_ou_values(parts.as_slice());
    assert(views(ous@).len() == ous@.len());
    if parts.len() as u128 == base_tree.len() as u128 + ous.len() as u128 + 1 {
        assert(pairs_view(parts@)[0] == pair_view(parts@[0]));
        let uid = uid_string();
        let cn = cn_string();
        if eq_ignore_ascii_case(parts[0].0.as_str(), uid.as_str()) {
            return UserOrGroupName::User(UserId::new(parts[0].1.as_str()));
        } else if eq_ignore_ascii_case(parts[0].0.as_str(), cn.as_str()) {
            return UserOrGroupName::Group(GroupName::new(parts[0].1.as_str()));
        }
    }
    UserOrGroupName::UnexpectedFormat
}

/// The expected shape of a user DN, for error messages.
pub open spec fn user_dn_format(base_dn_str: Seq<char>) -> Seq<char> {
    "\"uid=id,ou=...,"@ + base_dn_str + "\""@
}

/// The expected shape of a group DN, for error messages.
pub open spec fn group_dn_format(base_dn_str: Seq<char>) -> Seq<char> {
    "\"cn=id,ou=...,"@ + base_dn_str + "\""@
}

/// The user that `dn` names, or the error that explains why it names none.
pub fn get_user_id_from_distinguished_name(
    dn: &str,
    base_tree: &[(String, String)],
    base_dn_str: &str,
) -> (r: Result<UserId, LdapError>)
    ensures
        match r {
            Ok(id) => dn_target(dn@, pairs_view(base_tree@)) == DnTarget::User(id@),
            Err(e) => !(dn_target(dn@, pairs_view(base_tree@)) is User) && e.code
                == LdapResultCode::InvalidDNSyntax && e.message@ == target_error_message(
                dn_target(dn@, pairs_view(base_tree@)),
                dn@,
                user_dn_format(base_dn_str@),
            ),
        },
{
    match get_user_or_group_id_from_distinguished_name(dn, base_tree) {
        UserOrGroupName::User(user_id) => Ok(user_id),
        err => {
            let mut f = copy_str("\"uid=id,ou=...,");
            push_str(&mut f, base_dn_str);
            push_str(&mut f, "\"");
            Err(err.into_ldap_error(dn, f))
        },
    }
}

/// The group that `dn` names, or the error that explains why it names none.
pub fn get_group_id_from_distinguished_name(
    dn: &str,
    base_tree: &[(String, String)],
    base_dn_str: &str,
) -> (r: Result<GroupName, LdapError>)
    ensures
        match r {
            Ok(g) => dn_target(dn@, pairs_view(base_tree@)) == DnTarget::Group(g@),
            Err(e) => !(dn_target(dn@, pairs_view(base_tree@)) is Group) && e.code
                == LdapResultCode::InvalidDNSyntax && e.message@ == target_error_message(
                dn_target(dn@, pairs_view(base_tree@)),
                dn@,
                group_dn_format(base_dn_str@),
            ),
        },
{
    match get_user_or_group_id_from_distinguished_name(dn, base_tree) {
        UserOrGroupName::Group(group_name) => Ok(group_name),
        err => {
            let mut f = copy_str("\"cn=id,ou=...,");
            push_str(&mut f, base_dn_str);
            push_str(&mut f, "\"");
            Err(err.into_ldap_error(dn, f))
        },
    }
}

/// Whether a name looks like a DN rather than a plain identifier.
pub open spec fn looks_like_dn(s: Seq<char>) -> bool {
    s.contains('=') || s.contains(',')
}

fn looks_like_distinguished_name(dn: &str) -> (r: bool)
    ensures
        r == looks_like_dn(dn@),
{
    contains_char(dn, '=') || contains_char(dn, ',')
}

/// A user from a DN, or from a plain user name when the text does not look like a DN.
pub fn get_user_id_from_distinguished_name_or_plain_name(
    dn: &str,
    base_tree: &[(String, String)],
    base_dn_str: &str,
) -> (r: Result<UserId, LdapError>)
    ensures
        !looks_like_dn(dn@) ==> (r matches Ok(id) && id@ == lower(dn@)),
        looks_like_dn(dn@) ==> match r {
            Ok(id) => dn_target(dn@, pairs_view(base_tree@)) == DnTarget::User(id@),
            Err(e) => !(dn_target(dn@, pairs_view(base_tree@)) is User) && e.code
                == LdapResultCode::InvalidDNSyntax && e.message@ == target_error_message(
                dn_target(dn@, pairs_view(base_tree@)),
                dn@,
                user_dn_format(base_dn_str@),
            ),
        },
{
    if !looks_like_distinguished_name(dn) {
        Ok(UserId::new(dn))
    } else {
        get_user_id_from_distinguished_name(dn, base_tree, base_dn_str)
    }
}

/// A group from a DN, or from a plain group name when the text does not look like a DN.
pub fn get_group_id_from_distinguished_name_or_plain_name(
    dn: &str,
    base_tree: &[(String, String)],
    base_dn_str: &str,
) -> (r: Result<GroupName, LdapError>)
    ensures
        !looks_like_dn(dn@) ==> (r matches Ok(g) && g@ == dn@),
        looks_like_dn(dn@) ==> match r {
            Ok(g) => dn_target(dn@, pairs_view(base_tree@)) == DnTarget::Group(g@),
            Err(e) => !(dn_target(dn@, pairs_view(base_tree@)) is Group) && e.code
                == LdapResultCode::InvalidDNSyntax && e.message@ == target_error_message(
                dn_target(dn@, pairs_view(base_tree@)),
                dn@,
                group_dn_format(base_dn_str@),
            ),
        },
{
    if !looks_like_distinguished_name(dn) {
        Ok(GroupName::new(dn))
    } else {
        get_group_id_from_distinguished_name(dn, base_tree, base_dn_str)
    }
}

/// The last piece of a split is what follows the last separator.
proof fn lemma_split_last(s: Seq<char>, sep: char, k: int)
    requires
        0 <= k <= s.len(),
        k > 0 ==> s[k - 1] == sep,
        forall|j: int| k <= j < s.len() ==> s[j] != sep,
    ensures
        split(s, sep).last() == s.subrange(k, s.len() as int),
{
    if k == 0 {
        crate::text::lemma_split_no_sep(s, sep);
        assert(s.subrange(0, s.len() as int) =~= s);
    } else {
        let a = s.take(k);
        let t = s.subrange(k, s.len() as int);
        assert(a + t =~= s);
        assert(a.drop_last() =~= s.take(k - 1));
        lemma_split_nonempty(a.drop_last(), sep);
        crate::text::lemma_split_append(a, t, sep);
        assert(split(a, sep).last() =~= Seq::<char>::empty());
        assert(split(a, sep).last() + t =~= t);
    }
}

/// The leaf level of an internal OU ("office\floor1" gives "floor1", "people" gives
/// "people"), as shown in the `ou` attribute of search results.
pub fn get_leaf_ou(internal_ou: &str) -> (r: &str)
    ensures
        r@ == split(internal_ou@, '\\').last(),
{
    let v = chars_of(internal_ou);
    let mut k: usize = v.len();
    while k > 0 && v[k - 1] != '\\'
        invariant
            k <= v@.len(),
            v@ == internal_ou@,
            forall|j: int| k <= j < v@.len() ==> v@[j] != '\\',
        decreases k,
    {
        k -= 1;
    }
    proof {
        lemma_split_last(internal_ou@, '\\', k as int);
    }
    internal_ou.substring_char(k, v.len())
}

/// The text of an entry DN: `key=id`, then the OU chain of `ou` (leaf first), then the base.
pub open spec fn entry_dn_text(key: Seq<char>, id: Seq<char>, ou: Seq<char>, base: Seq<char>) -> Seq<char> {
    let ou_part = dn_text(rdn_chain_of(ou));
    if ou_part.len() == 0 {
        key + seq!['='] + id + seq![','] + base
    } else {
        key + seq!['='] + id + seq![','] + (ou_part + seq![','] + base)
    }
}

/// "k=v" texts of DN pairs.
fn pair_texts(p: &[(String, String)]) -> (r: Vec<String>)
    ensures
        views(r@) == pairs_view(p@).map_values(|x: (Seq<char>, Seq<char>)| x.0 + seq!['='] + x.1),
{
    let mut r: Vec<String> = Vec::new();
    let mut i: usize = 0;
    while i < p.len()
        invariant
            i <= p@.len(),
            views(r@) == pairs_view(p@).take(i as int).map_values(
                |x: (Seq<char>, Seq<char>)| x.0 + seq!['='] + x.1,
            ),
        decreases p@.len() - i,
    {
        let ghost before = views(r@);
        let mut t = copy_str(p[i].0.as_str());
        crate::text::push_char(&mut t, '=');
        push_str(&mut t, p[i].1.as_str());
        let ghost tv = t@;
        assert(tv == p@[i as int].0@ + seq!['='] + p@[i as int].1@);
        r.push(t);
        assert(views(r@) =~= before.push(tv));
        assert(pairs_view(p@).take(i + 1) =~= pairs_view(p@).take(i as int).push(
            pair_view(p@[i as int]),
        ));
        assert(views(r@) =~= pairs_view(p@).take(i + 1).map_values(
            |x: (Seq<char>, Seq<char>)| x.0 + seq!['='] + x.1,
        ));
        i += 1;
    }
    assert(pairs_view(p@).take(p@.len() as int) =~= pairs_view(p@));
    r
}

/// "k=v" pairs joined with commas.
pub(crate) fn dn_string(p: &[(String, String)]) -> (r: String)
    ensures
        r@ == dn_text(pairs_view(p@)),
{
    let texts = pair_texts(p);
    let comma = char_string(',');
    join_strings(&texts, comma.as_str())
}

fn entry_dn(key: &str, id: &str, internal_ou: &str, base_dn_str: &str) -> (r: String)
    ensures
        r@ == entry_dn_text(key@, id@, internal_ou@, base_dn_str@),
{
    let rdn_chain = internal_ou_to_ldap_rdn_chain(internal_ou);
    let ou_part = dn_string(rdn_chain.as_slice());
    let mut r = copy_str(key);
    crate::text::push_char(&mut r, '=');
    push_str(&mut r, id);
    crate::text::push_char(&mut r, ',');
    if ou_part.as_str().is_empty() {
        push_str(&mut r, base_dn_str);
    } else {
        let mut tail = copy_str(ou_part.as_str());
        crate::text::push_char(&mut tail, ',');
        push_str(&mut tail, base_dn_str);
        push_str(&mut r, tail.as_str());
    }
    r
}

/// The DN of a user: `uid=<id>`, the OU chain of `internal_ou`, then the base DN.
pub fn build_user_dn(user_id: &UserId, internal_ou: &str, base_dn_str: &str) -> (r: String)
    ensures
        r@ == entry_dn_text(seq!['u', 'i', 'd'], user_id@, internal_ou@, base_dn_str@),
{
    let uid = uid_string();
    entry_dn(uid.as_str(), user_id.as_str(), internal_ou, base_dn_str)
}

/// The DN of a group: `cn=<name>`, the OU chain of `internal_ou`, then the base DN.
pub fn build_group_dn(group_name: &GroupName, internal_ou: &str, base_dn_str: &str) -> (r: String)
    ensures
        r@ == entry_dn_text(seq!['c', 'n'], group_name@, internal_ou@, base_dn_str@),
{
    let cn = cn_string();
    entry_dn(cn.as_str(), group_name.as_str(), internal_ou, base_dn_str)
}

/// The "ou" pairs of a list of OU values, in the same order.
pub open spec fn ou_chain(vals: Seq<Seq<char>>) -> Seq<(Seq<char>, Seq<char>)> {
    vals.map_values(|t: Seq<char>| (seq!['o', 'u'], t))
}

/// A level of an internal OU that survives trimming unchanged and is not empty.
pub open spec fn clean_level(l: Seq<char>) -> bool {
    l.len() > 0 && trim(l) == l
}

proof fn lemma_rev_rev<A>(s: Seq<A>)
    ensures
        rev(rev(s)) == s,
{
    assert(rev(rev(s)) =~= s);
}

proof fn lemma_ou_values_of_chain(vals: Seq<Seq<char>>)
    ensures
        ou_values(ou_chain(vals)) == vals,
    decreases vals.len(),
{
    if vals.len() > 0 {
        lemma_ou_values_of_chain(vals.drop_last());
        assert(ou_chain(vals).drop_last() =~= ou_chain(vals.drop_last()));
        assert(is_ou_key(ou_chain(vals).last().0));
        assert(vals.drop_last().push(vals.last()) =~= vals);
    }
}

proof fn lemma_kept_levels_clean(parts: Seq<Seq<char>>)
    requires
        forall|i: int| 0 <= i < parts.len() ==> clean_level(#[trigger] parts[i]),
    ensures
        kept_levels(parts) == parts,
    decreases parts.len(),
{
    if parts.len() > 0 {
        lemma_kept_levels_clean(parts.drop_last());
        assert(clean_level(parts[parts.len() - 1]));
        assert(parts.drop_last().push(parts.last()) =~= parts);
    }
}

/// A join of clean levels, the first one leading, has a non-empty trim.
proof fn lemma_join_clean_nonempty_trim(parts: Seq<Seq<char>>)
    requires
        parts.len() >= 1,
        clean_level(parts[0]),
    ensures
        trim(join(parts, ou_sep())).len() > 0,
{
    crate::text::lemma_join_starts_with_first(parts, ou_sep());
    crate::text::lemma_trim_ends(parts[0]);
    crate::text::lemma_trim_nonempty(join(parts, ou_sep()));
}

/// An internal OU whose levels are clean comes back unchanged from its RDN chain:
/// `ldap_rdn_chain_to_internal_ou(internal_ou_to_ldap_rdn_chain(ou)) == ou`.
pub proof fn internal_ou_round_trip(ou: Seq<char>)
    requires
        forall|i: int|
            0 <= i < split(ou, '\\').len() ==> clean_level(#[trigger] split(ou, '\\')[i]),
    ensures
        internal_ou_of(rdn_chain_of(ou)) == ou,
{
    let levels = split(ou, '\\');
    lemma_split_nonempty(ou, '\\');
    crate::text::lemma_join_split(ou, '\\');
    assert(clean_level(levels[0]));
    lemma_join_clean_nonempty_trim(levels);
    assert forall|i: int| 0 <= i < rev(levels).len() implies clean_level(#[trigger] rev(levels)[i]) by {
        assert(rev(levels)[i] == levels[levels.len() - 1 - i]);
    }
    lemma_kept_levels_clean(rev(levels));
    assert(rdn_chain_of(ou) == ou_chain(rev(levels)));
    lemma_ou_values_of_chain(rev(levels));
    lemma_rev_rev(levels);
}

/// A chain of clean, backslash-free OU values comes back unchanged from its internal OU:
/// `internal_ou_to_ldap_rdn_chain(ldap_rdn_chain_to_internal_ou(chain)) == chain`.
pub proof fn rdn_chain_round_trip(vals: Seq<Seq<char>>)
    requires
        forall|i: int|
            0 <= i < vals.len() ==> clean_level(#[trigger] vals[i]) && !vals[i].contains('\\'),
    ensures
        rdn_chain_of(internal_ou_of(ou_chain(vals))) == ou_chain(vals),
{
    lemma_ou_values_of_chain(vals);
    let rv = rev(vals);
    if vals.len() == 0 {
        assert(join(rv, ou_sep()) =~= Seq::<char>::empty());
        assert(trim(Seq::<char>::empty()) =~= Seq::<char>::empty());
        assert(rdn_chain_of(Seq::<char>::empty()) =~= ou_chain(vals));
    } else {
        assert forall|i: int, j: int| 0 <= i < rv.len() && 0 <= j < rv[i].len() implies rv[i][j]
            != '\\' by {
            assert(rv[i] == vals[vals.len() - 1 - i]);
            if rv[i][j] == '\\' {
                assert(vals[vals.len() - 1 - i].contains('\\'));
            }
        }
        crate::text::lemma_split_join(rv, '\\');
        assert(rv[0] == vals[vals.len() - 1]);
        lemma_join_clean_nonempty_trim(rv);
        lemma_rev_rev(vals);
        lemma_kept_levels_clean(vals);
    }
}

/// Every DN is a subtree of itself.
pub proof fn is_subtree_reflexive(p: Seq<(Seq<char>, Seq<char>)>)
    ensures
        is_subtree_spec(p, p),
{
}

} // verus!
