//! Reading attribute values from their text form (as LDAP and GraphQL clients send them).
use vstd::prelude::*;
use crate::images::{avatar_output_shape, base64_decode, base64_standard_decoded, process_avatar_input};
use crate::schema::AttributeType;
use crate::text::{copy_str, parse_int, parse_int_spec, push_str, views};
use crate::types::{AttributeValue, Avatar, Cardinality, DateTime};

verus! {

/// The instant (UTC) that an RFC 3339 date denotes, if it is valid.
pub uninterp spec fn rfc3339_instant(s: Seq<char>) -> Option<DateTime>;

/// Parses an RFC 3339 date and takes it to UTC (`chrono::DateTime::parse_from_rfc3339`,
/// then `naive_utc`), as whole seconds since the epoch and nanoseconds.
#[verifier::external_body]
fn parse_rfc3339(s: &str) -> (r: Option<DateTime>)
    ensures
        r == rfc3339_instant(s@),
{
    match chrono::DateTime::parse_from_rfc3339(s) {
        Ok(dt) => {
            let utc = dt.naive_utc().and_utc();
            Some(DateTime { secs: utc.timestamp(), nanos: utc.timestamp_subsec_nanos() })
        },
        Err(_) => None,
    }
}

/// The integers of the texts, or the first text that is no `i64`.
pub open spec fn int_values(vals: Seq<Seq<char>>) -> Result<Seq<i64>, Seq<char>>
    decreases vals.len(),
{
    if vals.len() == 0 {
        Ok(Seq::<i64>::empty())
    } else {
        match int_values(vals.drop_last()) {
            Err(e) => Err(e),
            Ok(l) => match parse_int_spec(vals.last(), i64::MIN as int, i64::MAX as int) {
                Some(v) => Ok(l.push(v as i64)),
                None => Err(vals.last()),
            },
        }
    }
}

/// The instants of the texts, or the first text that is no RFC 3339 date.
pub open spec fn date_values(vals: Seq<Seq<char>>) -> Result<Seq<DateTime>, Seq<char>>
    decreases vals.len(),
{
    if vals.len() == 0 {
        Ok(Seq::<DateTime>::empty())
    } else {
        match date_values(vals.drop_last()) {
            Err(e) => Err(e),
            Ok(l) => match rfc3339_instant(vals.last()) {
                Some(v) => Ok(l.push(v)),
                None => Err(vals.last()),
            },
        }
    }
}

/// Whether a cardinality holds the values: one value, or the list.
pub open spec fn holds_values<T>(c: Cardinality<T>, vals: Seq<T>, is_list: bool) -> bool {
    if is_list {
        c matches Cardinality::Unbounded(l) && l@ == vals
    } else {
        c matches Cardinality::Singleton(v) && vals.len() == 1 && v == vals[0]
    }
}

/// Whether the avatars come from the texts: nothing for an empty text, else an
/// avatar picture made from the decoded bytes.
pub open spec fn avatars_from(avs: Seq<Avatar>, vals: Seq<Seq<char>>) -> bool {
    &&& avs.len() == vals.len()
    &&& forall|i: int| 0 <= i < vals.len() ==> avatar_output_shape((#[trigger] avs[i]).0@)
    &&& forall|i: int| 0 <= i < vals.len() && (#[trigger] vals[i]).len() == 0 ==> avs[i].0@.len() == 0
}

/// Whether some non-empty text is not valid base64.
pub open spec fn has_bad_base64(vals: Seq<Seq<char>>) -> bool {
    exists|i: int| 0 <= i < vals.len() && (#[trigger] vals[i]).len() > 0 && base64_standard_decoded(vals[i]) is None
}

/// Whether some non-empty text decodes as base64 with no text before it that fails to
/// decode: its picture is the first that avatar processing (an outside step) may refuse.
pub open spec fn has_processable_text(vals: Seq<Seq<char>>) -> bool {
    exists|i: int|
        0 <= i < vals.len() && (#[trigger] vals[i]).len() > 0 && base64_standard_decoded(vals[i]) is Some
            && !has_bad_base64(vals.take(i))
}

/// What reading the texts as values of a type gives (for a single value, `vals` has one text).
pub open spec fn deserialized(vals: Seq<Seq<char>>, typ: AttributeType, is_list: bool, r: Result<AttributeValue, String>) -> bool {
    match typ {
        AttributeType::String => if is_list {
            r matches Ok(AttributeValue::String(Cardinality::Unbounded(l))) && views(l@) == vals
        } else {
            r matches Ok(AttributeValue::String(Cardinality::Singleton(s))) && s@ == vals[0]
        },
        AttributeType::Integer => match int_values(vals) {
            Ok(ints) => r matches Ok(AttributeValue::Integer(c)) && holds_values(c, ints, is_list),
            Err(bad) => r matches Err(m) && m@ == "Invalid integer value "@ + bad,
        },
        AttributeType::DateTime => match date_values(vals) {
            Ok(ds) => r matches Ok(AttributeValue::DateTime(c)) && holds_values(c, ds, is_list),
            Err(bad) => r matches Err(m) && m@ == "Invalid date value "@ + bad,
        },
        AttributeType::Avatar => match r {
            Ok(AttributeValue::Avatar(c)) => !has_bad_base64(vals) && (if is_list {
                c matches Cardinality::Unbounded(l) && avatars_from(l@, vals)
            } else {
                c matches Cardinality::Singleton(a) && avatars_from(seq![a], vals)
            }),
            Ok(_) => false,
            Err(m) => (m@ == "Invalid base64 data for avatar"@ && has_bad_base64(vals))
                || (m@ == "Failed to process avatar"@ && has_processable_text(vals)),
        },
    }
}

fn parse_ints(value: &[String]) -> (r: Result<Vec<i64>, String>)
    ensures
        match int_values(views(value@)) {
            Ok(ints) => r matches Ok(v) && v@ == ints,
            Err(bad) => r matches Err(m) && m@ == "Invalid integer value "@ + bad,
        },
{
    let ghost vv = views(value@);
    let mut out: Vec<i64> = Vec::new();
    let mut i: usize = 0;
    while i < value.len()
        invariant
            i <= value@.len(),
            vv == views(value@),
            int_values(vv.take(i as int)) == Ok::<Seq<i64>, Seq<char>>(out@),
        decreases value@.len() - i,
    {
        assert(vv.take(i + 1).drop_last() =~= vv.take(i as int));
        assert(vv.take(i + 1).last() == value@[i as int]@);
        match parse_int(value[i].as_str(), i64::MIN, i64::MAX) {
            Some(v) => out.push(v),
            None => {
                let mut m = copy_str("Invalid integer value ");
                push_str(&mut m, value[i].as_str());
                proof {
                    lemma_int_values_err_prefix(vv, i as int + 1);
                }
                return Err(m);
            },
        }
        i += 1;
    }
    assert(vv.take(value@.len() as int) =~= vv);
    Ok(out)
}

proof fn lemma_int_values_err_prefix(vals: Seq<Seq<char>>, k: int)
    requires
        0 <= k <= vals.len(),
        int_values(vals.take(k)) is Err,
    ensures
        int_values(vals) == int_values(vals.take(k)),
    decreases vals.len(),
{
    if k < vals.len() {
        assert(vals.drop_last().take(k) =~= vals.take(k));
        lemma_int_values_err_prefix(vals.drop_last(), k);
    } else {
        assert(vals.take(k) =~= vals);
    }
}

proof fn lemma_date_values_err_prefix(vals: Seq<Seq<char>>, k: int)
    requires
        0 <= k <= vals.len(),
        date_values(vals.take(k)) is Err,
    ensures
        date_values(vals) == date_values(vals.take(k)),
    decreases vals.len(),
{
    if k < vals.len() {
        assert(vals.drop_last().take(k) =~= vals.take(k));
        lemma_date_values_err_prefix(vals.drop_last(), k);
    } else {
        assert(vals.take(k) =~= vals);
    }
}

fn parse_dates(value: &[String]) -> (r: Result<Vec<DateTime>, String>)
    ensures
        match date_values(views(value@)) {
            Ok(ds) => r matches Ok(v) && v@ == ds,
            Err(bad) => r matches Err(m) && m@ == "Invalid date value "@ + bad,
        },
{
    let ghost vv = views(value@);
    let mut out: Vec<DateTime> = Vec::new();
    let mut i: usize = 0;
    while i < value.len()
        invariant
            i <= value@.len(),
            vv == views(value@),
            date_values(vv.take(i as int)) == Ok::<Seq<DateTime>, Seq<char>>(out@),
        decreases value@.len() - i,
    {
        assert(vv.take(i + 1).drop_last() =~= vv.take(i as int));
        assert(vv.take(i + 1).last() == value@[i as int]@);
        match parse_rfc3339(value[i].as_str()) {
            Some(v) => out.push(v),
            None => {
                let mut m = copy_str("Invalid date value ");
                push_str(&mut m, value[i].as_str());
                proof {
                    lemma_date_values_err_prefix(vv, i as int + 1);
                }
                return Err(m);
            },
        }
        i += 1;
    }
    assert(vv.take(value@.len() as int) =~= vv);
    Ok(out)
}

fn parse_avatar(value: &String) -> (r: Result<Avatar, String>)
    ensures
        match r {
            Ok(a) => avatar_output_shape(a.0@) && (value@.len() == 0 ==> a.0@.len() == 0) && (value@.len()
                > 0 ==> base64_standard_decoded(value@) is Some),
            Err(m) => (m@ == "Invalid base64 data for avatar"@ && value@.len() > 0
                && base64_standard_decoded(value@) is None) || (m@ == "Failed to process avatar"@
                && value@.len() > 0 && base64_standard_decoded(value@) is Some),
        },
        value@.len() > 0 && base64_standard_decoded(value@) is None ==> (r matches Err(m) && m@
            == "Invalid base64 data for avatar"@),
{
    if value.as_str().is_empty() {
        return Ok(Avatar::null());
    }
    let raw = match base64_decode(value.as_str()) {
        Ok(b) => b,
        Err(_) => return Err(copy_str("Invalid base64 data for avatar")),
    };
    let jpeg = match process_avatar_input(raw.as_slice()) {
        Ok(j) => j,
        Err(_) => return Err(copy_str("Failed to process avatar")),
    };
    Ok(Avatar::new(jpeg))
}

fn parse_avatars(value: &[String]) -> (r: Result<Vec<Avatar>, String>)
    ensures
        match r {
            Ok(avs) => avatars_from(avs@, views(value@)) && !has_bad_base64(views(value@)),
            Err(m) => (m@ == "Invalid base64 data for avatar"@ && has_bad_base64(views(value@)))
                || (m@ == "Failed to process avatar"@ && has_processable_text(views(value@))),
        },
{
    let ghost vv = views(value@);
    let mut out: Vec<Avatar> = Vec::new();
    let mut i: usize = 0;
    while i < value.len()
        invariant
            i <= value@.len(),
            vv == views(value@),
            avatars_from(out@, vv.take(i as int)),
            !has_bad_base64(vv.take(i as int)),
        decreases value@.len() - i,
    {
        let a = match parse_avatar(&value[i]) {
            Ok(a) => a,
            Err(m) => {
                proof {
                    assert(vv[i as int] == value@[i as int]@);
                }
                return Err(m);
            },
        };
        let ghost before = out@;
        out.push(a);
        proof {
            let t = vv.take(i + 1);
            assert(t[i as int] == value@[i as int]@);
            assert forall|j: int| 0 <= j < t.len() implies avatar_output_shape((#[trigger] out@[j]).0@) by {
                if j < i {
                    assert(out@[j] == before[j]);
                    assert(vv.take(i as int)[j] == t[j]);
                }
            }
            assert forall|j: int| 0 <= j < t.len() && (#[trigger] t[j]).len() == 0 implies out@[j].0@.len() == 0 by {
                if j < i {
                    assert(out@[j] == before[j]);
                    assert(vv.take(i as int)[j] == t[j]);
                }
            }
            if has_bad_base64(t) {
                let j = choose|j: int| 0 <= j < t.len() && (#[trigger] t[j]).len() > 0 && base64_standard_decoded(t[j]) is None;
                if j < i {
                    assert(vv.take(i as int)[j] == t[j]);
                }
            }
        }
        i += 1;
    }
    assert(vv.take(value@.len() as int) =~= vv);
    Ok(out)
}

/// What reading the texts as values of a type gives, including the refusal of
/// several texts for a single-valued attribute.
pub open spec fn deserialize_rel(vals: Seq<Seq<char>>, typ: AttributeType, is_list: bool, r: Result<AttributeValue, String>) -> bool {
    if !is_list && vals.len() != 1 {
        r matches Err(m) && m@ == "Attribute is not a list, but multiple values were provided"@
    } else {
        deserialized(vals, typ, is_list, r)
    }
}

/// Reads attribute values of a type from their texts: a single-valued attribute
/// takes exactly one text; integers are decimal `i64`, dates RFC 3339, avatars
/// base64 pictures (re-encoded as avatar JPEGs).
pub fn deserialize_attribute_value(value: &[String], typ: AttributeType, is_list: bool) -> (r: Result<
    AttributeValue,
    String,
>)
    ensures
        !is_list && value@.len() != 1 ==> (r matches Err(m)
            && m@ == "Attribute is not a list, but multiple values were provided"@),
        is_list || value@.len() == 1 ==> deserialized(views(value@), typ, is_list, r),
        deserialize_rel(views(value@), typ, is_list, r),
{
    if !is_list && value.len() != 1 {
        return Err(copy_str("Attribute is not a list, but multiple values were provided"));
    }
    let ghost vv = views(value@);
    proof {
        lemma_int_values_len(vv);
        lemma_date_values_len(vv);
    }
    match typ {
        AttributeType::String => {
            if is_list {
                let mut l: Vec<String> = Vec::new();
                let mut i: usize = 0;
                while i < value.len()
                    invariant
                        i <= value@.len(),
                        vv == views(value@),
                        views(l@) == vv.take(i as int),
                    decreases value@.len() - i,
                {
                    let ghost before = views(l@);
                    l.push(value[i].clone());
                    assert(views(l@) =~= before.push(value@[i as int]@));
                    assert(views(l@) =~= vv.take(i + 1));
                    i += 1;
                }
                assert(vv.take(value@.len() as int) =~= vv);
                Ok(AttributeValue::String(Cardinality::Unbounded(l)))
            } else {
                Ok(AttributeValue::String(Cardinality::Singleton(value[0].clone())))
            }
        },
        AttributeType::Integer => match parse_ints(value) {
            Ok(ints) => {
                if is_list {
                    Ok(AttributeValue::Integer(Cardinality::Unbounded(ints)))
                } else {
                    Ok(AttributeValue::Integer(Cardinality::Singleton(ints[0])))
                }
            },
            Err(m) => Err(m),
        },
        AttributeType::DateTime => match parse_dates(value) {
            Ok(ds) => {
                if is_list {
                    Ok(AttributeValue::DateTime(Cardinality::Unbounded(ds)))
                } else {
                    Ok(AttributeValue::DateTime(Cardinality::Singleton(ds[0])))
                }
            },
            Err(m) => Err(m),
        },
        AttributeType::Avatar => match parse_avatars(value) {
            Ok(avs) => {
                if is_list {
                    Ok(AttributeValue::Avatar(Cardinality::Unbounded(avs)))
                } else {
                    let mut avs = avs;
                    let ghost all = avs@;
                    let a = avs.remove(0);
                    assert(all =~= seq![a]);
                    Ok(AttributeValue::Avatar(Cardinality::Singleton(a)))
                }
            },
            Err(m) => Err(m),
        },
    }
}

proof fn lemma_int_values_len(vals: Seq<Seq<char>>)
    ensures
        int_values(vals) matches Ok(l) ==> l.len() == vals.len(),
    decreases vals.len(),
{
    if vals.len() > 0 {
        lemma_int_values_len(vals.drop_last());
    }
}

proof fn lemma_date_values_len(vals: Seq<Seq<char>>)
    ensures
        date_values(vals) matches Ok(l) ==> l.len() == vals.len(),
    decreases vals.len(),
{
    if vals.len() > 0 {
        lemma_date_values_len(vals.drop_last());
    }
}

} // verus!
