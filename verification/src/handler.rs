//! The decisions of an LDAP session: which answer a request gets before any backend work,
//! and the shape of the responses that report an outcome.
use vstd::prelude::*;
use crate::attributes::{get_user_ou, ou_of};
use crate::dn::{build_user_dn, entry_dn_text, DEFAULT_PRIMARY_USER_OU};
use crate::proto::{LdapError, LdapOp, LdapResultCode, LdapResultOp};
use crate::root_dse::{oid_password_modify, oid_whoami};
use crate::text::{copy_str, push_str, str_eq};
use crate::types::{User, UserId};

verus! {

/// The result part of a response: `code` and `message`, no matched DN, no referral.
pub open spec fn plain_result(res: LdapResultOp, code: LdapResultCode, message: Seq<char>) -> bool {
    &&& res.code == code
    &&& res.matcheddn@.len() == 0
    &&& res.message@ == message
    &&& res.referral@.len() == 0
}

fn result_op(code: LdapResultCode, message: String) -> (r: LdapResultOp)
    ensures
        plain_result(r, code, message@),
{
    LdapResultOp { code, matcheddn: String::new(), message, referral: Vec::new() }
}

/// The answer to an add request.
pub fn make_add_response(code: LdapResultCode, message: String) -> (r: LdapOp)
    ensures
        r matches LdapOp::AddResponse(res) && plain_result(res, code, message@),
{
    LdapOp::AddResponse(result_op(code, message))
}

/// The answer to an extended request, without a response name or value.
pub fn make_extended_response(code: LdapResultCode, message: String) -> (r: LdapOp)
    ensures
        r matches LdapOp::ExtendedResponse(res) && plain_result(res, code, message@),
{
    LdapOp::ExtendedResponse(result_op(code, message))
}

/// The answer to a modify request.
pub fn make_modify_response(code: LdapResultCode, message: String) -> (r: LdapOp)
    ensures
        r matches LdapOp::ModifyResponse(res) && plain_result(res, code, message@),
{
    LdapOp::ModifyResponse(result_op(code, message))
}

/// The answer to a bind request, without server credentials.
pub fn make_bind_response(code: LdapResultCode, message: String) -> (r: LdapOp)
    ensures
        r matches LdapOp::BindResponse(res) && plain_result(res, code, message@),
{
    LdapOp::BindResponse(result_op(code, message))
}

/// The error of a request that needs a bound user when none is bound.
pub fn no_bound_user_error() -> (r: LdapError)
    ensures
        r.code == LdapResultCode::InsufficentAccessRights,
        r.message@ == "No user currently bound"@,
{
    LdapError { code: LdapResultCode::InsufficentAccessRights, message: copy_str("No user currently bound") }
}

/// The error of a write request from a session without administrator rights.
pub fn unauthorized_write_error() -> (r: LdapError)
    ensures
        r.code == LdapResultCode::InsufficentAccessRights,
        r.message@ == "Unauthorized write"@,
{
    LdapError { code: LdapResultCode::InsufficentAccessRights, message: copy_str("Unauthorized write") }
}

/// The answer to a request that needs a bound user when none is bound.
pub fn unbound_responses() -> (r: Vec<LdapOp>)
    ensures
        r@.len() == 1,
        r@[0] matches LdapOp::ExtendedResponse(res) && plain_result(
            res,
            LdapResultCode::InsufficentAccessRights,
            "No user currently bound"@,
        ),
{
    let e = no_bound_user_error();
    vec![make_extended_response(e.code, e.message)]
}

/// What a session does with an extended request.
pub enum ExtendedAction {
    /// Change the bound user's password as the parsed request asks.
    ChangePassword,
    /// Tell the bound user who they are.
    WhoAmI,
    /// Answer at once with these responses.
    Respond(Vec<LdapOp>),
}

/// The password modify extended operation's OID.
pub open spec fn password_modify_oid() -> Seq<char> {
    "1.3.6.1.4.1.4203.1.11.1"@
}

/// The "who am I?" extended operation's OID.
pub open spec fn whoami_oid() -> Seq<char> {
    "1.3.6.1.4.1.4203.1.11.3"@
}

/// The one response of an immediate answer.
pub open spec fn single_extended(a: ExtendedAction, code: LdapResultCode, message: Seq<char>) -> bool {
    a matches ExtendedAction::Respond(v) && v@.len() == 1 && (v@[0] matches LdapOp::ExtendedResponse(res)
        && plain_result(res, code, message))
}

/// What to do with an extended request named `name`: a password change needs a request
/// that parsed (`parse_error` holds the parser's report otherwise) and a bound user; "who
/// am I?" needs a bound user; any other operation is refused.
pub fn extended_request_action(name: &str, parse_error: Option<&str>, bound: bool) -> (r: ExtendedAction)
    ensures
        name@ == password_modify_oid() ==> (match parse_error {
            Some(e) => single_extended(
                r,
                LdapResultCode::ProtocolError,
                "Error while parsing password modify request: "@ + e@,
            ),
            None => if bound {
                r is ChangePassword
            } else {
                single_extended(r, LdapResultCode::InsufficentAccessRights, "No user currently bound"@)
            },
        }),
        name@ == whoami_oid() ==> if bound {
            r is WhoAmI
        } else {
            single_extended(r, LdapResultCode::InsufficentAccessRights, "No user currently bound"@)
        },
        name@ != password_modify_oid() && name@ != whoami_oid() ==> single_extended(
            r,
            LdapResultCode::UnwillingToPerform,
            "Unsupported extended operation: "@ + name@,
        ),
{
    let password_oid = oid_password_modify();
    let whoami = oid_whoami();
    proof {
        reveal_strlit("1.3.6.1.4.1.4203.1.11.1");
        reveal_strlit("1.3.6.1.4.1.4203.1.11.3");
        assert(password_modify_oid()[22] != whoami_oid()[22]);
    }
    if str_eq(name, password_oid.as_str()) {
        match parse_error {
            Some(e) => {
                let mut m = copy_str("Error while parsing password modify request: ");
                push_str(&mut m, e);
                ExtendedAction::Respond(vec![make_extended_response(LdapResultCode::ProtocolError, m)])
            },
            None => if bound {
                ExtendedAction::ChangePassword
            } else {
                ExtendedAction::Respond(unbound_responses())
            },
        }
    } else if str_eq(name, whoami.as_str()) {
        if bound {
            ExtendedAction::WhoAmI
        } else {
            ExtendedAction::Respond(unbound_responses())
        }
    } else {
        let mut m = copy_str("Unsupported extended operation: ");
        push_str(&mut m, name);
        ExtendedAction::Respond(vec![make_extended_response(LdapResultCode::UnwillingToPerform, m)])
    }
}

/// The OU that names a user in a "who am I?" answer: the user's own OU when the user was
/// found, else the default user OU.
pub open spec fn whoami_ou(found: Option<User>) -> Seq<char> {
    match found {
        Some(u) => ou_of(u.attributes@, "people"@),
        None => "people"@,
    }
}

/// The answer to "who am I?" for bound user `user_id`, whose entry `found` was looked up:
/// `dn:` and the user's DN under base DN `base_dn_str`.
pub fn whoami_response(user_id: &UserId, found: Option<&User>, base_dn_str: &str) -> (r: LdapOp)
    ensures
        r matches LdapOp::ExtendedResponse(res) && plain_result(
            res,
            LdapResultCode::Success,
            "dn:"@ + entry_dn_text("uid"@, user_id@, whoami_ou(
                match found {
                    Some(u) => Some(*u),
                    None => None,
                },
            ), base_dn_str@),
        ),
{
    let ou = match found {
        Some(u) => get_user_ou(u),
        None => copy_str(DEFAULT_PRIMARY_USER_OU),
    };
    proof {
        reveal_strlit("people");
        reveal_strlit("uid");
        assert(ou@ == whoami_ou(
            match found {
                Some(u) => Some(*u),
                None => None,
            },
        ));
        assert(seq!['u', 'i', 'd'] =~= "uid"@);
    }
    let dn = build_user_dn(user_id, ou.as_str(), base_dn_str);
    let mut m = copy_str("dn:");
    push_str(&mut m, dn.as_str());
    make_extended_response(LdapResultCode::Success, m)
}

} // verus!
