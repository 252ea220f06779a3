//! Verifying the password of the user: the steps, and what each outcome means.
//!
//! The authentication service itself is asked by the program; the steps here say
//! what to ask it and what to make of its answers.

use crate::config::opt_text;
use crate::text::chars_of;
use vstd::prelude::*;

verus! {

/// What the authentication service is asked.
#[derive(Debug, Clone, Copy, PartialEq, Eq, Structural)]
pub enum AuthCall {
    /// To start a session for the user.
    Start,
    /// To authenticate the user.
    Authenticate,
    /// Whether the account may be used.
    Account,
}

/// What to do after an answer of the authentication service.
#[derive(Debug, PartialEq, Eq)]
pub enum AuthNext {
    /// Ask the next thing.
    Ask(AuthCall),
    /// Stop with a result. A session that was started has to be ended first.
    Finish { end_session: bool, result: Result<(), String> },
}

/// Whose password is verified: the user that the session names, or the login name,
/// or `root`.
pub open spec fn user_of(user: Option<Seq<char>>, logname: Option<Seq<char>>) -> Seq<char> {
    match user {
        Some(name) => name,
        None => match logname {
            Some(name) => name,
            None => "root"@,
        },
    }
}

/// Whose password is verified.
pub fn username(user: Option<String>, logname: Option<String>) -> (r: String)
    ensures
        r@ == user_of(opt_text(user), opt_text(logname)),
{
    match user {
        Some(name) => name,
        None => match logname {
            Some(name) => name,
            None => "root".to_owned(),
        },
    }
}

/// Whether a password can be handed to the authentication service, which takes
/// texts without a null character.
pub fn acceptable(password: &str) -> (r: Result<(), String>)
    ensures
        r is Ok <==> !password@.contains('\0'),
        r matches Err(message) ==> message@ == "密码含非法字符"@,
{
    let chars = chars_of(password);
    let mut i: usize = 0;
    while i < chars.len()
        invariant
            0 <= i <= chars.len(),
            chars@ == password@,
            forall|k: int| 0 <= k < i ==> #[trigger] chars@[k] != '\0',
        decreases chars.len() - i,
    {
        if chars[i] == '\0' {
            assert(password@[i as int] == '\0');
            return Err("密码含非法字符".to_owned());
        }
        i = i + 1;
    }
    Ok(())
}

/// What is done first with a password: the service is asked to start, unless the
/// password cannot be handed to it.
pub fn begin(password: &str) -> (r: AuthNext)
    ensures
        password@.contains('\0') ==> (r matches AuthNext::Finish { end_session, result }
            && !end_session && (result matches Err(message) && message@ == "密码含非法字符"@)),
        !password@.contains('\0') ==> r == AuthNext::Ask(AuthCall::Start),
{
    match acceptable(password) {
        Ok(_) => AuthNext::Ask(AuthCall::Start),
        Err(message) => AuthNext::Finish { end_session: false, result: Err(message) },
    }
}

/// `next` is what to do after an answer: a success leads to the next question, or
/// to success after the last one; a failure ends everything with a message. `code`
/// is how the service names the answer.
pub open spec fn follows(call: AuthCall, success: bool, code: Seq<char>, next: AuthNext) -> bool {
    match call {
        AuthCall::Start => if success {
            next == AuthNext::Ask(AuthCall::Authenticate)
        } else {
            next matches AuthNext::Finish { end_session, result } && !end_session && (
            result matches Err(message) && message@ == "PAM 初始化失败: "@ + code)
        },
        AuthCall::Authenticate => if success {
            next == AuthNext::Ask(AuthCall::Account)
        } else {
            next matches AuthNext::Finish { end_session, result } && end_session && (
            result matches Err(message) && message@ == "密码错误"@)
        },
        AuthCall::Account => next matches AuthNext::Finish { end_session, result } && end_session
            && if success {
            result is Ok
        } else {
            result matches Err(message) && message@ == "账户验证失败: "@ + code
        },
    }
}

/// What to do after an answer.
pub fn after(call: AuthCall, success: bool, code: &str) -> (next: AuthNext)
    ensures
        follows(call, success, code@, next),
{
    match call {
        AuthCall::Start => if success {
            AuthNext::Ask(AuthCall::Authenticate)
        } else {
            AuthNext::Finish {
                end_session: false,
                result: Err("PAM 初始化失败: ".to_owned().concat(code)),
            }
        },
        AuthCall::Authenticate => if success {
            AuthNext::Ask(AuthCall::Account)
        } else {
            AuthNext::Finish { end_session: true, result: Err("密码错误".to_owned()) }
        },
        AuthCall::Account => AuthNext::Finish {
            end_session: true,
            result: if success {
                Ok(())
            } else {
                Err("账户验证失败: ".to_owned().concat(code))
            },
        },
    }
}

/// The style of a question whose answer is not shown while it is typed.
pub const PROMPT_ECHO_OFF: i32 = 1;

/// Which questions of the service are answered with the password: those whose
/// answer is not shown. The others are left without an answer.
pub fn answers(styles: &Vec<i32>) -> (r: Vec<bool>)
    ensures
        r@ == styles@.map_values(|style: i32| style == PROMPT_ECHO_OFF),
{
    let mut r: Vec<bool> = Vec::new();
    let mut i: usize = 0;
    while i < styles.len()
        invariant
            0 <= i <= styles.len(),
            r@.len() == i,
            forall|k: int| 0 <= k < i ==> #[trigger] r@[k] == (styles@[k] == PROMPT_ECHO_OFF),
        decreases styles.len() - i,
    {
        r.push(styles[i] == PROMPT_ECHO_OFF);
        i = i + 1;
    }
    assert(r@ =~= styles@.map_values(|style: i32| style == PROMPT_ECHO_OFF));
    r
}

/// A password is right only if the service says so three times: every failure on
/// the way ends the verification with an error, and it ends with success only
/// after the account has been found usable.
pub proof fn law_verified_only_by_all(call: AuthCall, success: bool, code: Seq<char>, next: AuthNext)
    requires
        follows(call, success, code, next),
    ensures
        next matches AuthNext::Finish { end_session, result } ==> (result is Ok <==> success
            && call is Account),
        !success ==> next is Finish,
        next is Ask <==> success && call !is Account,
{
}

/// A session is ended after every answer that ends the verification, except where it could
/// not be started: then there is none to end. The questions come in one order: to start, to
/// authenticate, and whether the account may be used.
pub proof fn law_session_ended(call: AuthCall, success: bool, code: Seq<char>, next: AuthNext)
    requires
        follows(call, success, code, next),
    ensures
        next matches AuthNext::Finish { end_session, .. } ==> (end_session <==> call !is Start),
        next matches AuthNext::Ask(question) ==> match call {
            AuthCall::Start => question is Authenticate,
            AuthCall::Authenticate => question is Account,
            AuthCall::Account => false,
        },
        next matches AuthNext::Finish { result: Err(message), .. } ==> match call {
            AuthCall::Start => message@ == "PAM 初始化失败: "@ + code,
            AuthCall::Authenticate => message@ == "密码错误"@,
            AuthCall::Account => message@ == "账户验证失败: "@ + code,
        },
{
}

/// The user of the session comes first, then the login name, and only without either the
/// superuser.
pub proof fn law_session_user_first(user: Seq<char>, logname: Seq<char>)
    ensures
        user_of(Some(user), Some(logname)) == user,
        user_of(Some(user), None) == user,
        user_of(None, Some(logname)) == logname,
        user_of(None, None) == "root"@,
{
}

} // verus!
