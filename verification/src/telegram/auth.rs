//! Signing in: the phone number, the code that is sent to it, and the password
//! where the account has one.
use vstd::prelude::*;
use crate::telegram::flood::{flood_wait_secs, wait_of};
use crate::text::{decimal, decimal_chars, from_chars, join3, trim, trim_str};

verus! {

/// What signing in waits for.
#[derive(Debug, Clone, Copy, PartialEq, Eq, Structural)]
pub enum AuthPhase {
    /// The phone number.
    Phone,
    /// That the code has been sent.
    Sending,
    /// That a wait is over.
    Pausing,
    /// The code.
    Code,
    /// That the code has been checked.
    SigningIn,
    /// The password.
    Password,
    /// That the password has been checked.
    Checking,
    Over,
}

/// What signing in asks for.
#[derive(Debug, Clone, PartialEq, Eq)]
pub enum AuthAction {
    /// Ask the user: the step and the question.
    Prompt(&'static str, &'static str),
    /// Have a code sent to that number.
    RequestCode(String),
    /// Say that, and wait so many seconds.
    Pause(String, u64),
    SignIn(String),
    CheckPassword(String),
    Done,
    Fail(String),
    /// There is nothing to do.
    Idle,
}

/// What signing in was given.
#[derive(Debug, Clone)]
pub enum AuthEvent {
    /// What the user entered.
    Input(String),
    CodeSent,
    Paused,
    SignedIn,
    InvalidCode,
    PasswordRequired,
    InvalidPassword,
    Failed(String),
}

/// Whether an action asks the user that.
pub open spec fn asks(a: AuthAction, step: Seq<char>, question: Seq<char>) -> bool {
    a matches AuthAction::Prompt(s, q) && s@ == step && q@ == question
}

/// What is said of a server that wants to be left alone.
pub open spec fn wait_text(seconds: nat) -> Seq<char> {
    "Telegram asks you to wait "@ + decimal(seconds) + " seconds before trying again."@
}

/// Signing in starts with the phone number.
pub fn begin() -> (r: (AuthPhase, AuthAction))
    ensures
        r.0 == AuthPhase::Phone,
        asks(
            r.1,
            "phone"@,
            "Enter your phone number in international format, including + and country code."@,
        ),
{
    (
        AuthPhase::Phone,
        AuthAction::Prompt(
            "phone",
            "Enter your phone number in international format, including + and country code.",
        ),
    )
}

/// What follows in signing in.
pub open spec fn signs_in(phase: AuthPhase, event: AuthEvent, r: (AuthPhase, AuthAction)) -> bool {
    match (phase, event) {
        (AuthPhase::Phone, AuthEvent::Input(v)) => r.0 == AuthPhase::Sending && (
        r.1 matches AuthAction::RequestCode(n) && n@ == trim(v@)),
        (AuthPhase::Sending, AuthEvent::CodeSent) => r.0 == AuthPhase::Code && asks(
            r.1,
            "code"@,
            "Enter the verification code sent by Telegram."@,
        ),
        (AuthPhase::Sending, AuthEvent::Failed(m)) => match wait_of(m@) {
            Some(s) => r.0 == AuthPhase::Pausing && (r.1 matches AuthAction::Pause(t, n) && t@
                == wait_text(s) && n == s),
            None => r.0 == AuthPhase::Over && r.1 == AuthAction::Fail(m),
        },
        (AuthPhase::Pausing, AuthEvent::Paused) => r.0 == AuthPhase::Phone && asks(
            r.1,
            "phone"@,
            "You can now request a new login code."@,
        ),
        (AuthPhase::Code, AuthEvent::Input(v)) => r.0 == AuthPhase::SigningIn && (
        r.1 matches AuthAction::SignIn(c) && c@ == trim(v@)),
        (AuthPhase::SigningIn, AuthEvent::SignedIn) | (
            AuthPhase::Checking,
            AuthEvent::SignedIn,
        ) => r.0 == AuthPhase::Over && r.1 == AuthAction::Done,
        (AuthPhase::SigningIn, AuthEvent::InvalidCode) => r.0 == AuthPhase::Code && asks(
            r.1,
            "code"@,
            "That code was not accepted. Check the code and try again."@,
        ),
        (AuthPhase::SigningIn, AuthEvent::PasswordRequired) => r.0 == AuthPhase::Password
            && asks(
            r.1,
            "password"@,
            "Enter your Telegram two-factor authentication password."@,
        ),
        (AuthPhase::Password, AuthEvent::Input(v)) => r.0 == AuthPhase::Checking && r.1
            == AuthAction::CheckPassword(v),
        (AuthPhase::Checking, AuthEvent::InvalidPassword) => r.0 == AuthPhase::Password && asks(
            r.1,
            "password"@,
            "Incorrect password. Please try again."@,
        ),
        (AuthPhase::SigningIn, AuthEvent::Failed(m)) | (
            AuthPhase::Checking,
            AuthEvent::Failed(m),
        ) => r.0 == AuthPhase::Over && r.1 == AuthAction::Fail(m),
        _ => r.0 == phase && r.1 == AuthAction::Idle,
    }
}

/// Signing in succeeds only where the server says so, to the code or to the password
/// that the user entered; they are handed on as entered, but for blanks around a number
/// or a code. A code or a password that is not accepted is asked for again, a server
/// that wants to be left alone is, and then the number is asked for anew; any other
/// failure is told.
pub proof fn law_sign_in_follows_the_server(
    phase: AuthPhase,
    event: AuthEvent,
    r: (AuthPhase, AuthAction),
)
    requires
        signs_in(phase, event, r),
    ensures
        r.1 is Done <==> event is SignedIn && (phase is SigningIn || phase is Checking),
        r.1 matches AuthAction::SignIn(c) ==> phase is Code && (event matches AuthEvent::Input(v)
            && c@ == trim(v@)),
        r.1 matches AuthAction::CheckPassword(c) ==> phase is Password && event == AuthEvent::Input(c),
        r.1 matches AuthAction::RequestCode(n) ==> phase is Phone && (event matches AuthEvent::Input(v)
            && n@ == trim(v@)),
        event is Input ==> (phase is Phone ==> r.1 is RequestCode) && (phase is Code ==> r.1 is SignIn)
            && (phase is Password ==> r.1 is CheckPassword),
        phase is SigningIn && event is InvalidCode ==> r.0 is Code && r.1 is Prompt,
        phase is SigningIn && event is PasswordRequired ==> r.0 is Password && r.1 is Prompt,
        phase is Checking && event is InvalidPassword ==> r.0 is Password && r.1 is Prompt,
        phase is Sending && event is CodeSent ==> r.0 is Code && r.1 is Prompt,
        phase is Pausing && event is Paused ==> r.0 is Phone && r.1 is Prompt,
        phase is Sending ==> (event matches AuthEvent::Failed(m) ==> (wait_of(m@) is Some <==> r.1
            is Pause) && (wait_of(m@) is None <==> r.1 is Fail) && (r.1 matches AuthAction::Pause(_, n)
            ==> wait_of(m@) == Some(n as nat))),
        (phase is SigningIn || phase is Checking) ==> (event matches AuthEvent::Failed(m) ==> r.1
            == AuthAction::Fail(m)),
        r.1 is Done || r.1 is Fail ==> r.0 is Over,
        phase is Over ==> r.0 is Over && r.1 is Idle,
{
}

/// What follows. A server that was asked too often is left alone for as long as
/// it wants; a code or a password that was not accepted is asked for again; any
/// other failure ends the attempt.
pub fn step(phase: AuthPhase, event: AuthEvent) -> (r: (AuthPhase, AuthAction))
    ensures
        signs_in(phase, event, r),
{
    match (phase, event) {
        (AuthPhase::Phone, AuthEvent::Input(v)) => (
            AuthPhase::Sending,
            AuthAction::RequestCode(trim_str(v.as_str())),
        ),
        (AuthPhase::Sending, AuthEvent::CodeSent) => (
            AuthPhase::Code,
            AuthAction::Prompt("code", "Enter the verification code sent by Telegram."),
        ),
        (AuthPhase::Sending, AuthEvent::Failed(m)) => match flood_wait_secs(m.as_str()) {
            Some(s) => {
                let n = from_chars(decimal_chars(s).as_slice());
                let text = join3(
                    "Telegram asks you to wait ",
                    n.as_str(),
                    " seconds before trying again.",
                );
                (AuthPhase::Pausing, AuthAction::Pause(text, s))
            },
            None => (AuthPhase::Over, AuthAction::Fail(m)),
        },
        (AuthPhase::Pausing, AuthEvent::Paused) => (
            AuthPhase::Phone,
            AuthAction::Prompt("phone", "You can now request a new login code."),
        ),
        (AuthPhase::Code, AuthEvent::Input(v)) => (
            AuthPhase::SigningIn,
            AuthAction::SignIn(trim_str(v.as_str())),
        ),
        (AuthPhase::SigningIn, AuthEvent::SignedIn) | (
            AuthPhase::Checking,
            AuthEvent::SignedIn,
        ) => (AuthPhase::Over, AuthAction::Done),
        (AuthPhase::SigningIn, AuthEvent::InvalidCode) => (
            AuthPhase::Code,
            AuthAction::Prompt(
                "code",
                "That code was not accepted. Check the code and try again.",
            ),
        ),
        (AuthPhase::SigningIn, AuthEvent::PasswordRequired) => (
            AuthPhase::Password,
            AuthAction::Prompt(
                "password",
                "Enter your Telegram two-factor authentication password.",
            ),
        ),
        (AuthPhase::Password, AuthEvent::Input(v)) => (
            AuthPhase::Checking,
            AuthAction::CheckPassword(v),
        ),
        (AuthPhase::Checking, AuthEvent::InvalidPassword) => (
            AuthPhase::Password,
            AuthAction::Prompt("password", "Incorrect password. Please try again."),
        ),
        (AuthPhase::SigningIn, AuthEvent::Failed(m)) | (
            AuthPhase::Checking,
            AuthEvent::Failed(m),
        ) => (AuthPhase::Over, AuthAction::Fail(m)),
        (p, _) => (p, AuthAction::Idle),
    }
}

} // verus!
