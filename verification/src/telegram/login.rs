//! The dialog in which a user signs in: one question at a time.
use vstd::prelude::*;
use vstd::utf8::encode_utf8;

verus! {

/// What is asked or said. The number tells questions apart.
#[derive(Debug, Clone)]
pub struct LoginSnapshot {
    pub step: String,
    pub message: String,
    pub id: u64,
}

/// The dialog.
#[derive(Debug)]
pub struct Login {
    pub snapshot: LoginSnapshot,
    /// An answer to the question is awaited.
    pub waiting: bool,
}

/// An answer.
#[derive(Debug, Clone)]
pub struct LoginInput {
    pub id: u64,
    pub value: String,
    pub api_hash: String,
}

/// Why an answer is refused: an HTTP status and what is said of it.
#[derive(Debug, Clone, Copy, PartialEq, Eq, Structural)]
pub enum SubmitError {
    /// The answer is empty or too long.
    Invalid,
    /// Another question is asked now.
    Changed,
    /// The question has been answered.
    Processing,
    /// Nobody waits for the answer any more.
    Gone,
}

impl SubmitError {
    /// The HTTP status of the answer.
    pub fn status(self) -> (r: u16)
        ensures
            r == (if self == SubmitError::Invalid {
                400u16
            } else {
                409
            }),
    {
        match self {
            SubmitError::Invalid => 400,
            _ => 409,
        }
    }

    /// What is said of the answer.
    pub fn message(self) -> (r: &'static str)
        ensures
            r@ == (match self {
                SubmitError::Invalid => "Enter a valid value"@,
                SubmitError::Changed => "Login step changed; try again"@,
                SubmitError::Processing => "Login is already processing"@,
                SubmitError::Gone => "Login is no longer waiting"@,
            }),
    {
        match self {
            SubmitError::Invalid => "Enter a valid value",
            SubmitError::Changed => "Login step changed; try again",
            SubmitError::Processing => "Login is already processing",
            SubmitError::Gone => "Login is no longer waiting",
        }
    }
}

impl Default for Login {
    fn default() -> (r: Self)
        ensures
            r.snapshot.step@ == "working"@,
            r.snapshot.message@ == "Connecting to Telegram…"@,
            r.snapshot.id == 0,
            !r.waiting,
    {
        Login {
            snapshot: LoginSnapshot {
                step: "working".to_owned(),
                message: "Connecting to Telegram…".to_owned(),
                id: 0,
            },
            waiting: false,
        }
    }
}

/// Whether an answer can be used at all, by its length in bytes.
pub open spec fn usable(value: Seq<char>, api_hash: Seq<char>) -> bool {
    0 < encode_utf8(value).len() <= 1024 && encode_utf8(api_hash).len() <= 128
}

impl Login {
    /// Ask a question.
    pub fn login_prompt(&mut self, step: &str, message: &str)
        requires
            old(self).snapshot.id < u64::MAX,
        ensures
            final(self).snapshot.id == old(self).snapshot.id + 1,
            final(self).snapshot.step@ == step@,
            final(self).snapshot.message@ == message@,
            final(self).waiting,
    {
        self.snapshot.id = self.snapshot.id + 1;
        self.snapshot.step = step.to_owned();
        self.snapshot.message = message.to_owned();
        self.waiting = true;
    }

    /// Say something; a question that was asked is withdrawn.
    pub fn login_status(&mut self, step: &str, message: &str)
        ensures
            final(self).snapshot.id == old(self).snapshot.id,
            final(self).snapshot.step@ == step@,
            final(self).snapshot.message@ == message@,
            !final(self).waiting,
    {
        self.snapshot.step = step.to_owned();
        self.snapshot.message = message.to_owned();
        self.waiting = false;
    }

    /// Take an answer: it must be the first to the question that is asked.
    /// `listening` says whether whoever asked still waits.
    pub fn submit(&mut self, input: &LoginInput, listening: bool) -> (r: Result<(), SubmitError>)
        ensures
            r == answer(*old(self), *input, listening),
            answered(*old(self), *input, listening, *final(self)),
    {
        let n = input.value.as_str().as_bytes().len();
        if n == 0 || n > 1024 || input.api_hash.as_str().as_bytes().len() > 128 {
            return Err(SubmitError::Invalid);
        }
        if self.snapshot.id != input.id {
            return Err(SubmitError::Changed);
        }
        if !self.waiting {
            return Err(SubmitError::Processing);
        }
        self.waiting = false;
        if !listening {
            return Err(SubmitError::Gone);
        }
        self.snapshot.step = "working".to_owned();
        self.snapshot.message = "Connecting to Telegram…".to_owned();
        Ok(())
    }
}

/// What the dialog does with an answer.
pub open spec fn answer(login: Login, input: LoginInput, listening: bool) -> Result<(), SubmitError> {
    if !usable(input.value@, input.api_hash@) {
        Err(SubmitError::Invalid)
    } else if login.snapshot.id != input.id {
        Err(SubmitError::Changed)
    } else if !login.waiting {
        Err(SubmitError::Processing)
    } else if !listening {
        Err(SubmitError::Gone)
    } else {
        Ok(())
    }
}

/// Whether the dialog is what an answer makes of it.
pub open spec fn answered(before: Login, input: LoginInput, listening: bool, after: Login) -> bool {
    match answer(before, input, listening) {
        Ok(_) => {
            &&& after.snapshot.id == before.snapshot.id
            &&& after.snapshot.step@ == "working"@
            &&& after.snapshot.message@ == "Connecting to Telegram…"@
            &&& !after.waiting
        },
        Err(SubmitError::Gone) => after == (Login { waiting: false, ..before }),
        Err(_) => after == before,
    }
}

/// A question is answered at most once: after an answer was taken, no other one
/// is, until the next question is asked.
pub proof fn law_answers_are_taken_once(
    before: Login,
    first: LoginInput,
    after: Login,
    second: LoginInput,
    listening: bool,
)
    requires
        answer(before, first, true) is Ok,
        answered(before, first, true, after),
    ensures
        answer(after, second, listening) is Err,
{
}

/// An answer is taken exactly where it can be used, answers the question that is asked,
/// is the first to do so and somebody still waits for it; why another is not taken is
/// told, and it changes nothing.
pub proof fn law_answers_fit_their_question(login: Login, input: LoginInput, listening: bool)
    ensures
        ({
            let n = encode_utf8(input.value@).len();
            let fits = 0 < n <= 1024 && encode_utf8(input.api_hash@).len() <= 128;
            let r = answer(login, input, listening);
            &&& r is Ok <==> fits && input.id == login.snapshot.id && login.waiting && listening
            &&& !fits <==> r == Err::<(), SubmitError>(SubmitError::Invalid)
            &&& fits && input.id != login.snapshot.id <==> r == Err::<(), SubmitError>(
                SubmitError::Changed,
            )
        }),
{
}

} // verus!
