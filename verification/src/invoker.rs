//! The chat-invocation retry policy: at most two attempts with one fixed
//! backoff between them, modeled as a decision function from the attempt
//! count and the attempt's outcome to the next action. A host loop performs
//! the network call and the sleep, and feeds each outcome back in.

use vstd::prelude::*;
use crate::openai::ChatApiResponse;

verus! {

/// What one chat-completion attempt produced.
pub enum AttemptOutcome {
    Success { text: String },
    Failure { error: String },
}

/// What the invoker does after an attempt: deliver the response text, wait
/// and retry once, or give up with the failure unchanged.
pub enum RetryDirective {
    Deliver { text: String },
    RetryAfterDelay { seconds: u64 },
    GiveUp { error: String },
}

/// The retry policy: one fixed backoff, at most two attempts.
pub struct ChatInvoker {
    pub backoff_seconds: u64,
}

/// The decision after an attempt: success is delivered; a first failure is
/// retried after the backoff; a later failure is surfaced unchanged.
pub open spec fn spec_step(backoff: u64, attempts_made: nat, outcome: AttemptOutcome) -> RetryDirective {
    match outcome {
        AttemptOutcome::Success { text } => RetryDirective::Deliver { text },
        AttemptOutcome::Failure { error } => {
            if attempts_made == 0 {
                RetryDirective::RetryAfterDelay { seconds: backoff }
            } else {
                RetryDirective::GiveUp { error }
            }
        },
    }
}

/// The final directive of a run whose attempts would produce the given
/// outcomes, under the two-attempt policy.
pub open spec fn run_result(backoff: u64, outcomes: Seq<AttemptOutcome>) -> RetryDirective
    recommends
        outcomes.len() >= 2,
{
    match spec_step(backoff, 0, outcomes[0]) {
        RetryDirective::RetryAfterDelay { seconds } => spec_step(backoff, 1, outcomes[1]),
        d => d,
    }
}

/// How many attempts such a run makes.
pub open spec fn run_attempts(backoff: u64, outcomes: Seq<AttemptOutcome>) -> nat
    recommends
        outcomes.len() >= 2,
{
    match spec_step(backoff, 0, outcomes[0]) {
        RetryDirective::RetryAfterDelay { seconds } => 2nat,
        d => 1nat,
    }
}

/// The error text of a failed attempt.
pub open spec fn failure_error(o: AttemptOutcome) -> String
    recommends
        o is Failure,
{
    match o {
        AttemptOutcome::Failure { error } => error,
        AttemptOutcome::Success { text } => text,
    }
}

impl ChatInvoker {
    /// The deployed policy: a one-minute backoff before the single retry.
    pub fn standard() -> (r: Self)
        ensures
            r.backoff_seconds == 60,
    {
        ChatInvoker { backoff_seconds: 60 }
    }

    /// Decides what to do after an attempt, given how many attempts were
    /// already made before it.
    pub fn step(&self, attempts_made: u64, outcome: AttemptOutcome) -> (r: RetryDirective)
        ensures
            r == spec_step(self.backoff_seconds, attempts_made as nat, outcome),
    {
        match outcome {
            AttemptOutcome::Success { text } => RetryDirective::Deliver { text },
            AttemptOutcome::Failure { error } => {
                if attempts_made == 0 {
                    RetryDirective::RetryAfterDelay { seconds: self.backoff_seconds }
                } else {
                    RetryDirective::GiveUp { error }
                }
            },
        }
    }
}

/// Retry bound: when every attempt fails, a run makes exactly two attempts
/// (the initial one and a single retry) and surfaces the second failure's
/// error unchanged.
pub proof fn lemma_retry_bound(backoff: u64, outcomes: Seq<AttemptOutcome>)
    requires
        outcomes.len() >= 2,
        forall|i: int| 0 <= i < outcomes.len() ==> outcomes[i] is Failure,
    ensures
        run_attempts(backoff, outcomes) == 2,
        run_result(backoff, outcomes) == (RetryDirective::GiveUp {
            error: failure_error(outcomes[1]),
        }),
{
    assert(outcomes[0] is Failure);
    assert(outcomes[1] is Failure);
}

/// Extracts the text of the first response choice, or the error that the
/// response held no choices.
pub fn first_choice(data: ChatApiResponse) -> (r: Result<String, String>)
    ensures
        data.choices@.len() > 0 ==> r == Ok::<String, String>(data.choices@[0].message.content),
        data.choices@.len() == 0 ==> r is Err && r->Err_0@ == "No choices in response"@,
{
    let mut choices = data.choices;
    if choices.len() > 0 {
        let first = choices.remove(0);
        Ok(first.message.content)
    } else {
        Err(String::from_str("No choices in response"))
    }
}

} // verus!
