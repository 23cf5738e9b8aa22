use vidsum::invoker::{first_choice, AttemptOutcome, ChatInvoker, RetryDirective};
use vidsum::openai::{ChatApiResponse, ChatChoice, ChatMessageContent};

#[test]
fn success_is_delivered_without_retry() {
    let inv = ChatInvoker::standard();
    let d = inv.step(0, AttemptOutcome::Success { text: String::from("ok") });
    match d {
        RetryDirective::Deliver { text } => assert_eq!(text, "ok"),
        _ => panic!("expected delivery"),
    }
}

#[test]
fn first_failure_waits_one_minute_then_retries() {
    let inv = ChatInvoker::standard();
    let d = inv.step(0, AttemptOutcome::Failure { error: String::from("boom") });
    match d {
        RetryDirective::RetryAfterDelay { seconds } => assert_eq!(seconds, 60),
        _ => panic!("expected a retry"),
    }
}

#[test]
fn always_failing_call_is_attempted_exactly_twice() {
    let inv = ChatInvoker::standard();
    let outcomes = vec![
        AttemptOutcome::Failure { error: String::from("first failure") },
        AttemptOutcome::Failure { error: String::from("second failure") },
        AttemptOutcome::Failure { error: String::from("never reached") },
    ];
    let mut attempts: u64 = 0;
    let mut result: Option<RetryDirective> = None;
    for outcome in outcomes {
        let made = attempts;
        attempts += 1;
        match inv.step(made, outcome) {
            RetryDirective::RetryAfterDelay { seconds: _ } => continue,
            d => {
                result = Some(d);
                break;
            }
        }
    }
    assert_eq!(attempts, 2);
    match result.unwrap() {
        RetryDirective::GiveUp { error } => assert_eq!(error, "second failure"),
        _ => panic!("expected the run to give up"),
    }
}

#[test]
fn failure_then_success_is_delivered() {
    let inv = ChatInvoker::standard();
    let d0 = inv.step(0, AttemptOutcome::Failure { error: String::from("boom") });
    assert!(matches!(d0, RetryDirective::RetryAfterDelay { seconds: 60 }));
    let d1 = inv.step(1, AttemptOutcome::Success { text: String::from("fine") });
    match d1 {
        RetryDirective::Deliver { text } => assert_eq!(text, "fine"),
        _ => panic!("expected delivery"),
    }
}

#[test]
fn first_choice_of_empty_response_is_an_error() {
    let r = first_choice(ChatApiResponse { choices: Vec::new() });
    assert_eq!(r.err().unwrap(), String::from("No choices in response"));
}

#[test]
fn first_choice_takes_the_first() {
    let resp = ChatApiResponse {
        choices: vec![
            ChatChoice { message: ChatMessageContent { content: String::from("one") } },
            ChatChoice { message: ChatMessageContent { content: String::from("two") } },
        ],
    };
    assert_eq!(first_choice(resp).unwrap(), String::from("one"));
}
