use chest_storage::notice::Notice;
use chest_storage::session::{OpenRetry, OPEN_RETRIES};

/// Drives the retry state against a stand-in for the remote container that
/// fails `failures` times before it opens. Returns whether it opened, the
/// number of attempts, and the notices.
fn open_with_double(failures: u32) -> (bool, u32, Vec<Notice>) {
    let mut retry = OpenRetry::new();
    let mut notices = Vec::new();
    let mut attempts = 0;
    loop {
        attempts += 1;
        if attempts > failures {
            retry.on_success(&mut notices);
            return (true, attempts, notices);
        }
        if !retry.on_failure(&mut notices) {
            return (false, attempts, notices);
        }
    }
}

#[test]
fn opens_after_four_failures() {
    let (opened, attempts, notices) = open_with_double(4);
    assert!(opened);
    assert_eq!(attempts, 5);
    assert!(matches!(notices.first(), Some(Notice::Retrying)));
    assert!(matches!(notices.last(), Some(Notice::RetrySuccessful)));
    assert!(notices.iter().any(|n| matches!(n, Notice::RetryFailed(2))));
}

#[test]
fn gives_up_when_it_always_fails() {
    let (opened, attempts, notices) = open_with_double(u32::MAX);
    assert!(!opened);
    assert_eq!(attempts, OPEN_RETRIES + 1);
    assert!(matches!(notices.last(), Some(Notice::RetryFailed(0))));
    let retries = notices.iter().filter(|n| matches!(n, Notice::Retrying)).count();
    assert_eq!(retries, 5);
}

#[test]
fn first_attempt_success_says_nothing() {
    let (opened, attempts, notices) = open_with_double(0);
    assert!(opened);
    assert_eq!(attempts, 1);
    assert!(notices.is_empty());
}
