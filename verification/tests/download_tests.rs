use alibaba_graph::download::{backoff_seconds, next_download_action, DownloadAction, DOWNLOAD_RETRIES};

#[test]
fn backoff_doubles() {
    assert_eq!(backoff_seconds(0), 1);
    assert_eq!(backoff_seconds(5), 32);
    assert_eq!(backoff_seconds(31), 1u64 << 31);
    for a in 0..31 {
        assert_eq!(backoff_seconds(a + 1), 2 * backoff_seconds(a));
    }
}

#[test]
fn download_actions() {
    assert_eq!(next_download_action(0, 3, true), DownloadAction::Done);
    assert_eq!(
        next_download_action(0, 3, false),
        DownloadAction::RetryAfter { wait_secs: 1, next_attempt: 1 }
    );
    assert_eq!(next_download_action(3, 3, false), DownloadAction::FailAfter { wait_secs: 8 });
    assert_eq!(next_download_action(0, 0, false), DownloadAction::FailAfter { wait_secs: 1 });
}

#[test]
fn attempts_until_failure() {
    let mut attempt = 0;
    let mut attempts = 1;
    let mut waited = 0;
    loop {
        match next_download_action(attempt, DOWNLOAD_RETRIES, false) {
            DownloadAction::RetryAfter { wait_secs, next_attempt } => {
                waited += wait_secs;
                attempt = next_attempt;
                attempts += 1;
            }
            DownloadAction::FailAfter { wait_secs } => {
                waited += wait_secs;
                break;
            }
            DownloadAction::Done => unreachable!(),
        }
    }
    assert_eq!(attempts, DOWNLOAD_RETRIES + 1);
    assert_eq!(waited, 15);
}
