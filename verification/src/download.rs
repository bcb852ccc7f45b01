//! The retry policy of a download: how many attempts are made and how long to
//! wait after each failed one.
use vstd::prelude::*;

verus! {

/// The number of retries after a first failed download attempt that the
/// library's downloads use.
pub const DOWNLOAD_RETRIES: u32 = 3;

/// The seconds to wait after failed attempt number `attempt` (counted from
/// zero): one second, doubling with every attempt.
pub open spec fn backoff_seconds_spec(attempt: nat) -> nat
    decreases attempt,
{
    if attempt == 0 {
        1
    } else {
        2 * backoff_seconds_spec((attempt - 1) as nat)
    }
}

proof fn lemma_backoff_monotone(a: nat, b: nat)
    requires
        a <= b,
    ensures
        backoff_seconds_spec(a) <= backoff_seconds_spec(b),
    decreases b,
{
    if a < b {
        lemma_backoff_monotone(a, (b - 1) as nat);
    }
}

/// The wait after a failed attempt is twice the wait after the one before.
pub proof fn law_backoff_doubles(attempt: nat)
    ensures
        backoff_seconds_spec(attempt + 1) == 2 * backoff_seconds_spec(attempt),
{
}

/// The wait after failed attempt number `n` (counted from zero) is `2^n`
/// seconds: one second after the first attempt.
pub proof fn law_backoff_is_power_of_two(n: nat)
    ensures
        backoff_seconds_spec(n) == vstd::arithmetic::power2::pow2(n),
    decreases n,
{
    if n == 0 {
        vstd::arithmetic::power::lemma_pow0(2);
    } else {
        law_backoff_is_power_of_two((n - 1) as nat);
        vstd::arithmetic::power2::lemma_pow2_unfold(n);
    }
}

/// The seconds to wait after failed attempt number `attempt`.
pub fn backoff_seconds(attempt: u32) -> (r: u64)
    requires
        attempt < 32,
    ensures
        r == backoff_seconds_spec(attempt as nat),
{
    proof {
        reveal_with_fuel(backoff_seconds_spec, 32);
        lemma_backoff_monotone(attempt as nat, 31);
        assert(backoff_seconds_spec(31) == 0x8000_0000);
    }
    let mut r: u32 = 1;
    let mut i: u32 = 0;
    while i < attempt
        invariant
            i <= attempt < 32,
            r == backoff_seconds_spec(i as nat),
            backoff_seconds_spec(attempt as nat) <= 0x8000_0000,
        decreases attempt - i,
    {
        proof {
            lemma_backoff_monotone((i + 1) as nat, attempt as nat);
        }
        r = r * 2;
        i = i + 1;
    }
    r as u64
}

/// What to do after a download attempt.
#[derive(Clone, Copy, Debug, PartialEq, Eq, Structural)]
pub enum DownloadAction {
    /// The file was downloaded.
    Done,
    /// Wait, then make attempt `next_attempt`.
    RetryAfter { wait_secs: u64, next_attempt: u32 },
    /// Wait, then report that the download failed.
    FailAfter { wait_secs: u64 },
}

/// What follows attempt number `attempt` (counted from zero) of a download
/// that may be retried `retries` times: nothing more after a success; after a
/// failure, the back-off wait, then the next attempt or, after the last one,
/// the failure.
pub fn next_download_action(attempt: u32, retries: u32, succeeded: bool) -> (r: DownloadAction)
    requires
        attempt <= retries,
        succeeded || attempt < 32,
    ensures
        succeeded ==> r == DownloadAction::Done,
        !succeeded && attempt < retries ==> r == (DownloadAction::RetryAfter {
            wait_secs: backoff_seconds_spec(attempt as nat) as u64,
            next_attempt: (attempt + 1) as u32,
        }),
        !succeeded && attempt == retries ==> r == (DownloadAction::FailAfter {
            wait_secs: backoff_seconds_spec(attempt as nat) as u64,
        }),
{
    if succeeded {
        DownloadAction::Done
    } else {
        let wait_secs = backoff_seconds(attempt);
        if attempt < retries {
            DownloadAction::RetryAfter { wait_secs, next_attempt: attempt + 1 }
        } else {
            DownloadAction::FailAfter { wait_secs }
        }
    }
}

} // verus!
