//! The retry policy for a failing `accept`: wait 1 second, then twice as long
//! after each further failure, and give up once the wait would exceed 60.

use vstd::prelude::*;
use vstd::arithmetic::power2::pow2;

verus! {

/// The longest wait, in seconds, after which a failure is still retried.
pub const MAX_RETRY_WAIT: u64 = 60;

pub struct Backoff {
    wait: u64,
}

/// The wait held after `n` failures, starting from 1 second.
pub open spec fn wait_after(n: nat) -> u64
    decreases n,
{
    if n == 0 {
        1
    } else {
        let w = wait_after((n - 1) as nat);
        if w > MAX_RETRY_WAIT { w } else { (2 * w) as u64 }
    }
}

impl Backoff {
    /// The wait, in seconds, that the next failure sleeps for, if it is
    /// retried at all.
    pub closed spec fn current_wait(&self) -> u64 {
        self.wait
    }

    /// The waits that occur are 1 and doublings of waits up to 60.
    pub closed spec fn wf(&self) -> bool {
        1 <= self.wait <= 2 * MAX_RETRY_WAIT
    }

    /// A fresh policy: the first failure sleeps 1 second.
    pub fn new() -> (res: Backoff)
        ensures
            res.wf(),
            res.current_wait() == 1,
            res.current_wait() == wait_after(0),
    {
        Backoff { wait: 1 }
    }

    /// Called on a failed `accept`: `None` means give up (the wait has grown
    /// beyond 60 seconds); `Some(secs)` means sleep `secs` and try again, and
    /// the next wait is twice as long.
    pub fn on_failure(&mut self) -> (res: Option<u64>)
        requires
            old(self).wf(),
        ensures
            final(self).wf(),
            old(self).current_wait() > MAX_RETRY_WAIT ==> res is None && final(self).current_wait()
                == old(self).current_wait(),
            old(self).current_wait() <= MAX_RETRY_WAIT ==> res == Some(old(self).current_wait())
                && final(self).current_wait() == 2 * old(self).current_wait(),
            forall|n: nat|
                old(self).current_wait() == #[trigger] wait_after(n) ==> {
                    &&& final(self).current_wait() == wait_after(n + 1)
                    &&& n < 6 ==> res is Some && res.unwrap() as int == pow2(n)
                    &&& n >= 6 ==> res is None
                },
    {
        proof {
            assert forall|n: nat| old(self).current_wait() == #[trigger] wait_after(n) implies {
                &&& wait_after(n + 1) == if wait_after(n) > MAX_RETRY_WAIT {
                    wait_after(n)
                } else {
                    (2 * wait_after(n)) as u64
                }
                &&& n < 6 ==> wait_after(n) <= MAX_RETRY_WAIT && wait_after(n) as int == pow2(n)
                &&& n >= 6 ==> wait_after(n) > MAX_RETRY_WAIT
            } by {
                lemma_backoff_schedule(n);
                assert(wait_after(n + 1) == if wait_after(n) > MAX_RETRY_WAIT {
                    wait_after(n)
                } else {
                    (2 * wait_after(n)) as u64
                });
            }
        }
        if self.wait > MAX_RETRY_WAIT {
            None
        } else {
            let secs = self.wait;
            self.wait = self.wait * 2;
            Some(secs)
        }
    }
}

/// After `n` failures the policy holds `2^n` seconds while `n <= 6`, and stays
/// at 64 from then on.
pub proof fn lemma_wait_after(n: nat)
    ensures
        n <= 6 ==> wait_after(n) as int == pow2(n),
        n > 6 ==> wait_after(n) == 64,
    decreases n,
{
    vstd::arithmetic::power2::lemma2_to64();
    if n > 0 {
        lemma_wait_after((n - 1) as nat);
        if n <= 6 {
            vstd::arithmetic::power2::lemma_pow2_unfold(n);
        }
    }
}

/// Starting from `Backoff::new`, failures number 0 to 5 sleep 1, 2, 4, 8, 16
/// and 32 seconds in turn (`2^n`), and failure number 6 gives up: the seventh
/// consecutive failure is returned to the caller.
pub proof fn lemma_backoff_schedule(n: nat)
    ensures
        n < 6 ==> wait_after(n) <= MAX_RETRY_WAIT && wait_after(n) as int == pow2(n)
            && wait_after(n + 1) == 2 * wait_after(n),
        n >= 6 ==> wait_after(n) > MAX_RETRY_WAIT,
{
    lemma_wait_after(n);
    lemma_wait_after(n + 1);
    vstd::arithmetic::power2::lemma2_to64();
}

} // verus!
