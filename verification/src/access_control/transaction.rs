//! Running a handler in a database transaction, retrying with
//! exponential backoff while the database is busy.

use vstd::prelude::*;

verus! {

#[derive(Debug)]
pub enum TransactionErrorKind {
    NotConnected,
    InitError(String),
    BeginError(String),
    CommitError(String),
}

#[derive(Debug)]
pub struct TransactionError(pub Box<TransactionErrorKind>);

#[derive(Debug)]
pub enum TransactError<E> {
    TransactionError(TransactionError),
    HandlerError(E),
}

/// No retry waits this long or longer (microseconds).
pub const MAX_SLEEPTIME: u32 = 1_000_000;

/// The wait before retry number `n` (from 0), in microseconds: 500,
/// then a quarter more each time.
pub open spec fn backoff_sleep(n: nat) -> nat
    decreases n,
{
    if n == 0 {
        500
    } else {
        backoff_sleep((n - 1) as nat) * 5 / 4
    }
}

/// The retry state of one `transact` run.
pub struct Backoff {
    sleeptime: u32,
    retries: u32,
}

impl Backoff {
    /// How many retries were granted so far.
    pub closed spec fn spec_retries(&self) -> nat {
        self.retries as nat
    }

    pub closed spec fn wf(&self) -> bool {
        &&& self.sleeptime == backoff_sleep(self.retries as nat)
        &&& self.sleeptime <= 5 * MAX_SLEEPTIME / 4
        &&& self.retries <= 35
    }

    pub fn new() -> (r: Self)
        ensures
            r.wf(),
            r.spec_retries() == 0,
    {
        Backoff { sleeptime: 500, retries: 0 }
    }

    /// The wait before the next retry, or `None` when it would reach
    /// `MAX_SLEEPTIME` and the run gives up.
    pub fn next_sleep(&mut self) -> (r: Option<u32>)
        requires
            old(self).wf(),
        ensures
            final(self).wf(),
            backoff_sleep(old(self).spec_retries()) < MAX_SLEEPTIME ==> r == Some(
                backoff_sleep(old(self).spec_retries()) as u32,
            ) && final(self).spec_retries() == old(self).spec_retries() + 1,
            backoff_sleep(old(self).spec_retries()) >= MAX_SLEEPTIME ==> r is None && *final(self)
                == *old(self),
    {
        let old_sleeptime = self.sleeptime;
        proof {
            lemma_backoff_ends();
        }
        if old_sleeptime < MAX_SLEEPTIME {
            self.sleeptime = old_sleeptime * 5 / 4;
            self.retries = self.retries + 1;
            Some(old_sleeptime)
        } else {
            None
        }
    }
}

/// After an attempt: finish with a result, or sleep this many
/// microseconds and try again.
pub enum TransactStep<R, E> {
    Done(Result<R, TransactError<E>>),
    Sleep(u32),
}

/// Decides what follows an attempt whose outcome is `outcome`: the
/// handler's value ends the run; a handler error and a failed begin or
/// commit are retried while the backoff allows; a missing connection
/// and a failed initialisation end the run at once.
pub fn transact_decide<R, E>(backoff: &mut Backoff, outcome: Result<Result<R, E>, TransactionError>) -> (r: TransactStep<R, E>)
    requires
        old(backoff).wf(),
    ensures
        final(backoff).wf(),
        r is Sleep ==> final(backoff).spec_retries() == old(backoff).spec_retries() + 1,
        r is Done ==> *final(backoff) == *old(backoff),
        final(backoff).spec_retries() <= 35,
        match outcome {
            Ok(Ok(v)) => r == TransactStep::<R, E>::Done(Ok(v)),
            Ok(Err(e)) => if backoff_sleep(old(backoff).spec_retries()) < MAX_SLEEPTIME {
                r == TransactStep::<R, E>::Sleep(backoff_sleep(old(backoff).spec_retries()) as u32)
            } else {
                r == TransactStep::<R, E>::Done(Err(TransactError::HandlerError(e)))
            },
            Err(e) => match *e.0 {
                TransactionErrorKind::NotConnected | TransactionErrorKind::InitError(_) => r
                    == TransactStep::<R, E>::Done(Err(TransactError::TransactionError(e))),
                _ => if backoff_sleep(old(backoff).spec_retries()) < MAX_SLEEPTIME {
                    r == TransactStep::<R, E>::Sleep(
                        backoff_sleep(old(backoff).spec_retries()) as u32,
                    )
                } else {
                    r == TransactStep::<R, E>::Done(Err(TransactError::TransactionError(e)))
                },
            },
        },
{
    match outcome {
        Ok(Ok(v)) => TransactStep::Done(Ok(v)),
        Ok(Err(e)) => match backoff.next_sleep() {
            Some(s) => TransactStep::Sleep(s),
            None => TransactStep::Done(Err(TransactError::HandlerError(e))),
        },
        Err(e) => {
            let immediate = match &*e.0 {
                TransactionErrorKind::NotConnected => true,
                TransactionErrorKind::InitError(_) => true,
                TransactionErrorKind::BeginError(_) => false,
                TransactionErrorKind::CommitError(_) => false,
            };
            if immediate {
                TransactStep::Done(Err(TransactError::TransactionError(e)))
            } else {
                match backoff.next_sleep() {
                    Some(s) => TransactStep::Sleep(s),
                    None => TransactStep::Done(Err(TransactError::TransactionError(e))),
                }
            }
        },
    }
}

/// The waits grow: each is larger than the one before.
pub proof fn lemma_backoff_grows(n: nat)
    ensures
        backoff_sleep(n) >= 500,
        backoff_sleep(n + 1) > backoff_sleep(n),
    decreases n,
{
    if n > 0 {
        lemma_backoff_grows((n - 1) as nat);
    }
}

/// A run retries 35 times at most: the wait before retry 35 reaches
/// `MAX_SLEEPTIME`.
pub proof fn lemma_backoff_ends()
    ensures
        backoff_sleep(34) < MAX_SLEEPTIME,
        backoff_sleep(35) >= MAX_SLEEPTIME,
{
    reveal_with_fuel(backoff_sleep, 36);
    assert(backoff_sleep(34) < MAX_SLEEPTIME);
    assert(backoff_sleep(35) >= MAX_SLEEPTIME);
}

/// The waits never shrink.
proof fn lemma_backoff_mono(m: nat, n: nat)
    requires
        m <= n,
    ensures
        backoff_sleep(m) <= backoff_sleep(n),
    decreases n - m,
{
    if m < n {
        lemma_backoff_mono(m, (n - 1) as nat);
        lemma_backoff_grows((n - 1) as nat);
    }
}

/// A run sleeps before retries 0 to 34 and gives up at the 35th: the
/// wait before retry `n` is below `MAX_SLEEPTIME` exactly when `n` is
/// below 35. With `transact_decide` advancing the count on each sleep,
/// a handler that always fails is tried 36 times.
pub proof fn lemma_retry_count(n: nat)
    ensures
        backoff_sleep(n) < MAX_SLEEPTIME <==> n < 35,
{
    lemma_backoff_ends();
    if n < 35 {
        lemma_backoff_mono(n, 34);
    } else {
        lemma_backoff_mono(35, n);
    }
}

} // verus!
