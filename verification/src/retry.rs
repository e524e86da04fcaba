//! Trying again: pauses between attempts, queues that push back, and workers
//! that rest.
use crate::flow::told;
use crate::number::{i64_text, int_text};
use rand::RngExt;
use vstd::prelude::*;
use vstd::string::*;

verus! {

/// `rand::RngExt::random_range` on the generator of the thread: a number from
/// zero to `most`, which one is left open.
#[verifier::external_body]
pub(crate) fn random_up_to(most: u64) -> (r: u64)
    ensures
        r <= most,
{
    rand::rng().random_range(0..=most)
}

// ---------------------------------------------------------------------------
// Pauses
// ---------------------------------------------------------------------------

/// The pause after an attempt, in milliseconds: it grows with the attempts, and
/// is spread by chance. None where it is too long to be told.
pub open spec fn pause_after(attempt: usize, unit: u64, jitter: u64) -> Option<u64> {
    let ms = (attempt + 1) * unit + jitter;
    if attempt + 1 <= u64::MAX && (attempt + 1) * unit <= u64::MAX && ms <= u64::MAX {
        Some(ms as u64)
    } else {
        None
    }
}

/// The pause after an attempt, in milliseconds.
pub fn pause(attempt: usize, unit: u64, jitter: u64) -> (r: Option<u64>)
    ensures
        r == pause_after(attempt, unit, jitter),
{
    match (attempt as u64).checked_add(1) {
        Some(n) => match n.checked_mul(unit) {
            Some(ms) => ms.checked_add(jitter),
            None => None,
        },
        None => None,
    }
}

/// Pauses grow: a later attempt is followed by a longer one, unless chance makes
/// up for it.
pub proof fn law_pauses_grow(a: usize, b: usize, unit: u64, jitter: u64)
    requires
        a < b,
        unit > 0,
        pause_after(b, unit, jitter) is Some,
    ensures
        pause_after(a, unit, jitter) is Some,
        pause_after(a, unit, jitter)->0 + unit <= pause_after(b, unit, jitter)->0,
{
    assert((a + 1) * unit + unit <= (b + 1) * unit) by (nonlinear_arith)
        requires
            a < b,
            unit > 0,
    ;
    assert((a + 1) * unit >= 0) by (nonlinear_arith)
        requires
            a >= 0,
            unit > 0,
    ;
}

// ---------------------------------------------------------------------------
// Trying again
// ---------------------------------------------------------------------------

/// What is asked for between attempts.
#[derive(Debug, PartialEq)]
pub enum Ask {
    /// Make an attempt.
    Attempt,
    /// Find out how long the queue is.
    Measure,
    /// Wait, so many milliseconds.
    Sleep(u64),
    /// It is done: how long the queue is now.
    Done(i64),
    /// It failed for good.
    GiveUp(String),
    /// Stop: the pause is too long to be told.
    Fault,
    /// Nothing: it is over.
    Nothing,
}

/// What is asked for between attempts.
pub enum AskV {
    Attempt,
    Measure,
    Sleep(u64),
    Done(i64),
    GiveUp(Seq<char>),
    Fault,
    Nothing,
}

impl DeepView for Ask {
    type V = AskV;

    open spec fn deep_view(&self) -> AskV {
        match self {
            Ask::Attempt => AskV::Attempt,
            Ask::Measure => AskV::Measure,
            Ask::Sleep(n) => AskV::Sleep(*n),
            Ask::Done(n) => AskV::Done(*n),
            Ask::GiveUp(m) => AskV::GiveUp(m@),
            Ask::Fault => AskV::Fault,
            Ask::Nothing => AskV::Nothing,
        }
    }
}

/// What came of what was asked for.
#[derive(Debug)]
pub enum Came {
    /// It was done; a number where one was asked for.
    Fine(i64),
    /// It failed with this message.
    Failed(String),
}

/// Where the attempts stand.
#[derive(Debug, PartialEq, Eq, Clone, Copy, Structural)]
pub enum TryStage {
    Start,
    Measuring,
    Attempting,
    Sleeping,
    Ended,
}

/// Attempts that are made until one succeeds, or too many have failed.
#[derive(Debug)]
pub struct Trying {
    /// How often it is tried again.
    pub retries: usize,
    /// By how much the pauses grow, and how far chance spreads them.
    pub unit: u64,
    pub spread: u64,
    /// How long the queue may be; it is not measured where this is not positive.
    pub max_len: i64,
    /// The name of the queue, for messages.
    pub label: String,
    pub stage: TryStage,
    pub attempt: usize,
}

/// What is tried, and how often.
pub struct TryV {
    pub retries: usize,
    pub unit: u64,
    pub max_len: i64,
    pub label: Seq<char>,
}

/// What follows from a step: where the attempts stand, how many have failed, and
/// what is asked for.
pub type TryTurn = (TryStage, usize, AskV);

/// What is said of a queue that is full.
pub open spec fn backpressure(label: Seq<char>, len: i64, max: i64) -> Seq<char> {
    label + " backpressure: len="@ + int_text(len as int) + " reached max="@ + int_text(
        max as int,
    )
}

fn say_backpressure(label: &str, len: i64, max: i64) -> (r: String)
    ensures
        r@ == backpressure(label@, len, max),
{
    let mut m = told(label, " backpressure: len=");
    m.append(i64_text(len).as_str());
    m.append(" reached max=");
    m.append(i64_text(max).as_str());
    m
}

/// An attempt is made; the queue is measured first where it may be full.
pub open spec fn try_again(q: TryV, attempt: usize) -> TryTurn {
    if q.max_len > 0 {
        (TryStage::Measuring, attempt, AskV::Measure)
    } else {
        (TryStage::Attempting, attempt, AskV::Attempt)
    }
}

/// The next step of the attempts, with this much chance in the next pause.
pub open spec fn try_next(
    q: TryV,
    stage: TryStage,
    attempt: usize,
    came: Came,
    jitter: u64,
) -> TryTurn {
    match stage {
        TryStage::Start => try_again(q, 0),
        TryStage::Measuring => match came {
            Came::Failed(e) => (TryStage::Ended, attempt, AskV::GiveUp(e@)),
            Came::Fine(len) => if len >= q.max_len {
                (TryStage::Ended, attempt, AskV::GiveUp(backpressure(q.label, len, q.max_len)))
            } else {
                (TryStage::Attempting, attempt, AskV::Attempt)
            },
        },
        TryStage::Attempting => match came {
            Came::Fine(len) => (TryStage::Ended, attempt, AskV::Done(len)),
            Came::Failed(e) => if attempt >= q.retries {
                (TryStage::Ended, attempt, AskV::GiveUp(e@))
            } else {
                match pause_after(attempt, q.unit, jitter) {
                    Some(ms) => (TryStage::Sleeping, attempt, AskV::Sleep(ms)),
                    None => (TryStage::Ended, attempt, AskV::Fault),
                }
            },
        },
        TryStage::Sleeping => if attempt < q.retries {
            try_again(q, (attempt + 1) as usize)
        } else {
            (TryStage::Ended, attempt, AskV::Nothing)
        },
        TryStage::Ended => (TryStage::Ended, attempt, AskV::Nothing),
    }
}

impl Trying {
    /// Attempts that have not begun.
    pub fn new(retries: usize, unit: u64, spread: u64, max_len: i64, label: &str) -> (r: Trying)
        ensures
            r.plan() == (TryV { retries, unit, max_len, label: label@ }),
            r.spread == spread,
            r.stage == TryStage::Start,
            r.attempt == 0,
    {
        Trying {
            retries,
            unit,
            spread,
            max_len,
            label: label.to_owned(),
            stage: TryStage::Start,
            attempt: 0,
        }
    }

    /// What is tried, and how often.
    pub open spec fn plan(&self) -> TryV {
        TryV {
            retries: self.retries,
            unit: self.unit,
            max_len: self.max_len,
            label: self.label@,
        }
    }

    /// Whether only where the attempts stand differs.
    pub open spec fn same_plan(&self, other: Trying) -> bool {
        self.plan() == other.plan() && self.spread == other.spread
    }

    fn again(&mut self) -> (r: Ask)
        ensures
            final(self).same_plan(*old(self)),
            (final(self).stage, final(self).attempt, r.deep_view()) == try_again(
                old(self).plan(),
                old(self).attempt,
            ),
    {
        if self.max_len > 0 {
            self.stage = TryStage::Measuring;
            Ask::Measure
        } else {
            self.stage = TryStage::Attempting;
            Ask::Attempt
        }
    }

    fn end(&mut self, a: Ask) -> (r: Ask)
        ensures
            final(self).same_plan(*old(self)),
            final(self).attempt == old(self).attempt,
            final(self).stage == TryStage::Ended,
            r.deep_view() == a.deep_view(),
    {
        self.stage = TryStage::Ended;
        a
    }

    /// Takes the next step, with what came of the last one and this much chance
    /// in the next pause.
    pub fn step_with(&mut self, came: Came, jitter: u64) -> (r: Ask)
        ensures
            final(self).same_plan(*old(self)),
            (final(self).stage, final(self).attempt, r.deep_view()) == try_next(
                old(self).plan(),
                old(self).stage,
                old(self).attempt,
                came,
                jitter,
            ),
    {
        match self.stage {
            TryStage::Start => {
                self.attempt = 0;
                self.again()
            },
            TryStage::Measuring => match came {
                Came::Failed(e) => self.end(Ask::GiveUp(e)),
                Came::Fine(len) => if len >= self.max_len {
                    let m = say_backpressure(self.label.as_str(), len, self.max_len);
                    self.end(Ask::GiveUp(m))
                } else {
                    self.stage = TryStage::Attempting;
                    Ask::Attempt
                },
            },
            TryStage::Attempting => match came {
                Came::Fine(len) => self.end(Ask::Done(len)),
                Came::Failed(e) => if self.attempt >= self.retries {
                    self.end(Ask::GiveUp(e))
                } else {
                    match pause(self.attempt, self.unit, jitter) {
                        Some(ms) => {
                            self.stage = TryStage::Sleeping;
                            Ask::Sleep(ms)
                        },
                        None => self.end(Ask::Fault),
                    }
                },
            },
            TryStage::Sleeping => if self.attempt < self.retries {
                self.attempt = self.attempt + 1;
                self.again()
            } else {
                self.end(Ask::Nothing)
            },
            TryStage::Ended => self.end(Ask::Nothing),
        }
    }

    /// Takes the next step, with what came of the last one; chance spreads the
    /// next pause.
    pub fn step(&mut self, came: Came) -> (r: Ask)
        ensures
            final(self).same_plan(*old(self)),
            exists|jitter: u64|
                jitter <= old(self).spread && (
                final(self).stage,
                final(self).attempt,
                r.deep_view(),
                ) == #[trigger] try_next(
                    old(self).plan(),
                    old(self).stage,
                    old(self).attempt,
                    came,
                    jitter,
                ),
    {
        let jitter: u64 = random_up_to(self.spread);
        self.step_with(came, jitter)
    }
}

/// Never more attempts fail than one and those that are made again: what is
/// counted stays within what is allowed.
pub proof fn law_attempts_are_bounded(
    q: TryV,
    stage: TryStage,
    attempt: usize,
    came: Came,
    jitter: u64,
)
    requires
        attempt <= q.retries,
    ensures
        try_next(q, stage, attempt, came, jitter).1 <= q.retries,
        try_next(q, stage, attempt, came, jitter).2 is Done ==> came is Fine && stage
            == TryStage::Attempting,
{
}

/// A full queue is not added to.
pub proof fn law_full_queues_push_back(q: TryV, attempt: usize, len: i64, jitter: u64)
    requires
        q.max_len > 0,
        len >= q.max_len,
    ensures
        try_again(q, attempt).2 is Measure,
        try_next(q, TryStage::Measuring, attempt, Came::Fine(len), jitter).2 is GiveUp,
{
}

// ---------------------------------------------------------------------------
// Workers that rest
// ---------------------------------------------------------------------------

/// How many errors in a row make a worker rest.
pub const TOO_MANY_ERRORS: u32 = 10;

/// For how long a worker rests then, in milliseconds.
pub const REST_MS: u64 = 30_000;

/// The first pause after an error, and the longest, in milliseconds.
pub const FIRST_PAUSE_MS: u64 = 250;

pub const LONGEST_PAUSE_MS: u64 = 5_000;

/// How a worker bears with errors: how many there were in a row, and how long the
/// next pause is.
#[derive(Debug, PartialEq, Eq, Clone, Copy, Structural)]
pub struct Breaker {
    pub errors: u32,
    pub backoff_ms: u64,
}

/// What a worker does after an error.
#[derive(Debug, PartialEq, Eq, Clone, Copy, Structural)]
pub struct Setback {
    /// How many errors there were in a row, with this one.
    pub errors: u32,
    /// Whether the error is told: the first is, and every tenth.
    pub is_told: bool,
    /// Whether there were too many.
    pub is_tripped: bool,
    pub sleep_ms: u64,
}

/// What a worker does after an error, and how it bears with the next.
pub open spec fn setback(b: Breaker) -> (Setback, Breaker) {
    let errors = (b.errors + 1) as u32;
    let is_told = errors == 1 || errors % 10 == 0;
    if errors >= TOO_MANY_ERRORS {
        (
            Setback { errors, is_told, is_tripped: true, sleep_ms: REST_MS },
            Breaker { errors: 0, backoff_ms: FIRST_PAUSE_MS },
        )
    } else {
        let doubled = (b.backoff_ms * 2) as u64;
        (
            Setback { errors, is_told, is_tripped: false, sleep_ms: b.backoff_ms },
            Breaker {
                errors,
                backoff_ms: if doubled > LONGEST_PAUSE_MS {
                    LONGEST_PAUSE_MS
                } else {
                    doubled
                },
            },
        )
    }
}

impl Breaker {
    /// A worker counts fewer errors than make it rest, and its pauses are not
    /// longer than the longest.
    pub open spec fn wf(&self) -> bool {
        self.errors < TOO_MANY_ERRORS && FIRST_PAUSE_MS <= self.backoff_ms <= LONGEST_PAUSE_MS
    }

    /// A worker that has met no error.
    pub fn new() -> (r: Breaker)
        ensures
            r == (Breaker { errors: 0, backoff_ms: FIRST_PAUSE_MS }),
            r.wf(),
    {
        Breaker { errors: 0, backoff_ms: FIRST_PAUSE_MS }
    }

    /// There was something to do: errors are forgotten, pauses start anew.
    pub fn on_job(&mut self)
        ensures
            *final(self) == (Breaker { errors: 0, backoff_ms: FIRST_PAUSE_MS }),
            final(self).wf(),
    {
        self.errors = 0;
        self.backoff_ms = FIRST_PAUSE_MS;
    }

    /// There was nothing to do: errors are forgotten.
    pub fn on_idle(&mut self)
        requires
            old(self).wf(),
        ensures
            *final(self) == (Breaker { errors: 0, backoff_ms: old(self).backoff_ms }),
            final(self).wf(),
    {
        self.errors = 0;
    }

    /// There was an error.
    pub fn on_error(&mut self) -> (r: Setback)
        requires
            old(self).wf(),
        ensures
            (r, *final(self)) == setback(*old(self)),
            final(self).wf(),
    {
        let errors: u32 = self.errors + 1;
        let is_told = errors == 1 || errors % 10 == 0;
        if errors >= TOO_MANY_ERRORS {
            self.errors = 0;
            self.backoff_ms = FIRST_PAUSE_MS;
            Setback { errors, is_told, is_tripped: true, sleep_ms: REST_MS }
        } else {
            let sleep_ms: u64 = self.backoff_ms;
            let doubled: u64 = sleep_ms * 2;
            self.errors = errors;
            self.backoff_ms = if doubled > LONGEST_PAUSE_MS {
                LONGEST_PAUSE_MS
            } else {
                doubled
            };
            Setback { errors, is_told, is_tripped: false, sleep_ms }
        }
    }
}

/// How a worker bears with errors after `n` more of them in a row.
pub open spec fn after_errors(b: Breaker, n: nat) -> Breaker
    decreases n,
{
    if n == 0 {
        b
    } else {
        setback(after_errors(b, (n - 1) as nat)).1
    }
}

/// A worker that has met no error rests exactly at the last of as many errors in
/// a row as are too many; until then it only pauses, at most for the longest
/// time.
pub proof fn law_workers_rest(n: nat)
    requires
        n < TOO_MANY_ERRORS,
    ensures
        ({
            let b = after_errors(Breaker { errors: 0, backoff_ms: FIRST_PAUSE_MS }, n);
            &&& b.errors == n
            &&& b.wf()
            &&& setback(b).0.is_tripped == (n + 1 == TOO_MANY_ERRORS)
            &&& !setback(b).0.is_tripped ==> FIRST_PAUSE_MS <= setback(b).0.sleep_ms
                <= LONGEST_PAUSE_MS
        }),
    decreases n,
{
    if n > 0 {
        law_workers_rest((n - 1) as nat);
    }
}

/// An attempt that fails is made again after a pause, as often as is allowed, and the
/// first that succeeds ends the trying; what is told in the end is what came of the
/// last attempt.
pub proof fn law_attempts_are_repeated(q: TryV, attempt: usize, came: Came, jitter: u64)
    ensures
        ({
            let (s, n, a) = try_next(q, TryStage::Attempting, attempt, came, jitter);
            match came {
                Came::Fine(len) => s == TryStage::Ended && a == AskV::Done(len),
                Came::Failed(e) => {
                    &&& attempt >= q.retries ==> s == TryStage::Ended && a == AskV::GiveUp(e@)
                    &&& attempt < q.retries && (attempt + 1) * q.unit + jitter <= u64::MAX ==> s
                        == TryStage::Sleeping && a == AskV::Sleep(
                        ((attempt + 1) * q.unit + jitter) as u64,
                    )
                },
            }
        }),
        attempt < q.retries ==> {
            let (s, n, a) = try_next(q, TryStage::Sleeping, attempt, came, jitter);
            n == attempt + 1 && (s == TryStage::Attempting && a == AskV::Attempt && q.max_len <= 0
                || s == TryStage::Measuring && a == AskV::Measure && q.max_len > 0)
        },
{
    assert((attempt + 1) * q.unit >= 0) by (nonlinear_arith)
        requires
            attempt >= 0,
            q.unit >= 0,
    ;
    assert(attempt + 1 <= u64::MAX || attempt >= q.retries);
}

/// A pause after an error is the one that was set, and the next one is twice as long,
/// up to the longest; the rest after too many is the long one, and begins anew.
pub proof fn law_setbacks_double(b: Breaker)
    requires
        b.wf(),
    ensures
        ({
            let (s, n) = setback(b);
            &&& s.errors == b.errors + 1
            &&& if b.errors + 1 < TOO_MANY_ERRORS {
                &&& s.sleep_ms == b.backoff_ms
                &&& n.errors == b.errors + 1
                &&& n.backoff_ms == 2 * b.backoff_ms || n.backoff_ms == LONGEST_PAUSE_MS && 2
                    * b.backoff_ms > LONGEST_PAUSE_MS
            } else {
                &&& s.sleep_ms == REST_MS
                &&& n.errors == 0
                &&& n.backoff_ms == FIRST_PAUSE_MS
            }
        }),
{
}

} // verus!
