//! Engine status model: lifecycle state, status snapshots, traffic figures,
//! the lifecycle transitions an engine runner goes through, and the
//! bounded in-memory log it keeps.

use vstd::prelude::*;
use std::collections::VecDeque;

verus! {

/// Point-in-time traffic totals and instantaneous speeds, in bytes and
/// bytes/sec respectively.
#[derive(Debug, Clone, Copy)]
pub struct TrafficStats {
    pub up_bytes: u64,
    pub down_bytes: u64,
    pub up_speed: u64,
    pub down_speed: u64,
}

impl Default for TrafficStats {
    fn default() -> (r: TrafficStats)
        ensures
            r.up_bytes == 0 && r.down_bytes == 0 && r.up_speed == 0 && r.down_speed == 0,
    {
        TrafficStats { up_bytes: 0, down_bytes: 0, up_speed: 0, down_speed: 0 }
    }
}

/// Lifecycle state of the engine.
#[derive(Debug, Clone, Copy, PartialEq, Eq, Structural)]
pub enum EngineState {
    Stopped,
    Starting,
    Running,
    Errored,
}

/// Full status snapshot of the engine.
#[derive(Debug, Clone)]
pub struct EngineStatus {
    pub state: EngineState,
    pub active_tag: Option<String>,
    pub since_unix: Option<u64>,
    pub last_error: Option<String>,
}

/// What an engine runner remembers between calls (besides the process
/// itself): its lifecycle state, the active outbound, when it started, and
/// the last start error.
#[derive(Debug)]
pub struct EngineRecord {
    pub engine_state: EngineState,
    pub active_tag: Option<String>,
    pub since_unix: Option<u64>,
    pub last_error: Option<String>,
}

pub open spec fn opt_str(o: Option<String>) -> Option<Seq<char>> {
    match o {
        Some(s) => Some(s@),
        None => None,
    }
}

fn copy_opt(o: &Option<String>) -> (r: Option<String>)
    ensures
        opt_str(r) == opt_str(*o),
{
    match o {
        Some(s) => Some(s.clone()),
        None => None,
    }
}

impl EngineRecord {
    /// A runner that has not started anything.
    pub fn new() -> (r: EngineRecord)
        ensures
            r.engine_state == EngineState::Stopped,
            r.active_tag is None,
            r.since_unix is None,
            r.last_error is None,
    {
        EngineRecord {
            engine_state: EngineState::Stopped,
            active_tag: None,
            since_unix: None,
            last_error: None,
        }
    }

    /// A start was requested: the engine is `Starting` and the previous
    /// error is forgotten.
    pub fn begin_start(&mut self)
        ensures
            final(self).engine_state == EngineState::Starting,
            final(self).last_error is None,
            final(self).active_tag == old(self).active_tag,
            final(self).since_unix == old(self).since_unix,
    {
        self.engine_state = EngineState::Starting;
        self.last_error = None;
    }

    /// The process came up healthy at `since_unix` (if the clock could be
    /// read).
    pub fn start_succeeded(&mut self, since_unix: Option<u64>)
        ensures
            final(self).engine_state == EngineState::Running,
            final(self).since_unix == since_unix,
            final(self).last_error == old(self).last_error,
            final(self).active_tag == old(self).active_tag,
    {
        self.engine_state = EngineState::Running;
        self.since_unix = since_unix;
    }

    /// The start failed with `error`.
    pub fn start_failed(&mut self, error: String)
        ensures
            final(self).engine_state == EngineState::Errored,
            opt_str(final(self).last_error) == Some(error@),
            final(self).since_unix == old(self).since_unix,
            final(self).active_tag == old(self).active_tag,
    {
        self.engine_state = EngineState::Errored;
        self.last_error = Some(error);
    }

    /// The process was stopped (or there was none).
    pub fn stopped(&mut self)
        ensures
            final(self).engine_state == EngineState::Stopped,
            final(self).since_unix is None,
            final(self).last_error == old(self).last_error,
            final(self).active_tag == old(self).active_tag,
    {
        self.engine_state = EngineState::Stopped;
        self.since_unix = None;
    }

    /// The active outbound was switched to `tag`.
    pub fn switched(&mut self, tag: String)
        ensures
            opt_str(final(self).active_tag) == Some(tag@),
            final(self).engine_state == old(self).engine_state,
            final(self).since_unix == old(self).since_unix,
            final(self).last_error == old(self).last_error,
    {
        self.active_tag = Some(tag);
    }

    /// A snapshot of the status.
    pub fn status(&self) -> (r: EngineStatus)
        ensures
            r.state == self.engine_state,
            opt_str(r.active_tag) == opt_str(self.active_tag),
            r.since_unix == self.since_unix,
            opt_str(r.last_error) == opt_str(self.last_error),
    {
        EngineStatus {
            state: self.engine_state,
            active_tag: copy_opt(&self.active_tag),
            since_unix: self.since_unix,
            last_error: copy_opt(&self.last_error),
        }
    }
}

/// Max number of log lines kept in memory.
pub const LOG_RING_CAPACITY: usize = 500;

/// The views of a list of strings.
pub open spec fn lines_of(v: Seq<String>) -> Seq<Seq<char>> {
    v.map_values(|s: String| s@)
}

/// The most recent engine log lines, oldest first, at most
/// [`LOG_RING_CAPACITY`] of them.
#[derive(Debug)]
pub struct LogRing {
    lines: VecDeque<String>,
}

impl LogRing {
    /// The lines held, oldest first.
    pub closed spec fn contents(&self) -> Seq<Seq<char>> {
        lines_of(self.lines@)
    }

    #[verifier::type_invariant]
    closed spec fn bounded(self) -> bool {
        self.lines@.len() <= LOG_RING_CAPACITY
    }

    /// An empty log.
    pub fn new() -> (r: LogRing)
        ensures
            r.contents().len() == 0,
    {
        let r = LogRing { lines: VecDeque::new() };
        assert(r.contents() =~= Seq::<Seq<char>>::empty());
        r
    }

    /// Number of lines held.
    pub fn len(&self) -> (n: usize)
        ensures
            n == self.contents().len(),
            n <= LOG_RING_CAPACITY,
    {
        broadcast use vstd::std_specs::vecdeque::group_vec_dequeue_axioms;

        proof {
            use_type_invariant(self);
        }
        self.lines.len()
    }

    /// Appends `line`, dropping the oldest line once the log is full.
    pub fn push(&mut self, line: String)
        ensures
            final(self).contents() == (if old(self).contents().len() >= LOG_RING_CAPACITY {
                old(self).contents().drop_first()
            } else {
                old(self).contents()
            }).push(line@),
            final(self).contents().len() <= LOG_RING_CAPACITY,
    {
        broadcast use vstd::std_specs::vecdeque::group_vec_dequeue_axioms;

        proof {
            use_type_invariant(&*self);
        }
        let ghost before = self.contents();
        let mut lines: VecDeque<String> = VecDeque::new();
        std::mem::swap(&mut lines, &mut self.lines);
        if lines.len() >= LOG_RING_CAPACITY {
            let _ = lines.pop_front();
        }
        lines.push_back(line);
        assert(lines_of(lines@) =~= (if before.len() >= LOG_RING_CAPACITY {
            before.drop_first()
        } else {
            before
        }).push(line@));
        self.lines = lines;
    }

    /// The last `max_lines` lines (all of them if there are fewer), oldest
    /// first.
    pub fn tail(&self, max_lines: usize) -> (r: Vec<String>)
        ensures
            lines_of(r@) == self.contents().skip(
                if self.contents().len() > max_lines {
                    self.contents().len() - max_lines
                } else {
                    0
                },
            ),
    {
        broadcast use vstd::std_specs::vecdeque::group_vec_dequeue_axioms;

        let n: usize = self.lines.len();
        let skip: usize = if n > max_lines {
            n - max_lines
        } else {
            0
        };
        let mut out: Vec<String> = Vec::new();
        let mut i: usize = skip;
        while i < n
            invariant
                skip <= i <= n,
                n == self.lines@.len(),
                lines_of(out@) == self.contents().subrange(skip as int, i as int),
            decreases n - i,
        {
            let ghost before = out@;
            out.push(self.lines[i].clone());
            assert(lines_of(out@) =~= lines_of(before).push(self.lines@[i as int]@));
            assert(self.contents()[i as int] == self.lines@[i as int]@);
            i += 1;
            assert(lines_of(out@) =~= self.contents().subrange(skip as int, i as int));
        }
        assert(self.contents().subrange(skip as int, n as int) =~= self.contents().skip(
            skip as int,
        ));
        out
    }
}

/// The command-line arguments sing-box runs with: the config file
/// `config.json` and the working directory `work_dir` (as displayed).
pub fn run_args(work_dir: &str) -> (r: Vec<String>)
    ensures
        lines_of(r@) == seq!["run"@, "-c"@, "config.json"@, "-D"@, work_dir@],
{
    let mut r: Vec<String> = Vec::new();
    r.push("run".to_string());
    r.push("-c".to_string());
    r.push("config.json".to_string());
    r.push("-D".to_string());
    r.push(work_dir.to_string());
    assert(lines_of(r@) =~= seq!["run"@, "-c"@, "config.json"@, "-D"@, work_dir@]);
    r
}

/// How many times startup polls the Clash API before giving up.
pub const HEALTH_ATTEMPTS: u32 = 10;

/// The wait before the first retry, in milliseconds.
pub const HEALTH_FIRST_DELAY_MS: u64 = 200;

/// The longest wait between two polls, in milliseconds.
pub const HEALTH_MAX_DELAY_MS: u64 = 2000;

/// The wait after poll number `attempt` (from 0): 200 ms, doubled after
/// each retry, at most 2 s.
pub open spec fn backoff_ms(attempt: nat) -> nat
    decreases attempt,
{
    if attempt == 0 {
        HEALTH_FIRST_DELAY_MS as nat
    } else {
        let d: nat = 2 * backoff_ms((attempt - 1) as nat);
        if d > HEALTH_MAX_DELAY_MS {
            HEALTH_MAX_DELAY_MS as nat
        } else {
            d
        }
    }
}

/// Every wait of the startup backoff lies between 200 ms and 2 s.
pub proof fn lemma_backoff_bounded(attempt: nat)
    ensures
        HEALTH_FIRST_DELAY_MS <= backoff_ms(attempt) <= HEALTH_MAX_DELAY_MS,
    decreases attempt,
{
    if attempt > 0 {
        lemma_backoff_bounded((attempt - 1) as nat);
    }
}

/// What one startup poll saw.
#[derive(Debug, Clone)]
pub enum HealthEvent {
    /// The process had already exited; its exit status, as displayed.
    Exited(String),
    /// The Clash API answered `GET /version`.
    Healthy,
    /// The Clash API did not answer (yet).
    NotYet,
}

/// What the runner does after a poll.
#[derive(Debug, Clone)]
pub enum HealthAction {
    /// The engine is up.
    Ready,
    /// The start failed with this message.
    Fail(String),
    /// Wait this many milliseconds, then poll again.
    RetryAfter(u64),
}

/// The message for a process that exited during startup.
pub open spec fn exited_message(status: Seq<char>) -> Seq<char> {
    "sing-box exited early with status "@ + status
}

/// The message for a process whose API never answered.
pub open spec fn timeout_message() -> Seq<char> {
    "sing-box did not report a healthy Clash API in time"@
}

/// Where the startup health check stands: which poll comes next and how
/// long to wait if it fails.
#[derive(Debug, Clone, Copy)]
pub struct HealthCheck {
    pub attempt: u32,
    pub delay_ms: u64,
}

impl HealthCheck {
    /// The check is at poll `attempt` of [`HEALTH_ATTEMPTS`], with the
    /// backoff that goes with it.
    pub open spec fn wf(self) -> bool {
        &&& self.attempt < HEALTH_ATTEMPTS
        &&& self.delay_ms == backoff_ms(self.attempt as nat)
    }

    /// Before the first poll.
    pub fn new() -> (r: HealthCheck)
        ensures
            r.wf(),
            r.attempt == 0,
    {
        HealthCheck { attempt: 0, delay_ms: HEALTH_FIRST_DELAY_MS }
    }

    /// The decision after a poll: an exited process fails the start, a
    /// healthy API ends it, and otherwise the runner waits and polls again,
    /// until the last attempt has failed.
    pub fn step(&mut self, event: HealthEvent) -> (a: HealthAction)
        requires
            old(self).wf(),
        ensures
            match event {
                HealthEvent::Exited(status) => {
                    &&& a matches HealthAction::Fail(m) && m@ == exited_message(status@)
                    &&& *final(self) == *old(self)
                },
                HealthEvent::Healthy => {
                    &&& a is Ready
                    &&& *final(self) == *old(self)
                },
                HealthEvent::NotYet => if old(self).attempt + 1 < HEALTH_ATTEMPTS {
                    &&& a == HealthAction::RetryAfter(old(self).delay_ms)
                    &&& final(self).attempt == old(self).attempt + 1
                    &&& final(self).wf()
                } else {
                    &&& a matches HealthAction::Fail(m) && m@ == timeout_message()
                    &&& *final(self) == *old(self)
                },
            },
    {
        match event {
            HealthEvent::Exited(status) => {
                let mut m: Vec<char> = Vec::new();
                crate::text::push_str(&mut m, "sing-box exited early with status ");
                crate::text::push_str(&mut m, status.as_str());
                HealthAction::Fail(crate::text::string_of(&m))
            },
            HealthEvent::Healthy => HealthAction::Ready,
            HealthEvent::NotYet => {
                if self.attempt + 1 < HEALTH_ATTEMPTS {
                    proof {
                        lemma_backoff_bounded(self.attempt as nat);
                    }
                    let wait: u64 = self.delay_ms;
                    let doubled: u64 = self.delay_ms * 2;
                    self.attempt = self.attempt + 1;
                    self.delay_ms = if doubled > HEALTH_MAX_DELAY_MS {
                        HEALTH_MAX_DELAY_MS
                    } else {
                        doubled
                    };
                    HealthAction::RetryAfter(wait)
                } else {
                    HealthAction::Fail("sing-box did not report a healthy Clash API in time".to_string())
                }
            },
        }
    }
}

} // verus!
