//! The desktop dashboard's rules: the window of daemon log lines it keeps,
//! what starting and stopping the daemon does, and the labels it shows.

use vstd::prelude::*;
use crate::protocol::string_views;

verus! {

/// How many daemon log lines the dashboard keeps.
pub const LOG_CAPACITY: usize = 100;

/// The lines kept of a log: the newest `LOG_CAPACITY` of them.
pub open spec fn log_window(lines: Seq<Seq<char>>) -> Seq<Seq<char>> {
    if lines.len() > LOG_CAPACITY {
        lines.subrange(lines.len() - LOG_CAPACITY, lines.len() as int)
    } else {
        lines
    }
}

/// The newest daemon log lines, oldest first.
pub struct LogBuffer {
    lines: Vec<String>,
}

impl View for LogBuffer {
    type V = Seq<Seq<char>>;

    closed spec fn view(&self) -> Seq<Seq<char>> {
        string_views(self.lines@)
    }
}

impl LogBuffer {
    /// No more than `LOG_CAPACITY` lines are kept.
    #[verifier::type_invariant]
    closed spec fn bounded(self) -> bool {
        self.lines@.len() <= LOG_CAPACITY
    }

    /// An empty log.
    pub fn new() -> (b: LogBuffer)
        ensures
            b@ == Seq::<Seq<char>>::empty(),
    {
        let b = LogBuffer { lines: Vec::new() };
        assert(b@ =~= Seq::<Seq<char>>::empty());
        b
    }

    /// Appends a line; the oldest line goes when more than `LOG_CAPACITY`
    /// would be kept.
    pub fn push(&mut self, line: String)
        ensures
            final(self)@ == log_window(old(self)@.push(line@)),
            final(self)@.len() <= LOG_CAPACITY,
    {
        proof {
            use_type_invariant(&*self);
        }
        let ghost before = self@;
        let ghost l = line@;
        let mut lines: Vec<String> = Vec::new();
        std::mem::swap(&mut lines, &mut self.lines);
        assert(string_views(lines@) == before);
        if lines.len() == LOG_CAPACITY {
            lines.remove(0);
            assert(string_views(lines@) =~= before.subrange(1, before.len() as int));
        }
        let ghost kept = string_views(lines@);
        lines.push(line);
        assert(string_views(lines@) =~= kept.push(l));
        self.lines = lines;
        assert(self@ =~= log_window(before.push(l)));
    }

    /// The kept lines, oldest first: never more than `LOG_CAPACITY`.
    pub fn lines(&self) -> (r: Vec<String>)
        ensures
            string_views(r@) == self@,
            r@.len() <= LOG_CAPACITY,
    {
        proof {
            use_type_invariant(self);
        }
        let mut r: Vec<String> = Vec::new();
        let mut i: usize = 0;
        while i < self.lines.len()
            invariant
                0 <= i <= self.lines@.len(),
                r@.len() == i,
                string_views(r@) == string_views(self.lines@).take(i as int),
            decreases self.lines@.len() - i,
        {
            let line = self.lines[i].clone();
            let ghost before = r@;
            r.push(line);
            assert forall|k: int| 0 <= k < r@.len() implies #[trigger] string_views(r@)[k] == string_views(
                self.lines@,
            ).take(i + 1)[k] by {
                if k < i {
                    assert(r@[k] == before[k]);
                    assert(string_views(before)[k] == string_views(self.lines@).take(i as int)[k]);
                }
            }
            assert(string_views(r@) =~= string_views(self.lines@).take(i + 1));
            i = i + 1;
        }
        assert(string_views(self.lines@).take(self.lines@.len() as int) =~= string_views(self.lines@));
        r
    }
}

/// Pushing lines one at a time keeps exactly the newest `LOG_CAPACITY`
/// lines of everything pushed so far.
pub proof fn lemma_log_keeps_newest(history: Seq<Seq<char>>, line: Seq<char>)
    ensures
        log_window(log_window(history).push(line)) == log_window(history.push(line)),
{
    let all = history.push(line);
    if history.len() > LOG_CAPACITY {
        let kept = history.subrange(history.len() - LOG_CAPACITY, history.len() as int).push(line);
        assert(kept.subrange(1, kept.len() as int) =~= all.subrange(all.len() - LOG_CAPACITY, all.len() as int));
    } else if history.len() == LOG_CAPACITY {
        assert(all.subrange(1, all.len() as int) =~= all.subrange(all.len() - LOG_CAPACITY, all.len() as int));
    }
}

/// What a request to start or stop the daemon leads to.
#[derive(Debug, Clone, Copy, PartialEq, Eq, Structural)]
pub enum DaemonControl {
    /// Start the daemon process.
    Spawn,
    /// Stop the running daemon process.
    Kill,
    /// Refused: the daemon is already running.
    AlreadyRunning,
    /// Refused: the daemon is not running.
    NotRunning,
    /// Refused: neither `start` nor `stop`.
    InvalidAction,
}

/// The decision for an action, given whether the daemon runs.
pub open spec fn control_spec(action: Seq<char>, running: bool) -> DaemonControl {
    if action == "start"@ {
        if running {
            DaemonControl::AlreadyRunning
        } else {
            DaemonControl::Spawn
        }
    } else if action == "stop"@ {
        if running {
            DaemonControl::Kill
        } else {
            DaemonControl::NotRunning
        }
    } else {
        DaemonControl::InvalidAction
    }
}

impl DaemonControl {
    /// Decides what the action `start` or `stop` does.
    pub fn decide(action: &str, running: bool) -> (d: DaemonControl)
        ensures
            d == control_spec(action@, running),
    {
        let a = String::from_str(action);
        if a == String::from_str("start") {
            if running {
                DaemonControl::AlreadyRunning
            } else {
                DaemonControl::Spawn
            }
        } else if a == String::from_str("stop") {
            if running {
                DaemonControl::Kill
            } else {
                DaemonControl::NotRunning
            }
        } else {
            DaemonControl::InvalidAction
        }
    }

    /// The text the dashboard shows once the decision is carried out.
    pub fn message(&self) -> (m: String)
        ensures
            m@ == (match *self {
                DaemonControl::Spawn => "Daemon started"@,
                DaemonControl::Kill => "Daemon stopped"@,
                DaemonControl::AlreadyRunning => "Daemon already running"@,
                DaemonControl::NotRunning => "Daemon not running"@,
                DaemonControl::InvalidAction => "Invalid action"@,
            }),
    {
        match self {
            DaemonControl::Spawn => String::from_str("Daemon started"),
            DaemonControl::Kill => String::from_str("Daemon stopped"),
            DaemonControl::AlreadyRunning => String::from_str("Daemon already running"),
            DaemonControl::NotRunning => String::from_str("Daemon not running"),
            DaemonControl::InvalidAction => String::from_str("Invalid action"),
        }
    }

    /// Whether the decision is a refusal.
    pub fn is_refusal(&self) -> (r: bool)
        ensures
            r == !(*self == DaemonControl::Spawn || *self == DaemonControl::Kill),
    {
        match self {
            DaemonControl::Spawn | DaemonControl::Kill => false,
            _ => true,
        }
    }
}

/// The daemon status the dashboard reports.
pub fn daemon_status(running: bool) -> (s: String)
    ensures
        s@ == (if running {
            "Running"@
        } else {
            "Stopped"@
        }),
{
    if running {
        String::from_str("Running")
    } else {
        String::from_str("Stopped")
    }
}

/// The status line of the tray menu.
pub fn tray_status_text(running: bool) -> (s: String)
    ensures
        s@ == (if running {
            "Status: Daemon Running"@
        } else {
            "Status: Daemon Stopped"@
        }),
{
    if running {
        String::from_str("Status: Daemon Running")
    } else {
        String::from_str("Status: Daemon Stopped")
    }
}

/// The text `chrono` gives for a UTC instant in milliseconds in the form
/// `%Y-%m-%d %H:%M:%S`, or `None` where the instant is out of its range.
pub uninterp spec fn utc_timestamp_text(millis: i64) -> Option<Seq<char>>;

/// `chrono::DateTime::from_timestamp_millis`, formatted `%Y-%m-%d %H:%M:%S`.
/// The contract names the text and claims, as the documentation says, that
/// instants within about 262,000 years of the epoch are in range; the
/// bound stated is a smaller one.
#[verifier::external_body]
fn format_utc_millis(millis: i64) -> (r: Option<String>)
    ensures
        match r {
            Some(s) => utc_timestamp_text(millis) == Some(s@),
            None => utc_timestamp_text(millis) is None,
        },
        -8_000_000_000_000_000 <= millis <= 8_000_000_000_000_000 ==> r is Some,
{
    match chrono::DateTime::from_timestamp_millis(millis) {
        Some(dt) => Some(dt.format("%Y-%m-%d %H:%M:%S").to_string()),
        None => None,
    }
}

/// The last-sync line of the tray menu, for the newest history timestamp.
pub open spec fn last_sync_spec(last_sync: Option<i64>) -> Seq<char> {
    match last_sync {
        None => "Last Sync: N/A"@,
        Some(ts) => match utc_timestamp_text(ts) {
            Some(text) => "Last Sync: "@ + text,
            None => "Last Sync: Invalid timestamp"@,
        },
    }
}

/// The last-sync line of the tray menu.
pub fn last_sync_text(last_sync: Option<i64>) -> (s: String)
    ensures
        s@ == last_sync_spec(last_sync),
{
    match last_sync {
        None => String::from_str("Last Sync: N/A"),
        Some(ts) => match format_utc_millis(ts) {
            Some(text) => {
                let mut s = String::from_str("Last Sync: ");
                s.append(text.as_str());
                s
            },
            None => String::from_str("Last Sync: Invalid timestamp"),
        },
    }
}

} // verus!
