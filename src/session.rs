use vstd::prelude::*;
use crate::record::{ActivityRecord, csv_text, records_view, render_csv};
use crate::text::{decimal, push_u64};

verus! {

/// Seconds between starting a task and the first sample; a stop is honoured
/// only once they have passed.
pub const COUNTDOWN_SECS: u64 = 5;

/// Where a session stands.
#[derive(PartialEq, Eq, Structural, Clone, Copy, Debug)]
pub enum Phase {
    Idle,
    Countdown,
    Recording,
}

/// What the status line says.
pub enum Status {
    Ready,
    PermissionNote,
    CountingDown(u64),
    InProgress,
    NotReady,
    NothingRecorded,
    Saved(String),
    DirectoryUnresolved,
    FileCreateFailed,
}

/// Why a start request was refused.
#[derive(PartialEq, Eq, Structural, Clone, Copy, Debug)]
pub enum StartError {
    EmptyTaskName,
    AlreadyActive,
}

/// A file that the caller is to write: its name in the output directory and
/// its contents.
pub struct OutputFile {
    pub file_name: String,
    pub contents: String,
}

/// What a stop request led to.
pub enum StopOutcome {
    NotActive,
    NotReady,
    NothingRecorded,
    Write(OutputFile),
}

/// How writing the output file ended, as the caller reports it.
pub enum SaveResult {
    Saved(String),
    DirectoryUnresolved,
    FileCreateFailed,
}

/// The session controller: the task name being edited, the phase of the
/// current session, the samples it has logged and the status line.
pub struct ActivityTracker {
    pub task_name: String,
    pub is_macos: bool,
    pub phase: Phase,
    /// Identifies the current session; a sampler started for an older one
    /// is no longer accepted.
    pub session: u64,
    /// Monotonic second at which the current session was started.
    pub started_at: u64,
    /// The task name the current session was started with.
    pub session_name: String,
    pub log: Vec<ActivityRecord>,
    pub status: Status,
}

/// The task name with each space replaced by an underscore.
pub open spec fn sanitized(name: Seq<char>) -> Seq<char> {
    name.map_values(|c: char| if c == ' ' { '_' } else { c })
}

/// `<sanitized task name>_<unix seconds>.csv`
pub open spec fn output_file_name(name: Seq<char>, unix_time: u64) -> Seq<char> {
    sanitized(name) + seq!['_'] + decimal(unix_time as nat) + ".csv"@
}

pub open spec fn next_session(id: u64) -> u64 {
    if id == u64::MAX { 0 } else { (id + 1) as u64 }
}

/// Seconds since the session started, as read at `now`.
pub open spec fn elapsed(started_at: u64, now: u64) -> nat {
    if now >= started_at { (now - started_at) as nat } else { 0 }
}

pub open spec fn status_message(st: Status, is_macos: bool) -> Seq<char> {
    match st {
        Status::Ready => Seq::empty(),
        Status::PermissionNote => "Note: On macOS, you may need to grant permission for input monitoring in System Preferences → Security & Privacy → Privacy → Input Monitoring"@,
        Status::CountingDown(n) => "Recording will start in "@ + decimal(n as nat) + " seconds..."@,
        Status::InProgress => "Recording in progress..."@,
        Status::NotReady => "Please wait for timer to complete."@,
        Status::NothingRecorded => "No activity data recorded."@,
        Status::Saved(path) => if is_macos {
            "Activity data saved to "@ + path@ + "\nNote: On macOS, you may need to look in ~/Downloads"@
        } else {
            "Activity data saved to "@ + path@
        },
        Status::DirectoryUnresolved => "Could not find Downloads directory."@,
        Status::FileCreateFailed => "Failed to create output file."@,
    }
}

/// Builds the output file name for a task started under `name`.
pub fn file_name_for(name: &str, unix_time: u64) -> (r: String)
    ensures
        r@ == output_file_name(name@, unix_time),
{
    let n = name.unicode_len();
    let mut out = String::new();
    let mut i: usize = 0;
    while i < n
        invariant
            n == name@.len(),
            i <= n,
            out@ == sanitized(name@).subrange(0, i as int),
        decreases n - i,
    {
        let c = name.get_char(i);
        let ghost before = out@;
        if c == ' ' {
            proof {
                reveal_strlit("_");
            }
            out.append("_");
            assert(out@ == before + seq!['_']);
        } else {
            out.append(name.substring_char(i, i + 1));
            assert(name@.subrange(i as int, i + 1) =~= seq![c]);
        }
        i = i + 1;
        assert(out@ =~= sanitized(name@).subrange(0, i as int));
    }
    assert(sanitized(name@).subrange(0, i as int) =~= sanitized(name@));
    proof {
        reveal_strlit("_");
    }
    out.append("_");
    push_u64(&mut out, unix_time);
    out.append(".csv");
    assert(out@ =~= output_file_name(name@, unix_time));
    out
}

impl ActivityTracker {
    /// A controller with no session and an empty task name; on macOS the
    /// status line starts with the note on input-monitoring permission.
    pub fn new(is_macos: bool) -> (r: Self)
        ensures
            r.task_name@.len() == 0,
            r.is_macos == is_macos,
            r.phase == Phase::Idle,
            r.session == 0,
            r.log@.len() == 0,
            r.status == (if is_macos { Status::PermissionNote } else { Status::Ready }),
    {
        ActivityTracker {
            task_name: String::new(),
            is_macos,
            phase: Phase::Idle,
            session: 0,
            started_at: 0,
            session_name: String::new(),
            log: Vec::new(),
            status: if is_macos { Status::PermissionNote } else { Status::Ready },
        }
    }

    pub open spec fn active(&self) -> bool {
        self.phase != Phase::Idle
    }

    /// Starts a session at monotonic second `now`: the log is replaced by an
    /// empty one and the countdown begins. Refused while a session is active
    /// and when the task name is empty; the controller is then unchanged.
    /// Returns the new session's identifier.
    pub fn start_task(&mut self, now: u64) -> (r: Result<u64, StartError>)
        ensures
            old(self).active() ==> r == Err::<u64, StartError>(StartError::AlreadyActive)
                && *final(self) == *old(self),
            !old(self).active() && old(self).task_name@.len() == 0 ==> r == Err::<u64, StartError>(
                StartError::EmptyTaskName,
            ) && *final(self) == *old(self),
            !old(self).active() && old(self).task_name@.len() > 0 ==> {
                &&& r == Ok::<u64, StartError>(final(self).session)
                &&& final(self).session == next_session(old(self).session)
                &&& final(self).phase == Phase::Countdown
                &&& final(self).started_at == now
                &&& final(self).session_name@ == old(self).task_name@
                &&& final(self).log@.len() == 0
                &&& final(self).status == Status::CountingDown(COUNTDOWN_SECS)
                &&& final(self).task_name == old(self).task_name
                &&& final(self).is_macos == old(self).is_macos
            },
    {
        if self.phase != Phase::Idle {
            return Err(StartError::AlreadyActive);
        }
        if self.task_name.as_str().is_empty() {
            return Err(StartError::EmptyTaskName);
        }
        self.session = if self.session == u64::MAX { 0 } else { self.session + 1 };
        self.phase = Phase::Countdown;
        self.started_at = now;
        self.session_name = self.task_name.clone();
        self.log = Vec::new();
        self.status = Status::CountingDown(COUNTDOWN_SECS);
        Ok(self.session)
    }

    /// Advances the countdown at monotonic second `now`: while it runs the
    /// status line gives the seconds left; once it is over the session is
    /// recording. Nothing changes outside the countdown.
    pub fn tick(&mut self, now: u64)
        ensures
            old(self).phase != Phase::Countdown ==> *final(self) == *old(self),
            old(self).phase == Phase::Countdown && elapsed(old(self).started_at, now)
                < COUNTDOWN_SECS ==> {
                &&& final(self).phase == Phase::Countdown
                &&& final(self).status == Status::CountingDown(
                    (COUNTDOWN_SECS - elapsed(old(self).started_at, now)) as u64,
                )
            },
            old(self).phase == Phase::Countdown && elapsed(old(self).started_at, now)
                >= COUNTDOWN_SECS ==> {
                &&& final(self).phase == Phase::Recording
                &&& final(self).status == Status::InProgress
            },
            final(self).session == old(self).session,
            final(self).started_at == old(self).started_at,
            final(self).session_name == old(self).session_name,
            final(self).log == old(self).log,
            final(self).task_name == old(self).task_name,
            final(self).is_macos == old(self).is_macos,
    {
        if self.phase == Phase::Countdown {
            let passed: u64 = if now >= self.started_at { now - self.started_at } else { 0 };
            if passed < COUNTDOWN_SECS {
                self.status = Status::CountingDown(COUNTDOWN_SECS - passed);
            } else {
                self.phase = Phase::Recording;
                self.status = Status::InProgress;
            }
        }
    }

    /// Whether a sampler started for session `session` is to go on: only
    /// while that session is the active one.
    pub fn accepts_samples(&self, session: u64) -> (r: bool)
        ensures
            r == (self.active() && self.session == session),
    {
        self.phase != Phase::Idle && self.session == session
    }

    /// Appends a sample taken by the sampler of session `session` to the log,
    /// when that session is the active one; otherwise the sample is dropped.
    pub fn add_sample(&mut self, session: u64, record: ActivityRecord) -> (r: bool)
        ensures
            r == (old(self).active() && old(self).session == session),
            r ==> final(self).log@ == old(self).log@.push(record),
            !r ==> final(self).log@ == old(self).log@,
            final(self).log@.len() == old(self).log@.len() + if r { 1int } else { 0int },
            final(self).phase == old(self).phase,
            final(self).session == old(self).session,
            final(self).started_at == old(self).started_at,
            final(self).session_name == old(self).session_name,
            final(self).status == old(self).status,
            final(self).task_name == old(self).task_name,
            final(self).is_macos == old(self).is_macos,
    {
        if self.accepts_samples(session) {
            self.log.push(record);
            true
        } else {
            false
        }
    }

    /// Ends the session at monotonic second `now`, `unix_time` being the
    /// wall-clock second that names the file. Before the countdown is over
    /// the session goes on and the status line says it is not ready. After
    /// it the session ends and its log is drained: into the file to write,
    /// or, when nothing was logged, into the report that nothing was.
    pub fn stop_task(&mut self, now: u64, unix_time: u64) -> (r: StopOutcome)
        ensures
            !old(self).active() ==> r == StopOutcome::NotActive && *final(self) == *old(self),
            old(self).active() && elapsed(old(self).started_at, now) < COUNTDOWN_SECS ==> {
                &&& r == StopOutcome::NotReady
                &&& final(self).phase == old(self).phase
                &&& final(self).log == old(self).log
                &&& final(self).status == Status::NotReady
            },
            old(self).active() && elapsed(old(self).started_at, now) >= COUNTDOWN_SECS ==> {
                &&& final(self).phase == Phase::Idle
                &&& final(self).log@.len() == 0
                &&& (old(self).log@.len() == 0 ==> r == StopOutcome::NothingRecorded
                    && final(self).status == Status::NothingRecorded)
                &&& (old(self).log@.len() > 0 ==> (r matches StopOutcome::Write(f)
                    && f.file_name@ == output_file_name(old(self).session_name@, unix_time)
                    && f.contents@ == csv_text(records_view(old(self).log@))))
                &&& (old(self).log@.len() > 0 ==> final(self).status == old(self).status)
            },
            final(self).session == old(self).session,
            final(self).started_at == old(self).started_at,
            final(self).session_name == old(self).session_name,
            final(self).task_name == old(self).task_name,
            final(self).is_macos == old(self).is_macos,
    {
        if self.phase == Phase::Idle {
            return StopOutcome::NotActive;
        }
        let passed: u64 = if now >= self.started_at { now - self.started_at } else { 0 };
        if passed < COUNTDOWN_SECS {
            self.status = Status::NotReady;
            return StopOutcome::NotReady;
        }
        self.phase = Phase::Idle;
        if self.log.len() == 0 {
            self.status = Status::NothingRecorded;
            return StopOutcome::NothingRecorded;
        }
        let file_name = file_name_for(self.session_name.as_str(), unix_time);
        let contents = render_csv(&self.log);
        self.log = Vec::new();
        StopOutcome::Write(OutputFile { file_name, contents })
    }

    /// Takes the caller's report on writing the output file into the status
    /// line.
    pub fn finish_save(&mut self, result: SaveResult)
        ensures
            final(self).status == (match result {
                SaveResult::Saved(path) => Status::Saved(path),
                SaveResult::DirectoryUnresolved => Status::DirectoryUnresolved,
                SaveResult::FileCreateFailed => Status::FileCreateFailed,
            }),
            final(self).phase == old(self).phase,
            final(self).log == old(self).log,
            final(self).session == old(self).session,
            final(self).started_at == old(self).started_at,
            final(self).session_name == old(self).session_name,
            final(self).task_name == old(self).task_name,
            final(self).is_macos == old(self).is_macos,
    {
        self.status = match result {
            SaveResult::Saved(path) => Status::Saved(path),
            SaveResult::DirectoryUnresolved => Status::DirectoryUnresolved,
            SaveResult::FileCreateFailed => Status::FileCreateFailed,
        };
    }

    /// Replaces the task name being edited; a running session keeps the name
    /// it was started with.
    pub fn set_task_name(&mut self, name: String)
        ensures
            final(self).task_name == name,
            final(self).phase == old(self).phase,
            final(self).log == old(self).log,
            final(self).session == old(self).session,
            final(self).started_at == old(self).started_at,
            final(self).session_name == old(self).session_name,
            final(self).status == old(self).status,
            final(self).is_macos == old(self).is_macos,
    {
        self.task_name = name;
    }

    /// The text of the status line.
    pub fn status_text(&self) -> (r: String)
        ensures
            r@ == status_message(self.status, self.is_macos),
    {
        match &self.status {
            Status::Ready => String::new(),
            Status::PermissionNote => String::from_str(
                "Note: On macOS, you may need to grant permission for input monitoring in System Preferences → Security & Privacy → Privacy → Input Monitoring",
            ),
            Status::CountingDown(n) => {
                let mut out = String::from_str("Recording will start in ");
                push_u64(&mut out, *n);
                out.append(" seconds...");
                out
            },
            Status::InProgress => String::from_str("Recording in progress..."),
            Status::NotReady => String::from_str("Please wait for timer to complete."),
            Status::NothingRecorded => String::from_str("No activity data recorded."),
            Status::Saved(path) => {
                let mut out = String::from_str("Activity data saved to ");
                out.append(path.as_str());
                if self.is_macos {
                    out.append("\nNote: On macOS, you may need to look in ~/Downloads");
                }
                out
            },
            Status::DirectoryUnresolved => String::from_str("Could not find Downloads directory."),
            Status::FileCreateFailed => String::from_str("Failed to create output file."),
        }
    }
}

} // verus!
