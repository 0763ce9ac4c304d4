//! A server that the front end started: how it is found, started, watched and
//! stopped.
use vstd::prelude::*;
use vstd::string::{StringExecFns, StringSliceAdditionalSpecFns};
use vstd::utf8::is_char_boundary;
use crate::gui::server_connection::{alive, is_alive, parse_pid, ProbeResult};
use crate::numbers::{decimal, number_up_to, to_decimal};
use crate::paths::{join_path, joined};
use crate::strings::{has_prefix, text_of};
use crate::words::{lemma_occurs_is_a_split, occurs, text_contains, trim, trimmed};

verus! {

/// A line that the server wrote.
#[derive(Debug)]
pub struct ServerLogLine {
    pub level: LogLevel,
    pub message: String,
    pub timestamp: String,
}

/// How serious a line is.
#[derive(Clone, Copy, Debug, PartialEq, Eq, Structural)]
pub enum LogLevel {
    Trace,
    Debug,
    Info,
    Warn,
    Error,
}

/// A line carries a level: as a word between spaces anywhere, or at its beginning.
pub open spec fn carries(line: Seq<char>, word: Seq<char>, spaced: Seq<char>) -> bool {
    occurs(line, spaced) || word.is_prefix_of(line)
}

/// The most serious level that a line carries; `Info` where it carries none.
pub open spec fn level_of(line: Seq<char>) -> LogLevel {
    if carries(line, "ERROR"@, " ERROR "@) {
        LogLevel::Error
    } else if carries(line, "WARN"@, " WARN "@) {
        LogLevel::Warn
    } else if carries(line, "INFO"@, " INFO "@) {
        LogLevel::Info
    } else if carries(line, "DEBUG"@, " DEBUG "@) {
        LogLevel::Debug
    } else if carries(line, "TRACE"@, " TRACE "@) {
        LogLevel::Trace
    } else {
        LogLevel::Info
    }
}

/// A level word counts between spaces anywhere in a line and at its beginning, and of
/// several the most serious one counts. A line without any is information.
pub proof fn lemma_levels_go_by_words(line: Seq<char>)
    ensures
        ({
            let error = "ERROR"@.is_prefix_of(line) || exists|before: Seq<char>, after: Seq<char>|
                line == #[trigger] (before + " ERROR "@ + after);
            let warn = "WARN"@.is_prefix_of(line) || exists|before: Seq<char>, after: Seq<char>|
                line == #[trigger] (before + " WARN "@ + after);
            let info = "INFO"@.is_prefix_of(line) || exists|before: Seq<char>, after: Seq<char>|
                line == #[trigger] (before + " INFO "@ + after);
            let debug = "DEBUG"@.is_prefix_of(line) || exists|before: Seq<char>, after: Seq<char>|
                line == #[trigger] (before + " DEBUG "@ + after);
            let trace = "TRACE"@.is_prefix_of(line) || exists|before: Seq<char>, after: Seq<char>|
                line == #[trigger] (before + " TRACE "@ + after);
            &&& error ==> level_of(line) == LogLevel::Error
            &&& warn && !error ==> level_of(line) == LogLevel::Warn
            &&& info && !error && !warn ==> level_of(line) == LogLevel::Info
            &&& debug && !error && !warn && !info ==> level_of(line) == LogLevel::Debug
            &&& trace && !error && !warn && !info && !debug ==> level_of(line) == LogLevel::Trace
            &&& !error && !warn && !info && !debug && !trace ==> level_of(line) == LogLevel::Info
        }),
{
    lemma_occurs_is_a_split(line, " ERROR "@);
    lemma_occurs_is_a_split(line, " WARN "@);
    lemma_occurs_is_a_split(line, " INFO "@);
    lemma_occurs_is_a_split(line, " DEBUG "@);
    lemma_occurs_is_a_split(line, " TRACE "@);
}

fn has_level(line: &str, word: &str, spaced: &str) -> (found: bool)
    ensures
        found == carries(line@, word@, spaced@),
{
    text_contains(line, spaced) || has_prefix(line, word)
}

/// Classifies a line of the server's output. `timestamp` is when it came.
pub fn parse_log_line(line: &str, timestamp: String) -> (parsed: ServerLogLine)
    ensures
        parsed.level == level_of(line@),
        parsed.message@ == line@,
        parsed.timestamp == timestamp,
{
    let level: LogLevel = if has_level(line, "ERROR", " ERROR ") {
        LogLevel::Error
    } else if has_level(line, "WARN", " WARN ") {
        LogLevel::Warn
    } else if has_level(line, "INFO", " INFO ") {
        LogLevel::Info
    } else if has_level(line, "DEBUG", " DEBUG ") {
        LogLevel::Debug
    } else if has_level(line, "TRACE", " TRACE ") {
        LogLevel::Trace
    } else {
        LogLevel::Info
    };
    ServerLogLine { level, message: line.to_owned(), timestamp }
}

// ---------------------------------------------------------------------------
// PID file
// ---------------------------------------------------------------------------

/// What a PID file says of a running server.
#[derive(Clone, Copy, Debug, PartialEq, Eq)]
pub enum PidFileStatus {
    /// It holds no number.
    Unreadable,
    /// The server runs under this number.
    Running(u32),
    /// The server is gone: remove the file.
    Stale,
}

/// What a PID file says, given what a probe of its process said.
pub fn check_pid_file(content: &str, probe: ProbeResult) -> (status: PidFileStatus)
    ensures
        status == match number_up_to(trimmed(content@), u32::MAX as nat) {
            None => PidFileStatus::Unreadable,
            Some(pid) => if is_alive(probe) {
                PidFileStatus::Running(pid as u32)
            } else {
                PidFileStatus::Stale
            },
        },
{
    match parse_pid(content) {
        None => PidFileStatus::Unreadable,
        Some(pid) => {
            if alive(probe) {
                PidFileStatus::Running(pid)
            } else {
                PidFileStatus::Stale
            }
        },
    }
}

// ---------------------------------------------------------------------------
// Finding the server
// ---------------------------------------------------------------------------

/// A place to look for the server.
#[derive(Debug)]
pub enum SearchStep {
    /// This file.
    File(String),
    /// This file, by its canonical path.
    Canonical(String),
    /// Wherever the search path has it.
    SearchPath,
}

/// A place to look, over sequences.
pub ghost enum SearchPlace {
    File(Seq<char>),
    Canonical(Seq<char>),
    SearchPath,
}

impl View for SearchStep {
    type V = SearchPlace;

    open spec fn view(&self) -> SearchPlace {
        match *self {
            SearchStep::File(path) => SearchPlace::File(path@),
            SearchStep::Canonical(path) => SearchPlace::Canonical(path@),
            SearchStep::SearchPath => SearchPlace::SearchPath,
        }
    }
}

pub open spec fn places(steps: Seq<SearchStep>) -> Seq<SearchPlace> {
    steps.map_values(|step: SearchStep| step@)
}

/// Where to look for the server, in order: the sandbox's own place, beside the
/// front end, in a build tree, on the search path, in the system's places. Inside
/// the sandbox neither build trees nor system places are looked at.
pub open spec fn search_places(in_flatpak: bool, exe_dir: Option<Seq<char>>) -> Seq<SearchPlace> {
    let sandbox = if in_flatpak {
        seq![SearchPlace::File("/app/bin/lamco-rdp-server"@)]
    } else {
        seq![]
    };
    let beside = match exe_dir {
        Some(dir) => seq![SearchPlace::File(joined(dir, "lamco-rdp-server"@))],
        None => seq![],
    };
    let build_tree = if in_flatpak {
        seq![]
    } else {
        seq![
            SearchPlace::Canonical("target/debug/lamco-rdp-server"@),
            SearchPlace::Canonical("target/release/lamco-rdp-server"@),
            SearchPlace::Canonical("../target/debug/lamco-rdp-server"@),
            SearchPlace::Canonical("../target/release/lamco-rdp-server"@),
        ]
    };
    let system = if in_flatpak {
        seq![]
    } else {
        seq![
            SearchPlace::File("/usr/bin/lamco-rdp-server"@),
            SearchPlace::File("/usr/local/bin/lamco-rdp-server"@),
            SearchPlace::File("/opt/lamco/bin/lamco-rdp-server"@),
        ]
    };
    sandbox + beside + build_tree + seq![SearchPlace::SearchPath] + system
}

/// Where to look for the server. `exe_dir` is the directory of the front end.
pub fn find_server_binary(in_flatpak: bool, exe_dir: Option<&str>) -> (steps: Vec<SearchStep>)
    ensures
        places(steps@) == search_places(
            in_flatpak,
            match exe_dir {
                Some(dir) => Some(dir@),
                None => None,
            },
        ),
{
    let mut steps: Vec<SearchStep> = Vec::new();
    if in_flatpak {
        steps.push(SearchStep::File("/app/bin/lamco-rdp-server".to_owned()));
    }
    if let Some(dir) = exe_dir {
        steps.push(SearchStep::File(join_path(dir, "lamco-rdp-server")));
    }
    if !in_flatpak {
        steps.push(SearchStep::Canonical("target/debug/lamco-rdp-server".to_owned()));
        steps.push(SearchStep::Canonical("target/release/lamco-rdp-server".to_owned()));
        steps.push(SearchStep::Canonical("../target/debug/lamco-rdp-server".to_owned()));
        steps.push(SearchStep::Canonical("../target/release/lamco-rdp-server".to_owned()));
    }
    steps.push(SearchStep::SearchPath);
    if !in_flatpak {
        steps.push(SearchStep::File("/usr/bin/lamco-rdp-server".to_owned()));
        steps.push(SearchStep::File("/usr/local/bin/lamco-rdp-server".to_owned()));
        steps.push(SearchStep::File("/opt/lamco/bin/lamco-rdp-server".to_owned()));
    }
    assert(places(steps@) =~= search_places(
        in_flatpak,
        match exe_dir {
            Some(dir) => Some(dir@),
            None => None,
        },
    ));
    steps
}

/// The path in the answer of a search, where there is one.
pub fn search_answer(output: &str) -> (path: Option<String>)
    ensures
        path is Some <==> trimmed(output@).len() > 0,
        path is Some ==> path->Some_0@ == trimmed(output@),
{
    let chars: Vec<char> = trim(output);
    if chars.len() > 0 {
        Some(text_of(chars.as_slice()))
    } else {
        None
    }
}

/// That the server was not found, and where it was looked for.
pub fn not_found_message(in_flatpak: bool) -> (text: String)
    ensures
        text@ == "Could not find lamco-rdp-server binary. Searched: "@ + if in_flatpak {
            "Flatpak sandbox (/app/bin/)"@
        } else {
            "same directory, target/, PATH, /usr/bin, /usr/local/bin"@
        },
{
    let mut text: String = "Could not find lamco-rdp-server binary. Searched: ".to_owned();
    if in_flatpak {
        text.append("Flatpak sandbox (/app/bin/)");
    } else {
        text.append("same directory, target/, PATH, /usr/bin, /usr/local/bin");
    }
    text
}

// ---------------------------------------------------------------------------
// Starting and stopping
// ---------------------------------------------------------------------------

/// Where the configuration for a started server is written.
pub fn temp_config_path(runtime_dir: Option<&str>, pid: u32) -> (path: String)
    ensures
        path@ == joined(
            match runtime_dir {
                Some(dir) => dir@,
                None => "/tmp"@,
            },
            "lamco-rdp-server-gui-"@ + decimal(pid as nat) + ".toml"@,
        ),
{
    let mut name: String = "lamco-rdp-server-gui-".to_owned();
    let number: String = to_decimal(pid as u64);
    name.append(number.as_str());
    name.append(".toml");
    match runtime_dir {
        Some(dir) => join_path(dir, name.as_str()),
        None => join_path("/tmp", name.as_str()),
    }
}

/// The arguments of a started server: its configuration, and that it registers on
/// D-Bus so that the front end finds it again. The log level is left to the
/// configuration.
pub fn server_arguments(config_path: String) -> (arguments: Vec<String>)
    ensures
        arguments@.len() == 3,
        arguments@[0]@ == "--config"@,
        arguments@[1] == config_path,
        arguments@[2]@ == "--dbus-service"@,
{
    let mut arguments: Vec<String> = Vec::new();
    arguments.push("--config".to_owned());
    arguments.push(config_path);
    arguments.push("--dbus-service".to_owned());
    arguments
}

/// How long a server has to end by itself, in milliseconds.
pub const STOP_GRACE_MS: u64 = 5000;

/// The answer to the signal that asks a server to end.
#[derive(Clone, Copy, Debug, PartialEq, Eq, Structural)]
pub enum TermResult {
    Sent,
    /// It is gone already.
    NoSuchProcess,
    Failed,
}

/// The next thing to do to stop a child.
#[derive(Clone, Copy, Debug, PartialEq, Eq, Structural)]
pub enum StopStep {
    /// Clean up: it is gone.
    CleanUp,
    /// Ask it to end.
    SendTerm,
    /// Probe it, and sleep 100 ms where it still runs.
    Watch,
    /// Collect it and clean up.
    Reap,
    /// End it, collect it and clean up.
    Kill,
}

/// A server that the front end started.
pub struct ServerProcess {
    pid: u32,
    address: String,
    config_path: String,
    /// Nanoseconds of the caller's steady clock.
    start_time: u128,
    detached: bool,
    shutting_down: bool,
}

impl ServerProcess {
    pub closed spec fn pid_view(&self) -> u32 {
        self.pid
    }

    pub closed spec fn address_view(&self) -> Seq<char> {
        self.address@
    }

    pub closed spec fn config_path_view(&self) -> Seq<char> {
        self.config_path@
    }

    pub closed spec fn started(&self) -> u128 {
        self.start_time
    }

    pub closed spec fn is_detached(&self) -> bool {
        self.detached
    }

    pub closed spec fn is_shutting_down(&self) -> bool {
        self.shutting_down
    }

    pub open spec fn same_process(&self, other: &Self) -> bool {
        &&& self.pid_view() == other.pid_view()
        &&& self.address_view() == other.address_view()
        &&& self.config_path_view() == other.config_path_view()
        &&& self.started() == other.started()
    }

    /// The server was started now.
    pub fn started_as(pid: u32, address: String, config_path: String, now: u128) -> (process: Self)
        ensures
            process.pid_view() == pid,
            process.address_view() == address@,
            process.config_path_view() == config_path@,
            process.started() == now,
            !process.is_detached(),
            !process.is_shutting_down(),
    {
        ServerProcess {
            pid,
            address,
            config_path,
            start_time: now,
            detached: false,
            shutting_down: false,
        }
    }

    /// Its process number.
    pub fn pid(&self) -> (pid: u32)
        ensures
            pid == self.pid_view(),
    {
        self.pid
    }

    /// Where it listens.
    pub fn address(&self) -> (address: &str)
        ensures
            address@ == self.address_view(),
    {
        self.address.as_str()
    }

    /// Where its configuration was written.
    pub fn config_path(&self) -> (path: &str)
        ensures
            path@ == self.config_path_view(),
    {
        self.config_path.as_str()
    }

    /// Nanoseconds since it was started.
    pub fn uptime(&self, now: u128) -> (elapsed: u128)
        ensures
            elapsed == if now > self.started() {
                now - self.started()
            } else {
                0
            },
    {
        if now > self.start_time {
            now - self.start_time
        } else {
            0
        }
    }

    /// Whether it runs, by a probe of its process.
    pub fn is_running(&self, probe: ProbeResult) -> (running: bool)
        ensures
            running == is_alive(probe),
    {
        alive(probe)
    }

    /// Lets it run on when the front end ends.
    pub fn detach(&mut self)
        ensures
            final(self).is_detached(),
            final(self).is_shutting_down() == old(self).is_shutting_down(),
            final(self).same_process(old(self)),
    {
        self.detached = true;
    }

    /// Whether it is to be stopped when the front end ends.
    pub fn stops_with_front_end(&self) -> (stops: bool)
        ensures
            stops == !self.is_detached(),
    {
        !self.detached
    }

    /// Begins to stop it. Its output is not read any more.
    pub fn stop(&mut self, probe: ProbeResult) -> (step: StopStep)
        ensures
            final(self).is_shutting_down(),
            final(self).is_detached() == old(self).is_detached(),
            final(self).same_process(old(self)),
            step == if is_alive(probe) {
                StopStep::SendTerm
            } else {
                StopStep::CleanUp
            },
    {
        self.shutting_down = true;
        if alive(probe) {
            StopStep::SendTerm
        } else {
            StopStep::CleanUp
        }
    }
}

/// What to do after a child was asked to end.
pub fn after_term(result: TermResult) -> (step: StopStep)
    ensures
        step == if result == TermResult::NoSuchProcess {
            StopStep::CleanUp
        } else {
            StopStep::Watch
        },
{
    match result {
        TermResult::NoSuchProcess => StopStep::CleanUp,
        TermResult::Sent => StopStep::Watch,
        TermResult::Failed => StopStep::Watch,
    }
}

/// What to do with a child that was asked to end `waited_ms` ago. Once its time is
/// up it is not probed again.
pub fn watch_stop(waited_ms: u64, probe: ProbeResult) -> (step: StopStep)
    ensures
        step == if waited_ms >= STOP_GRACE_MS {
            StopStep::Kill
        } else if is_alive(probe) {
            StopStep::Watch
        } else {
            StopStep::Reap
        },
{
    if waited_ms >= STOP_GRACE_MS {
        StopStep::Kill
    } else if alive(probe) {
        StopStep::Watch
    } else {
        StopStep::Reap
    }
}

/// Most bytes of a status message.
pub const STATUS_LIMIT: usize = 96;

/// A status message, cut where the portal would refuse it.
pub fn truncate_status(message: &str) -> (text: String)
    requires
        message.spec_bytes().len() > STATUS_LIMIT ==> is_char_boundary(
            message.spec_bytes(),
            STATUS_LIMIT as int,
        ),
    ensures
        message.spec_bytes().len() <= STATUS_LIMIT ==> text@ == message@,
        message.spec_bytes().len() > STATUS_LIMIT ==> vstd::utf8::encode_utf8(text@)
            == message.spec_bytes().subrange(0, STATUS_LIMIT as int),
{
    if message.as_bytes().len() > STATUS_LIMIT {
        let (head, _rest) = message.split_at(STATUS_LIMIT);
        head.to_owned()
    } else {
        message.to_owned()
    }
}

// ---------------------------------------------------------------------------
// Laws
// ---------------------------------------------------------------------------

/// In the sandbox the server is looked for in the sandbox alone: at its own place first,
/// then beside the front end, then on the search path.
pub proof fn lemma_the_sandbox_is_not_left(exe_dir: Option<Seq<char>>)
    ensures
        ({
            let found = search_places(true, exe_dir);
            &&& found.first() == SearchPlace::File("/app/bin/lamco-rdp-server"@)
            &&& found.last() == SearchPlace::SearchPath
            &&& exe_dir is None ==> found.len() == 2
            &&& exe_dir matches Some(dir) ==> found.len() == 3 && found[1] == SearchPlace::File(
                joined(dir, "lamco-rdp-server"@),
            )
        }),
{
}

/// Outside the sandbox a server beside the front end comes first, then those of a build
/// tree, then the search path, and the places of the system last.
pub proof fn lemma_places_outside_the_sandbox(exe_dir: Option<Seq<char>>)
    ensures
        ({
            let found = search_places(false, exe_dir);
            let start: int = if exe_dir is Some { 1 } else { 0 };
            &&& found.len() == start + 8
            &&& exe_dir matches Some(dir) ==> found[0] == SearchPlace::File(
                joined(dir, "lamco-rdp-server"@),
            )
            &&& found[start] == SearchPlace::Canonical("target/debug/lamco-rdp-server"@)
            &&& found[start + 1] == SearchPlace::Canonical("target/release/lamco-rdp-server"@)
            &&& found[start + 2] == SearchPlace::Canonical("../target/debug/lamco-rdp-server"@)
            &&& found[start + 3] == SearchPlace::Canonical("../target/release/lamco-rdp-server"@)
            &&& found[start + 4] == SearchPlace::SearchPath
            &&& found[start + 5] == SearchPlace::File("/usr/bin/lamco-rdp-server"@)
            &&& found[start + 6] == SearchPlace::File("/usr/local/bin/lamco-rdp-server"@)
            &&& found[start + 7] == SearchPlace::File("/opt/lamco/bin/lamco-rdp-server"@)
        }),
{
}

/// The same process has the same number, address, configuration and start.
pub proof fn lemma_same_processes(a: ServerProcess, b: ServerProcess)
    ensures
        a.same_process(&b) <==> a.pid_view() == b.pid_view() && a.address_view()
            == b.address_view() && a.config_path_view() == b.config_path_view() && a.started()
            == b.started(),
{
}

} // verus!
