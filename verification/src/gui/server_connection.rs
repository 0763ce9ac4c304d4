//! The server that the front end talks to, and how it is stopped.
use vstd::prelude::*;
use vstd::string::StringExecFns;
use crate::gui::server_process::ServerProcess;
use crate::numbers::{
    decimal, is_digit, lemma_decimal_round_trip, number_up_to, parse_number_chars, to_decimal,
};
use crate::strings::{chars_of, same_chars};
use crate::words::{is_white_space, lemma_trimmed_is_the_middle, trim, trimmed};

verus! {

/// How the front end is connected.
#[derive(Clone, Copy, Debug, PartialEq, Eq, Structural)]
pub enum ConnectionMode {
    /// Over D-Bus, to a service that runs already.
    DBus,
    /// To a child process.
    Process,
    /// To a server that was found by its PID file, by signals only.
    External,
    Disconnected,
}

/// The answer to a signal that only probes.
#[derive(Clone, Copy, Debug, PartialEq, Eq, Structural)]
pub enum ProbeResult {
    /// The process is there.
    Delivered,
    /// The process is there, and belongs to someone else.
    NotPermitted,
    NoSuchProcess,
    Other,
}

/// A process that can be probed, or that only others may signal, is alive.
pub open spec fn is_alive(probe: ProbeResult) -> bool {
    probe == ProbeResult::Delivered || probe == ProbeResult::NotPermitted
}

/// Whether a probed process is alive.
pub fn alive(probe: ProbeResult) -> (alive: bool)
    ensures
        alive == is_alive(probe),
{
    match probe {
        ProbeResult::Delivered => true,
        ProbeResult::NotPermitted => true,
        ProbeResult::NoSuchProcess => false,
        ProbeResult::Other => false,
    }
}

/// The number in a PID file.
pub fn parse_pid(content: &str) -> (pid: Option<u32>)
    ensures
        match pid {
            Some(pid) => number_up_to(trimmed(content@), u32::MAX as nat) == Some(pid as nat),
            None => number_up_to(trimmed(content@), u32::MAX as nat) is None,
        },
{
    let chars: Vec<char> = trim(content);
    match parse_number_chars(chars.as_slice(), u32::MAX as u64) {
        Some(pid) => Some(pid as u32),
        None => None,
    }
}

/// The number that a server writes to its PID file is the number that is read from
/// it.
pub proof fn lemma_pid_file_reads_back(pid: u32)
    ensures
        number_up_to(trimmed(decimal(pid as nat)), u32::MAX as nat) == Some(pid as nat),
{
    let digits = decimal(pid as nat);
    lemma_decimal_round_trip(pid as nat);
    assert(is_digit(digits[0]));
    assert(is_digit(digits[digits.len() - 1]));
}

/// The name under which the system lists the server: its first 15 bytes.
pub open spec fn is_server_name(comm: Seq<char>) -> bool {
    trimmed(comm) == "lamco-rdp-serve"@
}

/// Whether a program name is the server's. `None` is a name that cannot be read.
pub fn is_lamco_server(comm: Option<&str>) -> (ours: bool)
    ensures
        ours == match comm {
            Some(name) => is_server_name(name@),
            None => false,
        },
{
    match comm {
        None => false,
        Some(name) => {
            let chars: Vec<char> = trim(name);
            let wanted: Vec<char> = chars_of("lamco-rdp-serve");
            same_chars(chars.as_slice(), wanted.as_slice())
        },
    }
}

/// How often a terminated server is looked at before it is killed: every 100 ms,
/// for 5 s.
pub const TERMINATION_POLLS: u32 = 50;

/// The next thing to do to stop a server.
#[derive(Clone, Copy, Debug, PartialEq, Eq, Structural)]
pub enum TerminationStep {
    /// Nothing: it is gone, or it is not ours to stop.
    Finished,
    /// Ask it to end.
    SendTerm,
    /// Sleep 100 ms and probe it.
    Wait,
    /// End it.
    SendKill,
}

/// An optional text as an optional sequence.
pub open spec fn text_view(text: Option<&str>) -> Option<Seq<char>> {
    match text {
        Some(text) => Some(text@),
        None => None,
    }
}

/// How stopping begins: only a live process with the server's name is signalled.
pub open spec fn first_step(probe: ProbeResult, comm: Option<Seq<char>>) -> TerminationStep {
    if is_alive(probe) && comm is Some && is_server_name(comm->Some_0) {
        TerminationStep::SendTerm
    } else {
        TerminationStep::Finished
    }
}

/// How stopping goes on after the `polls`th look.
pub open spec fn next_step(polls: int, probe: ProbeResult) -> TerminationStep {
    if !is_alive(probe) {
        TerminationStep::Finished
    } else if polls < TERMINATION_POLLS {
        TerminationStep::Wait
    } else {
        TerminationStep::SendKill
    }
}

/// Begins to stop the server with a process number. A process that is gone is fine,
/// and one that is not the server, whose number was given out again, is left alone.
pub fn begin_termination(probe: ProbeResult, comm: Option<&str>) -> (step: TerminationStep)
    ensures
        step == first_step(probe, text_view(comm)),
{
    if alive(probe) && is_lamco_server(comm) {
        TerminationStep::SendTerm
    } else {
        TerminationStep::Finished
    }
}

/// What to do after a server that was asked to end was looked at for the `polls`th
/// time: be done where it is gone, wait on, and kill it after the last look.
pub fn after_poll(polls: u32, probe: ProbeResult) -> (step: TerminationStep)
    ensures
        step == next_step(polls as int, probe),
{
    if !alive(probe) {
        TerminationStep::Finished
    } else if polls < TERMINATION_POLLS {
        TerminationStep::Wait
    } else {
        TerminationStep::SendKill
    }
}

/// A signal that could not be sent, in words.
pub fn signal_failure(signal: &str, pid: u32, reason: &str) -> (text: String)
    ensures
        text@ == signal@ + " to PID "@ + decimal(pid as nat) + ": "@ + reason@,
{
    let mut text: String = signal.to_owned();
    text.append(" to PID ");
    let number: String = to_decimal(pid as u64);
    text.append(number.as_str());
    text.append(": ");
    text.append(reason);
    text
}

/// A process that is not the server is never signalled, whatever its number, nor one
/// whose name cannot be read.
pub proof fn lemma_foreign_process_is_left_alone(probe: ProbeResult, comm: Option<Seq<char>>)
    requires
        comm is Some ==> !is_server_name(comm->Some_0),
    ensures
        first_step(probe, comm) == TerminationStep::Finished,
{
}

/// Stopping comes to an end: after the last look nothing is waited for, and a
/// server that is still there is killed, never before.
pub proof fn lemma_termination_ends(polls: int, probe: ProbeResult)
    ensures
        polls >= TERMINATION_POLLS ==> next_step(polls, probe) != TerminationStep::Wait,
        next_step(polls, probe) == TerminationStep::SendKill <==> polls >= TERMINATION_POLLS
            && is_alive(probe),
{
}

/// A server that was found by its PID file.
pub struct ExternalServer {
    pid: u32,
    address: String,
    /// Nanoseconds of the caller's steady clock.
    discovered_at: u128,
}

impl ExternalServer {
    pub closed spec fn pid_view(&self) -> u32 {
        self.pid
    }

    pub closed spec fn address_view(&self) -> Seq<char> {
        self.address@
    }

    pub closed spec fn discovered(&self) -> u128 {
        self.discovered_at
    }

    /// A server that was found now.
    pub fn new(pid: u32, address: String, now: u128) -> (server: Self)
        ensures
            server.pid_view() == pid,
            server.address_view() == address@,
            server.discovered() == now,
    {
        ExternalServer { pid, address, discovered_at: now }
    }

    /// Its process number.
    pub fn pid(&self) -> (pid: u32)
        ensures
            pid == self.pid_view(),
    {
        self.pid
    }

    /// Where it listens.
    pub fn address(&self) -> (address: &str)
        ensures
            address@ == self.address_view(),
    {
        self.address.as_str()
    }

    /// Whether it runs, by a probe of its process.
    pub fn is_running(&self, probe: ProbeResult) -> (running: bool)
        ensures
            running == is_alive(probe),
    {
        alive(probe)
    }

    /// Nanoseconds since it was found.
    pub fn uptime(&self, now: u128) -> (elapsed: u128)
        ensures
            elapsed == if now > self.discovered() {
                now - self.discovered()
            } else {
                0
            },
    {
        if now > self.discovered_at {
            now - self.discovered_at
        } else {
            0
        }
    }

    /// Begins to stop it.
    pub fn stop(&self, probe: ProbeResult, comm: Option<&str>) -> (step: TerminationStep)
        ensures
            step == first_step(probe, text_view(comm)),
    {
        begin_termination(probe, comm)
    }
}

/// How to stop the server of a connection.
#[derive(Clone, Copy, Debug, PartialEq, Eq)]
pub enum StopPlan {
    /// Terminate the process with this number.
    Terminate(u32),
    /// Stop the child process.
    StopChild,
    /// Only disconnect: nothing says which process it is.
    Disconnect,
}

/// How an explicit stop goes. A service on D-Bus has no method to quit, so it is
/// terminated by the number in its PID file.
pub open spec fn stop_plan(
    mode: ConnectionMode,
    pid_file: Option<Seq<char>>,
    external_pid: Option<u32>,
) -> StopPlan {
    match mode {
        ConnectionMode::Process => StopPlan::StopChild,
        ConnectionMode::DBus => match pid_file {
            Some(content) => match number_up_to(trimmed(content), u32::MAX as nat) {
                Some(pid) => StopPlan::Terminate(pid as u32),
                None => StopPlan::Disconnect,
            },
            None => StopPlan::Disconnect,
        },
        ConnectionMode::External => match external_pid {
            Some(pid) => StopPlan::Terminate(pid),
            None => StopPlan::Disconnect,
        },
        ConnectionMode::Disconnected => StopPlan::Disconnect,
    }
}

/// The time from `start` to `now`, or none where the clock stands before `start`.
pub open spec fn since(start: u128, now: u128) -> u128 {
    if now > start {
        (now - start) as u128
    } else {
        0
    }
}

/// A connection to a server: over D-Bus by a client of the caller's, to a child, or
/// to a server that was found.
pub enum ServerConnection<D> {
    DBus(D),
    Process(ServerProcess),
    External(ExternalServer),
}

/// How to connect.
#[derive(Clone, Copy, Debug, PartialEq, Eq)]
pub enum ConnectStep {
    /// Use the service on D-Bus.
    UseDBus,
    /// Start a server.
    Spawn,
}

/// A service that is there is used where D-Bus is preferred; else a server is
/// started.
pub fn plan_connect(prefer_dbus: bool, dbus_available: bool) -> (step: ConnectStep)
    ensures
        step == if prefer_dbus && dbus_available {
            ConnectStep::UseDBus
        } else {
            ConnectStep::Spawn
        },
{
    if prefer_dbus && dbus_available {
        ConnectStep::UseDBus
    } else {
        ConnectStep::Spawn
    }
}

impl<D> ServerConnection<D> {
    pub open spec fn mode_view(&self) -> ConnectionMode {
        match *self {
            ServerConnection::DBus(_) => ConnectionMode::DBus,
            ServerConnection::Process(_) => ConnectionMode::Process,
            ServerConnection::External(_) => ConnectionMode::External,
        }
    }

    /// The number of the server's process, where it is known.
    pub open spec fn pid_view(&self) -> Option<u32> {
        match *self {
            ServerConnection::DBus(_) => None,
            ServerConnection::Process(process) => Some(process.pid_view()),
            ServerConnection::External(server) => Some(server.pid_view()),
        }
    }

    /// A connection to a server that was found now.
    pub fn external(pid: u32, address: String, now: u128) -> (connection: Self)
        ensures
            connection.mode_view() == ConnectionMode::External,
            connection.pid_view() == Some(pid),
            connection->External_0.address_view() == address@,
            connection->External_0.discovered() == now,
    {
        ServerConnection::External(ExternalServer::new(pid, address, now))
    }

    /// How the server is connected.
    pub fn mode(&self) -> (mode: ConnectionMode)
        ensures
            mode == self.mode_view(),
    {
        match self {
            ServerConnection::DBus(_) => ConnectionMode::DBus,
            ServerConnection::Process(_) => ConnectionMode::Process,
            ServerConnection::External(_) => ConnectionMode::External,
        }
    }

    /// The number of the server's process; a service on D-Bus does not tell.
    pub fn pid(&self) -> (pid: Option<u32>)
        ensures
            pid == self.pid_view(),
    {
        match self {
            ServerConnection::DBus(_) => None,
            ServerConnection::Process(process) => Some(process.pid()),
            ServerConnection::External(server) => Some(server.pid()),
        }
    }

    /// The client, where the server is connected over D-Bus.
    pub fn as_dbus(&self) -> (client: Option<&D>)
        ensures
            match *self {
                ServerConnection::DBus(dbus) => client == Some(&dbus),
                _ => client is None,
            },
    {
        match self {
            ServerConnection::DBus(client) => Some(client),
            _ => None,
        }
    }

    /// The client, to be changed, where the server is connected over D-Bus.
    pub fn as_dbus_mut(&mut self) -> (client: Option<&mut D>)
        ensures
            match *old(self) {
                ServerConnection::DBus(dbus) => {
                    &&& client is Some
                    &&& *client->Some_0 == dbus
                    &&& *final(self) == ServerConnection::DBus(*final(client->Some_0))
                },
                _ => client is None && *final(self) == *old(self),
            },
    {
        match self {
            ServerConnection::DBus(client) => Some(client),
            _ => None,
        }
    }

    /// Whether the server runs: by what a service on D-Bus reports, else by a probe
    /// of its process.
    pub fn is_running(&self, reported: bool, probe: ProbeResult) -> (running: bool)
        ensures
            running == match *self {
                ServerConnection::DBus(_) => reported,
                _ => is_alive(probe),
            },
    {
        match self {
            ServerConnection::DBus(_) => reported,
            ServerConnection::Process(process) => process.is_running(probe),
            ServerConnection::External(server) => server.is_running(probe),
        }
    }

    /// Nanoseconds that the server has run: what a service on D-Bus reports, or 0;
    /// else since it was started or found.
    pub fn uptime(&self, reported: Option<u128>, now: u128) -> (elapsed: u128)
        ensures
            elapsed == match *self {
                ServerConnection::DBus(_) => match reported {
                    Some(elapsed) => elapsed,
                    None => 0,
                },
                ServerConnection::Process(process) => since(process.started(), now),
                ServerConnection::External(server) => since(server.discovered(), now),
            },
    {
        match self {
            ServerConnection::DBus(_) => match reported {
                Some(elapsed) => elapsed,
                None => 0,
            },
            ServerConnection::Process(process) => process.uptime(now),
            ServerConnection::External(server) => server.uptime(now),
        }
    }

    /// Where the server listens. `reported` is what a service on D-Bus says.
    pub fn address(&self, reported: Option<String>) -> (address: String)
        ensures
            address@ == match *self {
                ServerConnection::DBus(_) => match reported {
                    Some(text) => text@,
                    None => seq![],
                },
                ServerConnection::Process(process) => process.address_view(),
                ServerConnection::External(server) => server.address_view(),
            },
    {
        match self {
            ServerConnection::DBus(_) => match reported {
                Some(text) => text,
                None => String::new(),
            },
            ServerConnection::Process(process) => process.address().to_owned(),
            ServerConnection::External(server) => server.address().to_owned(),
        }
    }

    /// How many clients are connected. Only a service on D-Bus can say.
    pub fn active_connections(&self, reported: Option<u32>) -> (count: u32)
        ensures
            count == match *self {
                ServerConnection::DBus(_) => match reported {
                    Some(count) => count,
                    None => 0,
                },
                _ => 0,
            },
    {
        match self {
            ServerConnection::DBus(_) => match reported {
                Some(count) => count,
                None => 0,
            },
            _ => 0,
        }
    }

    /// How to stop the server. `pid_file` is what its PID file holds.
    pub fn stop(&self, pid_file: Option<&str>) -> (plan: StopPlan)
        ensures
            plan == stop_plan(self.mode_view(), text_view(pid_file), self.pid_view()),
    {
        match self {
            ServerConnection::Process(_) => StopPlan::StopChild,
            ServerConnection::External(server) => StopPlan::Terminate(server.pid()),
            ServerConnection::DBus(_) => match pid_file {
                Some(content) => match parse_pid(content) {
                    Some(pid) => StopPlan::Terminate(pid),
                    None => StopPlan::Disconnect,
                },
                None => StopPlan::Disconnect,
            },
        }
    }

    /// Lets the server run on when the front end ends. Only a child needs that said.
    pub fn detach(&mut self)
        ensures
            final(self).mode_view() == old(self).mode_view(),
            final(self).pid_view() == old(self).pid_view(),
            match *old(self) {
                ServerConnection::Process(process) => final(self)->Process_0.is_detached()
                    && final(self)->Process_0.same_process(&process),
                _ => *final(self) == *old(self),
            },
    {
        if let ServerConnection::Process(process) = self {
            process.detach();
        }
    }
}

// ---------------------------------------------------------------------------
// Laws
// ---------------------------------------------------------------------------

/// Only a process that is there, ours or another's, is alive.
pub proof fn lemma_probes_tell_the_living()
    ensures
        is_alive(ProbeResult::Delivered),
        is_alive(ProbeResult::NotPermitted),
        !is_alive(ProbeResult::NoSuchProcess),
        !is_alive(ProbeResult::Other),
{
}

/// The system lists the server by the first 15 bytes of its name and a line end. A live
/// process of that name is asked to end, and a dead one is not.
pub proof fn lemma_the_server_is_asked_to_end(before: Seq<char>, after: Seq<char>)
    requires
        forall|i: int| 0 <= i < before.len() ==> is_white_space(#[trigger] before[i]),
        forall|i: int| 0 <= i < after.len() ==> is_white_space(#[trigger] after[i]),
    ensures
        ({
            let comm = Some(before + "lamco-rdp-serve"@ + after);
            &&& first_step(ProbeResult::Delivered, comm) == TerminationStep::SendTerm
            &&& first_step(ProbeResult::NotPermitted, comm) == TerminationStep::SendTerm
            &&& first_step(ProbeResult::NoSuchProcess, comm) == TerminationStep::Finished
            &&& first_step(ProbeResult::Other, comm) == TerminationStep::Finished
        }),
{
    reveal_strlit("lamco-rdp-serve");
    lemma_trimmed_is_the_middle(before, "lamco-rdp-serve"@, after);
}

/// Nothing but the server is signalled, and nothing whose name cannot be read.
pub proof fn lemma_only_the_server_is_signalled(probe: ProbeResult, comm: Option<Seq<char>>)
    requires
        first_step(probe, comm) != TerminationStep::Finished,
    ensures
        comm is Some,
        trimmed(comm->Some_0) == "lamco-rdp-serve"@,
        probe == ProbeResult::Delivered || probe == ProbeResult::NotPermitted,
{
}

/// A server that was asked to end is left alone once it is gone, waited for 50 looks
/// long, and killed then.
pub proof fn lemma_looks_before_the_kill(polls: int, probe: ProbeResult)
    ensures
        probe == ProbeResult::NoSuchProcess || probe == ProbeResult::Other ==> next_step(
            polls,
            probe,
        ) == TerminationStep::Finished,
        (probe == ProbeResult::Delivered || probe == ProbeResult::NotPermitted) && polls < 50
            ==> next_step(polls, probe) == TerminationStep::Wait,
        (probe == ProbeResult::Delivered || probe == ProbeResult::NotPermitted) && polls >= 50
            ==> next_step(polls, probe) == TerminationStep::SendKill,
{
}

/// What is stopped is the server of the connection: the child, the process that was
/// found, or the one whose number the PID file holds. Without a number nothing is
/// terminated.
pub proof fn lemma_the_right_server_is_stopped(
    pid: u32,
    end: Seq<char>,
    file: Option<Seq<char>>,
    known: Option<u32>,
)
    requires
        forall|i: int| 0 <= i < end.len() ==> is_white_space(#[trigger] end[i]),
    ensures
        stop_plan(ConnectionMode::Process, file, known) == StopPlan::StopChild,
        stop_plan(ConnectionMode::External, file, Some(pid)) == StopPlan::Terminate(pid),
        stop_plan(ConnectionMode::External, file, None) == StopPlan::Disconnect,
        stop_plan(ConnectionMode::DBus, Some(decimal(pid as nat) + end), known)
            == StopPlan::Terminate(pid),
        stop_plan(ConnectionMode::DBus, None, known) == StopPlan::Disconnect,
        stop_plan(ConnectionMode::Disconnected, file, known) == StopPlan::Disconnect,
{
    let digits = decimal(pid as nat);
    let none: Seq<char> = seq![];
    lemma_decimal_round_trip(pid as nat);
    assert(is_digit(digits[0]));
    assert(is_digit(digits[digits.len() - 1]));
    lemma_trimmed_is_the_middle(none, digits, end);
    assert(none + digits + end =~= digits + end);
}

/// A PID file without a number stops nothing.
pub proof fn lemma_unreadable_pid_files_stop_nothing(content: Seq<char>, known: Option<u32>)
    requires
        number_up_to(trimmed(content), 0xFFFF_FFFF) is None,
    ensures
        stop_plan(ConnectionMode::DBus, Some(content), known) == StopPlan::Disconnect,
{
}

/// Time passes forward, and never counts below zero.
pub proof fn lemma_time_since(start: u128, passed: u128)
    requires
        start + passed <= u128::MAX,
    ensures
        since(start, (start + passed) as u128) == passed,
        since((start + passed) as u128, start) == 0,
{
}

/// A connection is of its own kind and knows its own process.
pub proof fn lemma_connections_know_their_server<D>(connection: ServerConnection<D>)
    ensures
        connection is DBus <==> connection.mode_view() == ConnectionMode::DBus,
        connection is Process <==> connection.mode_view() == ConnectionMode::Process,
        connection is External <==> connection.mode_view() == ConnectionMode::External,
        connection is DBus <==> connection.pid_view() is None,
        connection matches ServerConnection::Process(process) ==> connection.pid_view() == Some(
            process.pid_view(),
        ),
        connection matches ServerConnection::External(server) ==> connection.pid_view() == Some(
            server.pid_view(),
        ),
{
}

} // verus!
