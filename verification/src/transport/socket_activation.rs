//! Sockets that the service manager opened and passed on: which there are, under
//! which names, taken from the environment variables that describe them.
use vstd::prelude::*;
use vstd::string::StringExecFns;
use crate::numbers::{
    decimal, failure_text, lemma_decimal_round_trip, lemma_unsigned_is_number, number_up_to,
    parse_signed32, parse_unsigned, signed32_of, to_decimal, unsigned_of, ParseFailure,
};
use crate::strings::{chars_of, has_prefix, same_text, text_of};
use crate::words::{fields, lemma_fields_are_separated, pieces, split_fields};

verus! {

/// The first descriptor that is passed on.
pub const SD_LISTEN_FDS_START: i32 = 3;

/// Most descriptors that can be numbered.
pub const MAX_PASSED_FDS: usize = 0x7FFF_FFFC;

/// A descriptor that was passed on.
#[derive(Debug, PartialEq, Eq)]
pub struct ActivatedFd {
    pub name: String,
    pub raw_fd: i32,
}

/// The descriptors that were passed on and not taken yet. Each has a name of its
/// own, so each can be taken once.
#[derive(Debug)]
pub struct ActivatedFds {
    pub fds: Vec<ActivatedFd>,
}

/// Why the environment cannot be trusted.
#[derive(Debug, PartialEq, Eq)]
pub enum ActivationError {
    /// A variable is not a number.
    Parse { raw: String, reason: String },
    /// There are more or fewer names than descriptors.
    LengthMismatch { fds: usize, names: usize },
    /// The descriptors are meant for another process.
    PidMismatch { listen_pid: i32, current_pid: i32 },
    /// A name occurs twice.
    DuplicateName(String),
}

/// An activation error over sequences.
pub ghost enum ActivationFailure {
    Parse { raw: Seq<char>, reason: Seq<char> },
    LengthMismatch { fds: nat, names: nat },
    PidMismatch { listen_pid: int, current_pid: int },
    DuplicateName(Seq<char>),
}

impl View for ActivationError {
    type V = ActivationFailure;

    open spec fn view(&self) -> ActivationFailure {
        match *self {
            ActivationError::Parse { raw, reason } => ActivationFailure::Parse {
                raw: raw@,
                reason: reason@,
            },
            ActivationError::LengthMismatch { fds, names } => ActivationFailure::LengthMismatch {
                fds: fds as nat,
                names: names as nat,
            },
            ActivationError::PidMismatch { listen_pid, current_pid } => {
                ActivationFailure::PidMismatch {
                    listen_pid: listen_pid as int,
                    current_pid: current_pid as int,
                }
            },
            ActivationError::DuplicateName(name) => ActivationFailure::DuplicateName(name@),
        }
    }
}

/// An optional text as an optional sequence.
pub open spec fn text_view(text: Option<&str>) -> Option<Seq<char>> {
    match text {
        Some(text) => Some(text@),
        None => None,
    }
}

/// The names of `count` descriptors: those that are given, between colons, else
/// positional ones.
pub open spec fn resolved_names(names: Option<Seq<char>>, count: nat) -> Seq<Seq<char>> {
    match names {
        Some(raw) => fields(raw, ':'),
        None => Seq::new(count, |i: int| "unknown."@ + decimal(i as nat)),
    }
}

/// The first name that stood earlier in the list already.
pub open spec fn first_repeat(names: Seq<Seq<char>>, from: int) -> Option<Seq<char>>
    decreases names.len() - from,
{
    if from < 0 || from >= names.len() {
        None
    } else if names.take(from).contains(names[from]) {
        Some(names[from])
    } else {
        first_repeat(names, from + 1)
    }
}

/// The descriptors that the environment describes, with their names, or what is
/// wrong with it. Nothing is taken where anything is wrong.
pub open spec fn activation_of(
    listen_fds: Option<Seq<char>>,
    listen_fdnames: Option<Seq<char>>,
    listen_pid: Option<Seq<char>>,
    current_pid: int,
) -> Result<Seq<Seq<char>>, ActivationFailure> {
    match listen_fds {
        None => Ok(seq![]),
        Some(raw) => match unsigned_of(raw, usize::MAX as nat) {
            Err(failure) => Err(
                ActivationFailure::Parse {
                    raw,
                    reason: "not a non-negative integer: "@ + failure_text(failure),
                },
            ),
            Ok(count) => if count == 0 {
                Ok(seq![])
            } else {
                match pid_failure(listen_pid, current_pid) {
                    Some(failure) => Err(failure),
                    None => {
                        let names = resolved_names(listen_fdnames, count);
                        if names.len() != count {
                            Err(
                                ActivationFailure::LengthMismatch { fds: count, names: names.len() },
                            )
                        } else {
                            match first_repeat(names, 0) {
                                Some(name) => Err(ActivationFailure::DuplicateName(name)),
                                None => Ok(names),
                            }
                        }
                    },
                }
            },
        },
    }
}

/// What is wrong with the process number, where one is given.
pub open spec fn pid_failure(listen_pid: Option<Seq<char>>, current_pid: int) -> Option<
    ActivationFailure,
> {
    match listen_pid {
        None => None,
        Some(raw) => match signed32_of(raw) {
            Err(failure) => Some(
                ActivationFailure::Parse {
                    raw,
                    reason: "LISTEN_PID not an integer: "@ + failure_text(failure),
                },
            ),
            Ok(pid) => if pid != current_pid {
                Some(ActivationFailure::PidMismatch { listen_pid: pid, current_pid })
            } else {
                None
            },
        },
    }
}

pub open spec fn names_of(fds: Seq<ActivatedFd>) -> Seq<Seq<char>> {
    fds.map_values(|fd: ActivatedFd| fd.name@)
}

pub open spec fn is_named(fds: Seq<ActivatedFd>, name: Seq<char>, i: int) -> bool {
    0 <= i < fds.len() && fds[i].name@ == name
}

/// A name that stands for a position.
pub open spec fn is_positional(name: Seq<char>) -> bool {
    "unknown."@.is_prefix_of(name)
}

/// The first position from `from` on whose name is positional.
pub open spec fn first_positional(fds: Seq<ActivatedFd>, from: int) -> int
    decreases fds.len() - from,
{
    if from < 0 || from >= fds.len() {
        fds.len() as int
    } else if is_positional(fds[from].name@) {
        from
    } else {
        first_positional(fds, from + 1)
    }
}

/// Where a passed socket listens.
#[derive(Clone, Copy, Debug, PartialEq, Eq)]
pub enum LocalAddress {
    /// On an IP address.
    Inet { loopback: bool },
    /// On something that is not reachable over IP.
    NotInet,
    /// It cannot be said.
    Unreadable,
}

/// A listener that others may reach, or that cannot be shown to be safe.
pub open spec fn is_routable(address: LocalAddress) -> bool {
    match address {
        LocalAddress::Inet { loopback } => !loopback,
        LocalAddress::NotInet => false,
        LocalAddress::Unreadable => true,
    }
}

proof fn lemma_no_repeat(names: Seq<Seq<char>>, from: int)
    requires
        0 <= from <= names.len(),
        first_repeat(names, from) is None,
    ensures
        forall|i: int, j: int| 0 <= i < j < names.len() && from <= j ==> names[i] != names[j],
    decreases names.len() - from,
{
    if from < names.len() {
        lemma_no_repeat(names, from + 1);
        assert forall|i: int, j: int| 0 <= i < j < names.len() && from <= j implies names[i]
            != names[j] by {
            if j == from {
                assert(names.take(from)[i] == names[i]);
                assert(!names.take(from).contains(names[from]));
            }
        }
    }
}

fn prefixed_failure(prefix: &str, failure: ParseFailure) -> (reason: String)
    ensures
        reason@ == prefix@ + failure_text(failure),
{
    let mut reason: String = prefix.to_owned();
    reason.append(failure.message());
    reason
}

fn check_pid(listen_pid: Option<&str>, current_pid: i32) -> (checked: Result<(), ActivationError>)
    ensures
        match pid_failure(text_view(listen_pid), current_pid as int) {
            Some(failure) => checked is Err && checked->Err_0@ == failure,
            None => checked is Ok,
        },
{
    match listen_pid {
        None => Ok(()),
        Some(raw) => {
            let chars: Vec<char> = chars_of(raw);
            match parse_signed32(chars.as_slice()) {
                Err(failure) => Err(
                    ActivationError::Parse {
                        raw: raw.to_owned(),
                        reason: prefixed_failure("LISTEN_PID not an integer: ", failure),
                    },
                ),
                Ok(pid) => {
                    if pid != current_pid {
                        Err(ActivationError::PidMismatch { listen_pid: pid, current_pid })
                    } else {
                        Ok(())
                    }
                },
            }
        },
    }
}

pub open spec fn string_views(list: Seq<String>) -> Seq<Seq<char>> {
    list.map_values(|text: String| text@)
}

fn resolve_names(listen_fdnames: Option<&str>, count: usize) -> (names: Vec<String>)
    ensures
        string_views(names@) == resolved_names(text_view(listen_fdnames), count as nat),
{
    let ghost wanted = resolved_names(text_view(listen_fdnames), count as nat);
    let mut names: Vec<String> = Vec::new();
    match listen_fdnames {
        Some(raw) => {
            let chars: Vec<char> = chars_of(raw);
            let list: Vec<Vec<char>> = split_fields(chars.as_slice(), ':');
            let mut i: usize = 0;
            while i < list.len()
                invariant
                    i <= list@.len(),
                    wanted == pieces(list@),
                    string_views(names@) == wanted.take(i as int),
                decreases list@.len() - i,
            {
                let ghost before = names@;
                names.push(text_of(list[i].as_slice()));
                assert(string_views(names@) =~= string_views(before).push(list@[i as int]@));
                i += 1;
                assert(string_views(names@) =~= wanted.take(i as int));
            }
            assert(wanted.take(wanted.len() as int) =~= wanted);
        },
        None => {
            let mut i: usize = 0;
            while i < count
                invariant
                    i <= count,
                    wanted == Seq::new(count as nat, |i: int| "unknown."@ + decimal(i as nat)),
                    string_views(names@) == wanted.take(i as int),
                decreases count - i,
            {
                let mut name: String = "unknown.".to_owned();
                let number: String = to_decimal(i as u64);
                name.append(number.as_str());
                let ghost before = names@;
                let ghost text = name@;
                names.push(name);
                assert(string_views(names@) =~= string_views(before).push(text));
                i += 1;
                assert(string_views(names@) =~= wanted.take(i as int));
            }
            assert(wanted.take(wanted.len() as int) =~= wanted);
        },
    }
    names
}

fn find_repeat(names: &Vec<String>) -> (found: Option<usize>)
    ensures
        match found {
            Some(i) => i < names@.len() && first_repeat(string_views(names@), 0) == Some(
                names@[i as int]@,
            ),
            None => first_repeat(string_views(names@), 0) is None,
        },
{
    let ghost views = string_views(names@);
    let mut i: usize = 0;
    while i < names.len()
        invariant
            i <= names@.len(),
            views == string_views(names@),
            first_repeat(views, 0) == first_repeat(views, i as int),
        decreases names@.len() - i,
    {
        let mut j: usize = 0;
        while j < i
            invariant
                j <= i < names@.len(),
                views == string_views(names@),
                first_repeat(views, 0) == first_repeat(views, i as int),
                forall|k: int| 0 <= k < j ==> views[k] != views[i as int],
            decreases i - j,
        {
            if same_text(names[j].as_str(), names[i].as_str()) {
                assert(views.take(i as int)[j as int] == views[i as int]);
                return Some(i);
            }
            j += 1;
        }
        assert(!views.take(i as int).contains(views[i as int]));
        i += 1;
    }
    None
}

impl ActivatedFds {
    /// No name occurs twice.
    pub open spec fn well_formed(&self) -> bool {
        forall|i: int, j: int|
            0 <= i < j < self.fds@.len() ==> self.fds@[i].name@ != self.fds@[j].name@
    }

    /// Reads what the environment says of passed descriptors: their number, their
    /// names and the process that they are meant for. Empty where none are passed.
    pub fn from_values(
        listen_fds: Option<&str>,
        listen_fdnames: Option<&str>,
        listen_pid: Option<&str>,
        current_pid: i32,
    ) -> (outcome: Result<Self, ActivationError>)
        requires
            activation_of(
                text_view(listen_fds),
                text_view(listen_fdnames),
                text_view(listen_pid),
                current_pid as int,
            ) matches Ok(names) ==> names.len() <= MAX_PASSED_FDS,
        ensures
            match activation_of(
                text_view(listen_fds),
                text_view(listen_fdnames),
                text_view(listen_pid),
                current_pid as int,
            ) {
                Ok(names) => {
                    &&& outcome is Ok
                    &&& outcome->Ok_0.well_formed()
                    &&& names_of(outcome->Ok_0.fds@) == names
                    &&& forall|i: int|
                        0 <= i < names.len() ==> #[trigger] outcome->Ok_0.fds@[i].raw_fd
                            == SD_LISTEN_FDS_START + i
                },
                Err(failure) => outcome is Err && outcome->Err_0@ == failure,
            },
    {
        let raw: &str = match listen_fds {
            None => {
                let none = ActivatedFds { fds: Vec::new() };
                assert(names_of(none.fds@) =~= seq![]);
                return Ok(none);
            },
            Some(raw) => raw,
        };
        let chars: Vec<char> = chars_of(raw);
        let count: usize = match parse_unsigned(chars.as_slice(), usize::MAX as u64) {
            Err(failure) => {
                return Err(
                    ActivationError::Parse {
                        raw: raw.to_owned(),
                        reason: prefixed_failure("not a non-negative integer: ", failure),
                    },
                );
            },
            Ok(count) => count as usize,
        };
        if count == 0 {
            let none = ActivatedFds { fds: Vec::new() };
            assert(names_of(none.fds@) =~= seq![]);
            return Ok(none);
        }
        match check_pid(listen_pid, current_pid) {
            Err(error) => {
                return Err(error);
            },
            Ok(()) => {},
        }
        let names: Vec<String> = resolve_names(listen_fdnames, count);
        let ghost views = string_views(names@);
        assert(views.len() == names@.len());
        if names.len() != count {
            return Err(ActivationError::LengthMismatch { fds: count, names: names.len() });
        }
        match find_repeat(&names) {
            Some(i) => {
                return Err(ActivationError::DuplicateName(names[i].clone()));
            },
            None => {},
        }
        proof {
            lemma_no_repeat(views, 0);
            assert(count <= MAX_PASSED_FDS);
        }
        let mut fds: Vec<ActivatedFd> = Vec::new();
        let mut i: usize = 0;
        while i < count
            invariant
                i <= count == names@.len(),
                count <= MAX_PASSED_FDS,
                views == string_views(names@),
                fds@.len() == i,
                forall|k: int| 0 <= k < i ==> #[trigger] fds@[k].name@ == views[k],
                forall|k: int| 0 <= k < i ==> #[trigger] fds@[k].raw_fd == SD_LISTEN_FDS_START + k,
            decreases count - i,
        {
            fds.push(
                ActivatedFd { name: names[i].clone(), raw_fd: SD_LISTEN_FDS_START + i as i32 },
            );
            i += 1;
        }
        let activated = ActivatedFds { fds };
        assert(names_of(activated.fds@) =~= views);
        assert forall|a: int, b: int| 0 <= a < b < activated.fds@.len() implies
            activated.fds@[a].name@ != activated.fds@[b].name@ by {
            assert(views[a] != views[b]);
        }
        Ok(activated)
    }

    fn remove_at(&mut self, i: usize) -> (raw_fd: i32)
        requires
            old(self).well_formed(),
            i < old(self).fds@.len(),
        ensures
            final(self).well_formed(),
            final(self).fds@ == old(self).fds@.remove(i as int),
            raw_fd == old(self).fds@[i as int].raw_fd,
            forall|k: int|
                !is_named(final(self).fds@, old(self).fds@[i as int].name@, k),
    {
        let ghost before = self.fds@;
        let fd = self.fds.remove(i);
        assert forall|a: int, b: int| 0 <= a < b < self.fds@.len() implies self.fds@[a].name@
            != self.fds@[b].name@ by {
            let c = if a < i { a } else { a + 1 };
            let d = if b < i { b } else { b + 1 };
            assert(before[c].name@ != before[d].name@);
        }
        assert forall|k: int| !is_named(self.fds@, before[i as int].name@, k) by {
            if 0 <= k < self.fds@.len() {
                let c = if k < i { k } else { k + 1 };
                if c < i {
                    assert(before[c].name@ != before[i as int].name@);
                } else {
                    assert(before[i as int].name@ != before[c].name@);
                }
            }
        }
        fd.raw_fd
    }

    fn find(&self, name: &str) -> (found: Option<usize>)
        ensures
            match found {
                Some(i) => is_named(self.fds@, name@, i as int),
                None => forall|i: int| !#[trigger] is_named(self.fds@, name@, i),
            },
    {
        let mut i: usize = 0;
        while i < self.fds.len()
            invariant
                i <= self.fds@.len(),
                forall|k: int| 0 <= k < i ==> !#[trigger] is_named(self.fds@, name@, k),
            decreases self.fds@.len() - i,
        {
            if same_text(self.fds[i].name.as_str(), name) {
                return Some(i);
            }
            i += 1;
        }
        None
    }

    fn find_positional(&self) -> (i: usize)
        ensures
            i == first_positional(self.fds@, 0),
            i <= self.fds@.len(),
            i < self.fds@.len() ==> is_positional(self.fds@[i as int].name@),
            forall|k: int| 0 <= k < i ==> !is_positional(#[trigger] self.fds@[k].name@),
    {
        let mut i: usize = 0;
        while i < self.fds.len()
            invariant
                i <= self.fds@.len(),
                first_positional(self.fds@, 0) == first_positional(self.fds@, i as int),
                forall|k: int| 0 <= k < i ==> !is_positional(#[trigger] self.fds@[k].name@),
            decreases self.fds@.len() - i,
        {
            if has_prefix(self.fds[i].name.as_str(), "unknown.") {
                return i;
            }
            i += 1;
        }
        i
    }

    /// Takes the descriptor with a name. It cannot be taken again.
    pub fn take(&mut self, name: &str) -> (raw_fd: Option<i32>)
        requires
            old(self).well_formed(),
        ensures
            final(self).well_formed(),
            match raw_fd {
                Some(fd) => exists|i: int|
                    {
                        &&& #[trigger] is_named(old(self).fds@, name@, i)
                        &&& fd == old(self).fds@[i].raw_fd
                        &&& final(self).fds@ == old(self).fds@.remove(i)
                    },
                None => (forall|i: int| !#[trigger] is_named(old(self).fds@, name@, i))
                    && final(self).fds@ == old(self).fds@,
            },
            forall|i: int| !#[trigger] is_named(final(self).fds@, name@, i),
    {
        match self.find(name) {
            Some(i) => Some(self.remove_at(i)),
            None => None,
        }
    }

    /// Takes the first descriptor that has a positional name.
    pub fn take_first_unknown(&mut self) -> (raw_fd: Option<i32>)
        requires
            old(self).well_formed(),
        ensures
            final(self).well_formed(),
            ({
                let i = first_positional(old(self).fds@, 0);
                if i < old(self).fds@.len() {
                    &&& raw_fd == Some(old(self).fds@[i].raw_fd)
                    &&& is_positional(old(self).fds@[i].name@)
                    &&& final(self).fds@ == old(self).fds@.remove(i)
                } else {
                    &&& raw_fd is None
                    &&& final(self).fds@ == old(self).fds@
                    &&& forall|k: int|
                        0 <= k < old(self).fds@.len() ==> !is_positional(
                            #[trigger] old(self).fds@[k].name@,
                        )
                }
            }),
    {
        let i: usize = self.find_positional();
        if i < self.fds.len() {
            Some(self.remove_at(i))
        } else {
            None
        }
    }

    /// Takes the first descriptor, whatever its name.
    pub fn take_first(&mut self) -> (raw_fd: Option<i32>)
        requires
            old(self).well_formed(),
        ensures
            final(self).well_formed(),
            if old(self).fds@.len() > 0 {
                raw_fd == Some(old(self).fds@[0].raw_fd) && final(self).fds@ == old(
                    self,
                ).fds@.remove(0)
            } else {
                raw_fd is None && final(self).fds@ == old(self).fds@
            },
    {
        if self.fds.len() > 0 {
            Some(self.remove_at(0))
        } else {
            None
        }
    }

    /// Whether nothing is left to take.
    pub fn is_empty(&self) -> (empty: bool)
        ensures
            empty == (self.fds@.len() == 0),
    {
        self.fds.len() == 0
    }

    /// How many descriptors are left.
    pub fn len(&self) -> (count: usize)
        ensures
            count == self.fds@.len(),
    {
        self.fds.len()
    }

    /// The names of what is left.
    pub fn remaining_names(&self) -> (names: Vec<String>)
        ensures
            string_views(names@) == names_of(self.fds@),
    {
        let mut names: Vec<String> = Vec::new();
        let mut i: usize = 0;
        assert(string_views(names@) =~= names_of(self.fds@).take(0));
        while i < self.fds.len()
            invariant
                i <= self.fds@.len(),
                string_views(names@) == names_of(self.fds@).take(i as int),
            decreases self.fds@.len() - i,
        {
            let ghost before = names@;
            names.push(self.fds[i].name.clone());
            assert(string_views(names@) =~= string_views(before).push(self.fds@[i as int].name@));
            i += 1;
            assert(string_views(names@) =~= names_of(self.fds@).take(i as int));
        }
        assert(names_of(self.fds@).take(self.fds@.len() as int) =~= names_of(self.fds@));
        names
    }

    /// Whether one of the descriptors will become the TCP listener: the one that is
    /// named so, or one with a positional name.
    pub fn provides_tcp_listener(&self) -> (provides: bool)
        ensures
            provides == (exists|i: int|
                0 <= i < self.fds@.len() && (self.fds@[i].name@ == "tcp"@ || is_positional(
                    #[trigger] self.fds@[i].name@,
                ))),
    {
        let i: usize = self.find_positional();
        if i < self.fds.len() {
            return true;
        }
        match self.find("tcp") {
            Some(i) => {
                assert(self.fds@[i as int].name@ == "tcp"@);
                true
            },
            None => {
                assert forall|k: int| 0 <= k < self.fds@.len() implies #[trigger] self.fds@[k].name@
                    != "tcp"@ by {
                    assert(!is_named(self.fds@, "tcp"@, k));
                }
                false
            },
        }
    }

    /// Whether any of the sockets that are left listens where others may reach it,
    /// given where each of them listens. What cannot be read counts as reachable.
    pub fn has_routable_inet_listener(&self, addresses: &[LocalAddress]) -> (routable: bool)
        requires
            addresses@.len() == self.fds@.len(),
        ensures
            routable == (exists|i: int| 0 <= i < addresses@.len() && is_routable(#[trigger] addresses@[i])),
    {
        let mut i: usize = 0;
        while i < addresses.len()
            invariant
                i <= addresses@.len(),
                forall|k: int| 0 <= k < i ==> !is_routable(#[trigger] addresses@[k]),
            decreases addresses@.len() - i,
        {
            let routable: bool = match addresses[i] {
                LocalAddress::Inet { loopback } => !loopback,
                LocalAddress::NotInet => false,
                LocalAddress::Unreadable => true,
            };
            if routable {
                assert(is_routable(addresses@[i as int]));
                return true;
            }
            i += 1;
        }
        false
    }
}

/// Descriptors that are meant for another process are never taken.
pub proof fn lemma_foreign_descriptors_are_refused(
    listen_fds: Option<Seq<char>>,
    listen_fdnames: Option<Seq<char>>,
    listen_pid: Seq<char>,
    current_pid: int,
)
    requires
        signed32_of(listen_pid) != Ok::<int, ParseFailure>(current_pid),
    ensures
        match activation_of(listen_fds, listen_fdnames, Some(listen_pid), current_pid) {
            Ok(names) => names.len() == 0,
            Err(_) => true,
        },
{
}

// ---------------------------------------------------------------------------
// Laws
// ---------------------------------------------------------------------------

/// Names are given between colons, or count up from zero where none are given.
pub proof fn lemma_names_of_descriptors(first: Seq<char>, rest: Seq<char>, count: nat, i: int)
    requires
        !first.contains(':'),
        0 <= i < count,
    ensures
        resolved_names(Some(first), count) == seq![first],
        resolved_names(Some(first.push(':') + rest), count) == seq![first] + resolved_names(
            Some(rest),
            count,
        ),
        resolved_names(None, count).len() == count,
        resolved_names(None, count)[i] == "unknown."@ + decimal(i as nat),
{
    lemma_fields_are_separated(first, ':', rest);
}

/// A repeated name is found where there is one, and it is the first that stands in the
/// list for a second time.
pub proof fn lemma_repeats_are_found(names: Seq<Seq<char>>, from: int, j: int)
    requires
        0 <= from <= j < names.len(),
        exists|i: int| 0 <= i < j && names[i] == names[j],
        forall|a: int, b: int| 0 <= a < b < j && from <= b ==> names[a] != names[b],
    ensures
        first_repeat(names, from) == Some(names[j]),
    decreases j - from,
{
    if from == j {
        let i = choose|i: int| 0 <= i < j && names[i] == names[j];
        assert(names.take(j)[i] == names[j]);
    } else {
        if names.take(from).contains(names[from]) {
            let a = choose|a: int| 0 <= a < from && names.take(from)[a] == names[from];
            assert(names[a] == names[from]);
        }
        lemma_repeats_are_found(names, from + 1, j);
    }
}

/// Without repeats none is found.
pub proof fn lemma_no_repeat_is_found(names: Seq<Seq<char>>, from: int)
    requires
        0 <= from <= names.len(),
        names.no_duplicates(),
    ensures
        first_repeat(names, from) is None,
    decreases names.len() - from,
{
    if from < names.len() {
        if names.take(from).contains(names[from]) {
            let a = choose|a: int| 0 <= a < from && names.take(from)[a] == names[from];
            assert(names[a] == names[from]);
        }
        lemma_no_repeat_is_found(names, from + 1);
    }
}

/// Descriptors are taken as the environment describes them: as many as it says, under
/// the names that it gives, each once, and only where they are meant for this process or
/// for nobody in particular.
pub proof fn lemma_descriptors_are_as_described(
    listen_fds: Option<Seq<char>>,
    listen_fdnames: Option<Seq<char>>,
    listen_pid: Option<Seq<char>>,
    current_pid: int,
    names: Seq<Seq<char>>,
)
    requires
        activation_of(listen_fds, listen_fdnames, listen_pid, current_pid) == Ok::<
            Seq<Seq<char>>,
            ActivationFailure,
        >(names),
        names.len() > 0,
    ensures
        listen_fds is Some,
        number_up_to(listen_fds->Some_0, usize::MAX as nat) == Some(names.len()),
        listen_fdnames matches Some(raw) ==> names == fields(raw, ':'),
        listen_fdnames is None ==> forall|i: int|
            0 <= i < names.len() ==> #[trigger] names[i] == "unknown."@ + decimal(i as nat),
        names.no_duplicates(),
        listen_pid matches Some(pid) ==> signed32_of(pid) == Ok::<int, ParseFailure>(current_pid),
{
    lemma_unsigned_is_number(listen_fds->Some_0, usize::MAX as nat);
    lemma_no_repeat(names, 0);
    assert forall|i: int, j: int|
        0 <= i < names.len() && 0 <= j < names.len() && i != j implies names[i] != names[j] by {
        if i < j {
            assert(names[i] != names[j]);
        } else {
            assert(names[j] != names[i]);
        }
    }
}

/// What is described rightly is taken: a number, as many distinct names, and the number
/// of this process or none.
pub proof fn lemma_good_descriptions_are_taken(
    count: nat,
    raw_names: Seq<char>,
    listen_pid: Option<Seq<char>>,
    current_pid: int,
)
    requires
        0 < count <= usize::MAX,
        fields(raw_names, ':').len() == count,
        fields(raw_names, ':').no_duplicates(),
        listen_pid matches Some(pid) ==> signed32_of(pid) == Ok::<int, ParseFailure>(current_pid),
    ensures
        activation_of(Some(decimal(count)), Some(raw_names), listen_pid, current_pid) == Ok::<
            Seq<Seq<char>>,
            ActivationFailure,
        >(fields(raw_names, ':')),
{
    lemma_decimal_round_trip(count);
    lemma_unsigned_is_number(decimal(count), usize::MAX as nat);
    lemma_no_repeat_is_found(fields(raw_names, ':'), 0);
}

/// Without a number of descriptors, or with the number zero, there are none, whatever
/// else the environment says.
pub proof fn lemma_nothing_is_passed(
    listen_fdnames: Option<Seq<char>>,
    listen_pid: Option<Seq<char>>,
    current_pid: int,
)
    ensures
        activation_of(None, listen_fdnames, listen_pid, current_pid) == Ok::<
            Seq<Seq<char>>,
            ActivationFailure,
        >(Seq::empty()),
        activation_of(Some(decimal(0)), listen_fdnames, listen_pid, current_pid) == Ok::<
            Seq<Seq<char>>,
            ActivationFailure,
        >(Seq::empty()),
{
    lemma_decimal_round_trip(0);
    lemma_unsigned_is_number(decimal(0), usize::MAX as nat);
}

/// Each thing that is wrong is reported as what it is: a number that is none, a process
/// number that is none, descriptors of another process, too many or too few names, and
/// a name that is given twice.
pub proof fn lemma_bad_descriptions_are_refused(
    listen_fds: Seq<char>,
    listen_fdnames: Option<Seq<char>>,
    listen_pid: Option<Seq<char>>,
    current_pid: int,
)
    ensures
        ({
            let outcome = activation_of(
                Some(listen_fds),
                listen_fdnames,
                listen_pid,
                current_pid,
            );
            let count = number_up_to(listen_fds, usize::MAX as nat);
            let pid_fits = listen_pid matches Some(pid) ==> signed32_of(pid) == Ok::<
                int,
                ParseFailure,
            >(current_pid);
            let names = resolved_names(listen_fdnames, count->Some_0);
            &&& count is None ==> outcome is Err && outcome->Err_0 is Parse
                && outcome->Err_0->raw == listen_fds && "not a non-negative integer: "@.is_prefix_of(
                outcome->Err_0->reason,
            )
            &&& unsigned_of(listen_fds, usize::MAX as nat) matches Err(failure)
                ==> outcome->Err_0->reason == "not a non-negative integer: "@ + failure_text(
                failure,
            )
            &&& count is Some && count->Some_0 > 0 && listen_pid is Some && signed32_of(
                listen_pid->Some_0,
            ) is Err ==> outcome is Err && outcome->Err_0 is Parse && outcome->Err_0->raw
                == listen_pid->Some_0 && outcome->Err_0->reason == "LISTEN_PID not an integer: "@
                + failure_text(signed32_of(listen_pid->Some_0)->Err_0)
            &&& count is Some && count->Some_0 > 0 && listen_pid is Some && signed32_of(
                listen_pid->Some_0,
            ) is Ok && !pid_fits ==> outcome == Err::<Seq<Seq<char>>, _>(
                ActivationFailure::PidMismatch {
                    listen_pid: signed32_of(listen_pid->Some_0)->Ok_0,
                    current_pid,
                },
            )
            &&& count is Some && count->Some_0 > 0 && pid_fits && names.len() != count->Some_0
                ==> outcome == Err::<Seq<Seq<char>>, _>(
                ActivationFailure::LengthMismatch { fds: count->Some_0, names: names.len() },
            )
            &&& count is Some && count->Some_0 > 0 && pid_fits && names.len() == count->Some_0
                && !names.no_duplicates() ==> outcome is Err && outcome->Err_0 is DuplicateName
        }),
{
    lemma_unsigned_is_number(listen_fds, usize::MAX as nat);
    let count = number_up_to(listen_fds, usize::MAX as nat);
    let names = resolved_names(listen_fdnames, count->Some_0);
    if !names.no_duplicates() && first_repeat(names, 0) is None {
        lemma_no_repeat(names, 0);
        assert forall|i: int, j: int|
            0 <= i < names.len() && 0 <= j < names.len() && i != j implies names[i] != names[j] by {
            if i < j {
                assert(names[i] != names[j]);
            } else {
                assert(names[j] != names[i]);
            }
        }
    }
}

/// The first positional name is found: nothing in front of it is positional.
pub proof fn lemma_positional_names_are_found(fds: Seq<ActivatedFd>, from: int)
    requires
        0 <= from <= fds.len(),
    ensures
        from <= first_positional(fds, from) <= fds.len(),
        first_positional(fds, from) < fds.len() ==> "unknown."@.is_prefix_of(
            fds[first_positional(fds, from)].name@,
        ),
        forall|i: int|
            from <= i < first_positional(fds, from) ==> !"unknown."@.is_prefix_of(
                (#[trigger] fds[i]).name@,
            ),
    decreases fds.len() - from,
{
    if from < fds.len() && !is_positional(fds[from].name@) {
        lemma_positional_names_are_found(fds, from + 1);
    }
}

/// Others reach what listens beyond the loopback address, and nothing that is not on IP;
/// what cannot be read may be reached.
pub proof fn lemma_reachable_listeners()
    ensures
        is_routable(LocalAddress::Inet { loopback: false }),
        !is_routable(LocalAddress::Inet { loopback: true }),
        !is_routable(LocalAddress::NotInet),
        is_routable(LocalAddress::Unreadable),
{
}

/// Names made up from a position begin with one word and a dot, whatever follows.
pub proof fn lemma_positional_names_begin_alike(rest: Seq<char>, name: Seq<char>)
    ensures
        is_positional(seq!['u', 'n', 'k', 'n', 'o', 'w', 'n', '.'] + rest),
        is_positional(name) ==> name.len() >= 8 && name.take(8) == seq![
            'u',
            'n',
            'k',
            'n',
            'o',
            'w',
            'n',
            '.',
        ],
{
    reveal_strlit("unknown.");
    let word = seq!['u', 'n', 'k', 'n', 'o', 'w', 'n', '.'];
    assert("unknown."@ =~= word);
    assert((word + rest).take(8) =~= word);
}

/// A descriptor has a name where that name is the descriptor's own.
pub proof fn lemma_descriptors_have_their_own_name(fds: Seq<ActivatedFd>, name: Seq<char>, i: int)
    ensures
        is_named(fds, name, i) <==> 0 <= i < fds.len() && fds[i].name@ == name,
        0 <= i < fds.len() ==> names_of(fds)[i] == fds[i].name@,
        names_of(fds).len() == fds.len(),
{
}

} // verus!
