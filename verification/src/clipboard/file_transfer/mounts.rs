//! Mount points of the virtual file system: one for each server process, named by
//! its number, so that mounts of crashed processes can be recognised and removed.
use vstd::prelude::*;
use vstd::string::StringExecFns;
use crate::numbers::{
    decimal, is_digit, lemma_decimal_round_trip, number_up_to, parse_number_chars, to_decimal,
};
use crate::paths::{join_path, joined};
use crate::strings::{chars_of, text_of};
use crate::words::{
    after_last, contains_part, fields, occurs, pieces, split_fields, split_words, stands_at,
    suffix_after, words, occurs_at, lemma_occurs_is_a_split,
};

verus! {

/// The directory for run-time files: the one that the environment names, else the
/// user's own.
pub open spec fn runtime_dir_of(xdg_runtime_dir: Option<Seq<char>>, uid: u32) -> Seq<char> {
    match xdg_runtime_dir {
        Some(dir) => dir,
        None => "/run/user/"@ + decimal(uid as nat),
    }
}

/// The directory for run-time files.
pub fn runtime_dir(xdg_runtime_dir: Option<&str>, uid: u32) -> (dir: String)
    ensures
        dir@ == runtime_dir_of(
            match xdg_runtime_dir {
                Some(dir) => Some(dir@),
                None => None,
            },
            uid,
        ),
{
    match xdg_runtime_dir {
        Some(dir) => dir.to_owned(),
        None => {
            let mut dir: String = "/run/user/".to_owned();
            let number: String = to_decimal(uid as u64);
            dir.append(number.as_str());
            dir
        },
    }
}

/// The mount point of a process.
pub open spec fn mount_point_of(runtime_dir: Seq<char>, pid: u32) -> Seq<char> {
    joined(runtime_dir, "lamco-clipboard-fuse-"@ + decimal(pid as nat))
}

/// The mount point of a process.
pub fn pid_unique_mount_point(runtime_dir: &str, pid: u32) -> (path: String)
    ensures
        path@ == mount_point_of(runtime_dir@, pid),
{
    let mut name: String = "lamco-clipboard-fuse-".to_owned();
    let number: String = to_decimal(pid as u64);
    name.append(number.as_str());
    join_path(runtime_dir, name.as_str())
}

/// A mount that may be left over.
#[derive(Debug, PartialEq, Eq)]
pub struct MountCandidate {
    pub mount_point: String,
    pub pid: u32,
}

/// The mount point and the process of a line of the mount table, where the mount
/// is one of this program's, below the run-time directory, and not this process's
/// own.
pub open spec fn candidate_of(line: Seq<char>, runtime_dir: Seq<char>, own_pid: u32) -> Option<
    (Seq<char>, u32),
> {
    let entries = words(line);
    if entries.len() < 5 {
        None
    } else {
        let mount_point = entries[4];
        match number_up_to(after_last(mount_point, '-'), u32::MAX as nat) {
            Some(pid) => if occurs_at(mount_point, runtime_dir, 0) && occurs(
                mount_point,
                "lamco-clipboard-fuse-"@,
            ) && pid != own_pid {
                Some((mount_point, pid as u32))
            } else {
                None
            },
            None => None,
        }
    }
}

/// The candidates among the first `count` lines.
pub open spec fn candidates_of(
    lines: Seq<Seq<char>>,
    count: int,
    runtime_dir: Seq<char>,
    own_pid: u32,
) -> Seq<(Seq<char>, u32)>
    decreases count,
{
    if count <= 0 {
        seq![]
    } else {
        let before = candidates_of(lines, count - 1, runtime_dir, own_pid);
        match candidate_of(lines[count - 1], runtime_dir, own_pid) {
            Some(found) => before.push(found),
            None => before,
        }
    }
}

pub open spec fn candidate_views(list: Seq<MountCandidate>) -> Seq<(Seq<char>, u32)> {
    list.map_values(|candidate: MountCandidate| (candidate.mount_point@, candidate.pid))
}

fn candidate_in(line: &[char], runtime_dir: &[char], own_pid: u32) -> (found: Option<
    MountCandidate,
>)
    ensures
        match found {
            Some(candidate) => candidate_of(line@, runtime_dir@, own_pid) == Some(
                (candidate.mount_point@, candidate.pid),
            ),
            None => candidate_of(line@, runtime_dir@, own_pid) is None,
        },
{
    let entries: Vec<Vec<char>> = split_words(line);
    assert(pieces(entries@).len() == entries@.len());
    if entries.len() < 5 {
        return None;
    }
    let mount_point: &Vec<char> = &entries[4];
    assert(pieces(entries@)[4] == mount_point@);
    let marker: Vec<char> = chars_of("lamco-clipboard-fuse-");
    if !stands_at(mount_point.as_slice(), runtime_dir, 0) || !contains_part(
        mount_point.as_slice(),
        marker.as_slice(),
    ) {
        return None;
    }
    let suffix: Vec<char> = suffix_after(mount_point.as_slice(), '-');
    match parse_number_chars(suffix.as_slice(), u32::MAX as u64) {
        None => None,
        Some(pid) => {
            if pid == own_pid as u64 {
                None
            } else {
                Some(
                    MountCandidate {
                        mount_point: text_of(mount_point.as_slice()),
                        pid: pid as u32,
                    },
                )
            }
        },
    }
}

/// The mounts of the mount table that other processes of this program made.
pub fn mount_candidates(mountinfo: &str, runtime_dir: &str, own_pid: u32) -> (list: Vec<
    MountCandidate,
>)
    ensures
        ({
            let lines = fields(mountinfo@, '\n');
            candidate_views(list@) == candidates_of(
                lines,
                lines.len() as int,
                runtime_dir@,
                own_pid,
            )
        }),
{
    let table: Vec<char> = chars_of(mountinfo);
    let dir: Vec<char> = chars_of(runtime_dir);
    let lines: Vec<Vec<char>> = split_fields(table.as_slice(), '\n');
    let ghost rows = fields(mountinfo@, '\n');
    assert(rows.len() == lines@.len());
    let mut list: Vec<MountCandidate> = Vec::new();
    let mut i: usize = 0;
    assert(candidate_views(list@) =~= seq![]);
    while i < lines.len()
        invariant
            i <= lines@.len(),
            rows == pieces(lines@),
            dir@ == runtime_dir@,
            candidate_views(list@) == candidates_of(rows, i as int, runtime_dir@, own_pid),
        decreases lines@.len() - i,
    {
        assert(rows[i as int] == lines@[i as int]@);
        let ghost before = list@;
        if let Some(candidate) = candidate_in(lines[i].as_slice(), dir.as_slice(), own_pid) {
            let ghost entry = (candidate.mount_point@, candidate.pid);
            list.push(candidate);
            assert(candidate_views(list@) =~= candidate_views(before).push(entry));
        }
        i += 1;
    }
    list
}

/// Whether a mount is left over: its process is gone, or its number now belongs to
/// some other program. Where the process is there and its name cannot be read, the
/// mount is left alone.
pub open spec fn is_stale(alive: bool, comm: Option<Seq<char>>) -> bool {
    !alive || match comm {
        Some(name) => !occurs(name, "lamco"@) && !occurs(name, "rdp-server"@),
        None => false,
    }
}

/// Whether a mount is left over, given whether its process is there and the name
/// of the program that it runs.
pub fn stale(alive: bool, comm: Option<&str>) -> (stale: bool)
    ensures
        stale == is_stale(
            alive,
            match comm {
                Some(name) => Some(name@),
                None => None,
            },
        ),
{
    if !alive {
        return true;
    }
    match comm {
        None => false,
        Some(name) => {
            let chars: Vec<char> = chars_of(name);
            let first: Vec<char> = chars_of("lamco");
            let second: Vec<char> = chars_of("rdp-server");
            !contains_part(chars.as_slice(), first.as_slice()) && !contains_part(
                chars.as_slice(),
                second.as_slice(),
            )
        },
    }
}

/// The mount of a process that still runs this program is never removed, nor one
/// of a process that cannot be examined.
pub proof fn lemma_live_mounts_are_kept(comm: Seq<char>)
    ensures
        occurs(comm, "lamco"@) ==> !is_stale(true, Some(comm)),
        !is_stale(true, None),
        is_stale(false, None),
        is_stale(false, Some(comm)),
{
}

proof fn lemma_after_last_of(front: Seq<char>, tail: Seq<char>, separator: char)
    requires
        front.len() > 0,
        front.last() == separator,
        forall|i: int| 0 <= i < tail.len() ==> #[trigger] tail[i] != separator,
    ensures
        after_last(front + tail, separator) == tail,
    decreases tail.len(),
{
    let whole = front + tail;
    if tail.len() == 0 {
        assert(whole =~= front);
        assert(tail =~= seq![]);
    } else {
        let shorter = tail.drop_last();
        assert(whole.drop_last() =~= front + shorter);
        assert(whole.last() == tail.last());
        assert forall|i: int| 0 <= i < shorter.len() implies #[trigger] shorter[i] != separator by {
            assert(shorter[i] == tail[i]);
        }
        assert(tail[tail.len() - 1] != separator);
        lemma_after_last_of(front, shorter, separator);
        assert(shorter.push(tail.last()) =~= tail);
    }
}

/// The mount point of another process is recognised in the mount table, with the
/// number of that process; the mount point of this process is passed over.
pub proof fn lemma_mount_points_are_recognised(
    line: Seq<char>,
    runtime_dir: Seq<char>,
    pid: u32,
    own_pid: u32,
)
    requires
        runtime_dir.len() > 0,
        words(line).len() >= 5,
        words(line)[4] == mount_point_of(runtime_dir, pid),
    ensures
        candidate_of(line, runtime_dir, own_pid) == if pid != own_pid {
            Some((mount_point_of(runtime_dir, pid), pid))
        } else {
            None
        },
{
    reveal_strlit("lamco-clipboard-fuse-");
    let marker = "lamco-clipboard-fuse-"@;
    let digits = decimal(pid as nat);
    let mount_point = mount_point_of(runtime_dir, pid);
    lemma_decimal_round_trip(pid as nat);
    let dir = if runtime_dir.last() == '/' {
        runtime_dir
    } else {
        runtime_dir.push('/')
    };
    assert((marker + digits)[0] == 'l');
    assert(mount_point =~= (dir + marker) + digits);
    assert(mount_point.subrange(0, runtime_dir.len() as int) =~= runtime_dir);
    assert(occurs_at(mount_point, runtime_dir, 0));
    assert(mount_point.subrange(dir.len() as int, (dir.len() + marker.len()) as int) =~= marker);
    assert(occurs_at(mount_point, marker, dir.len() as int));
    assert forall|i: int| 0 <= i < digits.len() implies #[trigger] digits[i] != '-' by {
        assert(is_digit(digits[i]));
    }
    assert((dir + marker).last() == '-');
    lemma_after_last_of(dir + marker, digits, '-');
}

/// Where run-time files are kept: where the environment says, else below the user's own
/// directory, by the user's number.
pub proof fn lemma_runtime_dirs(dir: Seq<char>, uid: u32)
    ensures
        runtime_dir_of(Some(dir), uid) == dir,
        runtime_dir_of(None, uid) == "/run/user/"@ + decimal(uid as nat),
{
}

/// Every process has a mount point of its own, directly below the run-time directory,
/// and its number can be read off its end.
pub proof fn lemma_mount_points_are_distinct(dir: Seq<char>, pid: u32, other: u32)
    requires
        dir.len() > 0,
        dir.last() != '/',
    ensures
        mount_point_of(dir, pid) == dir + "/lamco-clipboard-fuse-"@ + decimal(pid as nat),
        pid != other ==> mount_point_of(dir, pid) != mount_point_of(dir, other),
{
    reveal_strlit("lamco-clipboard-fuse-");
    reveal_strlit("/lamco-clipboard-fuse-");
    let front = dir + "/lamco-clipboard-fuse-"@;
    let digits = decimal(pid as nat);
    let others = decimal(other as nat);
    lemma_decimal_round_trip(pid as nat);
    lemma_decimal_round_trip(other as nat);
    assert(("lamco-clipboard-fuse-"@ + digits)[0] == 'l');
    assert(("lamco-clipboard-fuse-"@ + others)[0] == 'l');
    assert(mount_point_of(dir, pid) =~= front + digits);
    assert(mount_point_of(dir, other) =~= front + others);
    if mount_point_of(dir, pid) == mount_point_of(dir, other) {
        assert(digits =~= (front + digits).skip(front.len() as int));
        assert(others =~= (front + others).skip(front.len() as int));
    }
}

/// Only mounts of this program below the run-time directory are candidates, never this
/// process's own, and the number is the one at the end of the mount point.
pub proof fn lemma_candidates_are_mounts_of_this_program(
    line: Seq<char>,
    runtime_dir: Seq<char>,
    own_pid: u32,
)
    requires
        candidate_of(line, runtime_dir, own_pid) is Some,
    ensures
        ({
            let (mount_point, pid) = candidate_of(line, runtime_dir, own_pid)->Some_0;
            &&& words(line).len() >= 5
            &&& mount_point == words(line)[4]
            &&& pid != own_pid
            &&& runtime_dir.is_prefix_of(mount_point)
            &&& exists|before: Seq<char>, after: Seq<char>|
                mount_point == #[trigger] (before + "lamco-clipboard-fuse-"@ + after)
            &&& number_up_to(after_last(mount_point, '-'), 0xFFFF_FFFF) == Some(pid as nat)
        }),
{
    let mount_point = words(line)[4];
    lemma_occurs_is_a_split(mount_point, "lamco-clipboard-fuse-"@);
}

/// Every line with a candidate gives one, in the order of the lines, and no other line
/// gives any.
pub proof fn lemma_every_line_is_looked_at(
    lines: Seq<Seq<char>>,
    count: int,
    runtime_dir: Seq<char>,
    own_pid: u32,
)
    requires
        0 <= count <= lines.len(),
    ensures
        forall|i: int|
            0 <= i < count && candidate_of(#[trigger] lines[i], runtime_dir, own_pid) is Some
                ==> candidates_of(lines, count, runtime_dir, own_pid).contains(
                candidate_of(lines[i], runtime_dir, own_pid)->Some_0,
            ),
        forall|k: int|
            0 <= k < candidates_of(lines, count, runtime_dir, own_pid).len() ==> exists|i: int|
                0 <= i < count && candidate_of(#[trigger] lines[i], runtime_dir, own_pid) == Some(
                    #[trigger] candidates_of(lines, count, runtime_dir, own_pid)[k],
                ),
        candidates_of(lines, count, runtime_dir, own_pid).len() <= count,
        count > 0 && candidate_of(lines[count - 1], runtime_dir, own_pid) is Some ==> candidates_of(
            lines,
            count,
            runtime_dir,
            own_pid,
        ).last() == candidate_of(lines[count - 1], runtime_dir, own_pid)->Some_0,
    decreases count,
{
    if count > 0 {
        lemma_every_line_is_looked_at(lines, count - 1, runtime_dir, own_pid);
        let before = candidates_of(lines, count - 1, runtime_dir, own_pid);
        let all = candidates_of(lines, count, runtime_dir, own_pid);
        assert forall|i: int|
            0 <= i < count && candidate_of(
                #[trigger] lines[i],
                runtime_dir,
                own_pid,
            ) is Some implies all.contains(candidate_of(lines[i], runtime_dir, own_pid)->Some_0) by {
            let found = candidate_of(lines[i], runtime_dir, own_pid)->Some_0;
            if i < count - 1 {
                assert(before.contains(found));
                let k = choose|k: int| 0 <= k < before.len() && before[k] == found;
                assert(all[k] == found);
            } else {
                assert(all[all.len() - 1] == found);
            }
        }
        assert forall|k: int| 0 <= k < all.len() implies exists|i: int|
            0 <= i < count && candidate_of(#[trigger] lines[i], runtime_dir, own_pid) == Some(
                #[trigger] all[k],
            ) by {
            if k < before.len() {
                assert(all[k] == before[k]);
                let i = choose|i: int|
                    0 <= i < count - 1 && candidate_of(#[trigger] lines[i], runtime_dir, own_pid)
                        == Some(#[trigger] before[k]);
                assert(candidate_of(lines[i], runtime_dir, own_pid) == Some(all[k]));
            } else {
                assert(candidate_of(lines[count - 1], runtime_dir, own_pid) == Some(all[k]));
            }
        }
    }
}

/// A mount is left over where its process is gone, or where the process that has its
/// number now is known to be another program: one whose name holds neither of the two
/// words of this program's names.
pub proof fn lemma_left_over_mounts(comm: Seq<char>, before: Seq<char>, after: Seq<char>)
    ensures
        is_stale(false, None),
        is_stale(false, Some(comm)),
        !is_stale(true, None),
        comm == before + "lamco"@ + after ==> !is_stale(true, Some(comm)),
        comm == before + "rdp-server"@ + after ==> !is_stale(true, Some(comm)),
        (forall|b: Seq<char>, a: Seq<char>| comm != #[trigger] (b + "lamco"@ + a)) && (forall|
            b: Seq<char>,
            a: Seq<char>,
        |
            comm != #[trigger] (b + "rdp-server"@ + a)) ==> is_stale(true, Some(comm)),
{
    lemma_occurs_is_a_split(comm, "lamco"@);
    lemma_occurs_is_a_split(comm, "rdp-server"@);
}

} // verus!
