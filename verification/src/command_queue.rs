//! The debounce/dispatch queue: collects accepted file updates, waits for a
//! quiet window, and turns the pending set into command invocations.
//!
//! The queue itself is a pure state machine over (message, now) steps; the
//! caller owns the clock, the channels and the processes.

use vstd::prelude::*;

use crate::errors::ArgumentError;
use crate::filter::file_name_or_empty;
use crate::strutil::{contains_str, join_strings, joined, replace_str, replaced, contains_sub};

verus! {

/// Messages issued to the command queue
#[derive(Debug)]
pub enum QueueMessage {
    /// Tell the queue to stop.
    Abort,
    /// Tell the queue to wait longer before executing the file update command
    RestartBackoff,
    /// Insert an update of a file.
    /// First field is the updated file / Second is the top level watch
    AddFile(String, String),
}

/// One command to run: its id, the command line after substitution, the
/// base names for display, and the paths it targets.
#[derive(Debug)]
pub struct Invocation {
    /// Monotonic id, assigned in dispatch order.
    pub command_number: usize,
    /// The command template with its placeholder substituted.
    pub command_line: String,
    /// The base names of the targeted files.
    pub files: Vec<String>,
    /// The full paths of the targeted files.
    pub paths: Vec<String>,
}

/// Pairwise-distinct entries.
pub open spec fn distinct_pairs(s: Seq<(Seq<char>, Seq<char>)>) -> bool {
    forall|i: int, j: int| 0 <= i < j < s.len() ==> s[i] != s[j]
}

/// The paths of the pending entries.
pub open spec fn firsts(s: Seq<(Seq<char>, Seq<char>)>) -> Seq<Seq<char>> {
    s.map_values(|p: (Seq<char>, Seq<char>)| p.0)
}

/// The entries selected by a mask.
pub open spec fn filter_mask(s: Seq<(Seq<char>, Seq<char>)>, m: Seq<bool>) -> Seq<
    (Seq<char>, Seq<char>),
>
    recommends
        s.len() == m.len(),
    decreases s.len(),
{
    if s.len() == 0 {
        Seq::empty()
    } else {
        (if m[0] {
            seq![s[0]]
        } else {
            Seq::empty()
        }) + filter_mask(s.skip(1), m.skip(1))
    }
}

proof fn lemma_filter_mask_props(s: Seq<(Seq<char>, Seq<char>)>, m: Seq<bool>)
    requires
        s.len() == m.len(),
    ensures
        forall|x: (Seq<char>, Seq<char>)|
            filter_mask(s, m).contains(x) ==> #[trigger] s.contains(x),
        distinct_pairs(s) ==> distinct_pairs(filter_mask(s, m)),
        filter_mask(s, m).len() <= s.len(),
    decreases s.len(),
{
    if s.len() == 0 {
    } else {
        lemma_filter_mask_props(s.skip(1), m.skip(1));
        let rest = filter_mask(s.skip(1), m.skip(1));
        let whole = filter_mask(s, m);
        assert forall|x: (Seq<char>, Seq<char>)| whole.contains(x) implies s.contains(x) by {
            let k = choose|k: int| 0 <= k < whole.len() && whole[k] == x;
            if m[0] {
                if k == 0 {
                    assert(s[0] == x);
                } else {
                    assert(rest[k - 1] == x);
                    assert(rest.contains(x));
                    assert(s.skip(1).contains(x));
                    let k2 = choose|k2: int| 0 <= k2 < s.skip(1).len() && s.skip(1)[k2] == x;
                    assert(s[k2 + 1] == x);
                }
            } else {
                assert(rest[k] == x);
                assert(rest.contains(x));
                assert(s.skip(1).contains(x));
                let k2 = choose|k2: int| 0 <= k2 < s.skip(1).len() && s.skip(1)[k2] == x;
                assert(s[k2 + 1] == x);
            }
        }
        if distinct_pairs(s) {
            assert forall|i: int, j: int| 0 <= i < j < s.skip(1).len() implies s.skip(1)[i]
                != s.skip(1)[j] by {
                assert(s[i + 1] != s[j + 1]);
            }
            assert(distinct_pairs(s.skip(1)));
            assert forall|i: int, j: int| 0 <= i < j < whole.len() implies whole[i] != whole[j] by {
                if m[0] {
                    if i == 0 {
                        assert(whole[j] == rest[j - 1]);
                        assert(rest.contains(rest[j - 1]));
                        assert(s.skip(1).contains(whole[j]));
                        let k2 = choose|k2: int|
                            0 <= k2 < s.skip(1).len() && s.skip(1)[k2] == whole[j];
                        assert(s[k2 + 1] == whole[j]);
                        assert(s[0] != s[k2 + 1]);
                    } else {
                        assert(whole[i] == rest[i - 1] && whole[j] == rest[j - 1]);
                    }
                } else {
                    assert(whole[i] == rest[i] && whole[j] == rest[j]);
                }
            }
        }
    }
}

/// Files that have been updated - pending command execution.
/// The first path of an entry is the file, the second the watched file/dir.
pub struct CommandQueue {
    /// Command to execute, with its placeholders.
    pub command: String,
    /// Pending (file, watch) pairs, in arrival order, no duplicates.
    pub files: Vec<(String, String)>,
    /// Indicates if we execute the command 1 time per modified file
    pub single_file_execution: bool,
    /// Execute commands also if files are deleted
    pub deleted_files: bool,
    /// Do we abort previous commands?
    pub abort_previous: bool,
    /// Timestamp (ms) of the last file update
    pub last_update: Option<u64>,
    /// Total command count.
    pub command_count: usize,
    /// Minimum idle duration (ms) after the last change before a flush.
    pub quiet_window_ms: u64,
}

/// A flush is due: something is pending and the quiet window has elapsed.
pub open spec fn flush_due(q: CommandQueue, now: u64) -> bool {
    &&& q.files.deep_view().len() > 0
    &&& match q.last_update {
        Some(t) => now > t + q.quiet_window_ms,
        None => false,
    }
}

impl CommandQueue {
    /// The pending set holds no duplicate (file, watch) pairs.
    pub open spec fn wf(&self) -> bool {
        distinct_pairs(self.files.deep_view())
    }

    /// Builds a queue for a command template. A template that contains both
    /// the single-file and the multi-file placeholder is rejected, as is an
    /// empty command.
    pub fn new(
        command: String,
        deleted_files: bool,
        abort_previous: bool,
        quiet_window_ms: u64,
    ) -> (r: Result<CommandQueue, ArgumentError>)
        ensures
            r is Ok <==> command@.len() > 0 && !(contains_sub(command@, "{file}"@) && contains_sub(
                command@,
                "{files}"@,
            )),
            match r {
                Ok(q) => {
                    &&& q.wf()
                    &&& q.command == command
                    &&& q.files.deep_view() == Seq::<(Seq<char>, Seq<char>)>::empty()
                    &&& q.single_file_execution == contains_sub(command@, "{file}"@)
                    &&& q.deleted_files == deleted_files
                    &&& q.abort_previous == abort_previous
                    &&& q.last_update is None
                    &&& q.command_count == 0
                    &&& q.quiet_window_ms == quiet_window_ms
                },
                Err(e) => {
                    ||| (command@.len() == 0 && (e matches ArgumentError::EmptyCommand))
                    ||| (command@.len() > 0 && (e matches ArgumentError::CommandParseError(c, _)
                        && c@ == command@))
                },
            },
    {
        if command.as_str().unicode_len() == 0 {
            return Err(ArgumentError::EmptyCommand);
        }
        let single = contains_str(command.as_str(), "{file}");
        let multi = contains_str(command.as_str(), "{files}");
        if single && multi {
            return Err(
                ArgumentError::CommandParseError(
                    command,
                    String::from_str("Command cannot contain both {file} and {files}"),
                ),
            );
        }
        let files: Vec<(String, String)> = Vec::new();
        proof {
            assert(files.deep_view() =~= Seq::<(Seq<char>, Seq<char>)>::empty());
        }
        Ok(
            CommandQueue {
                command,
                files,
                single_file_execution: single,
                deleted_files,
                abort_previous,
                last_update: None,
                command_count: 0,
                quiet_window_ms,
            },
        )
    }

    /// Inserts one file update into the pending set; re-adding a pair that
    /// is already pending coalesces. The quiet window restarts either way.
    #[verifier::loop_isolation(false)]
    pub fn push(&mut self, file: &String, watch: &String, now: u64)
        requires
            old(self).wf(),
        ensures
            final(self).wf(),
            final(self).files.deep_view() == if old(self).files.deep_view().contains(
                (file@, watch@),
            ) {
                old(self).files.deep_view()
            } else {
                old(self).files.deep_view().push((file@, watch@))
            },
            final(self).last_update == Some(now),
            final(self).command == old(self).command,
            final(self).single_file_execution == old(self).single_file_execution,
            final(self).deleted_files == old(self).deleted_files,
            final(self).abort_previous == old(self).abort_previous,
            final(self).command_count == old(self).command_count,
            final(self).quiet_window_ms == old(self).quiet_window_ms,
    {
        let ghost dv = self.files.deep_view();
        let mut i: usize = 0;
        let mut present = false;
        while i < self.files.len() && !present
            invariant
                i <= dv.len(),
                dv == self.files.deep_view(),
                present ==> dv.contains((file@, watch@)),
                !present ==> forall|q: int| 0 <= q < i ==> #[trigger] dv[q] != (file@, watch@),
            decreases dv.len() - i,
        {
            proof {
                assert(dv[i as int] == (self.files@[i as int].0@, self.files@[i as int].1@));
            }
            if crate::filter::str_eq_chars(self.files[i].0.as_str(), file.as_str())
                && crate::filter::str_eq_chars(self.files[i].1.as_str(), watch.as_str()) {
                present = true;
                proof {
                    assert(dv[i as int] == (file@, watch@));
                }
            }
            i = i + 1;
        }
        if !present {
            proof {
                if dv.contains((file@, watch@)) {
                    let k = choose|k: int| 0 <= k < dv.len() && dv[k] == (file@, watch@);
                    assert(false);
                }
            }
            self.files.push((file.clone(), watch.clone()));
            proof {
                assert(self.files.deep_view() =~= dv.push((file@, watch@)));
                assert forall|a: int, b: int|
                    0 <= a < b < self.files.deep_view().len() implies self.files.deep_view()[a]
                    != self.files.deep_view()[b] by {
                    if b < dv.len() {
                    } else {
                        assert(self.files.deep_view()[b] == (file@, watch@));
                        assert(dv[a] != (file@, watch@));
                    }
                }
            }
        }
        self.last_update = Some(now);
    }

    /// Re-arms the quiet window without adding anything, used to delay
    /// dispatch; does nothing when nothing is pending.
    pub fn restart_backoff(&mut self, now: u64)
        ensures
            final(self).files == old(self).files,
            final(self).last_update == if old(self).files.deep_view().len() > 0 {
                Some(now)
            } else {
                old(self).last_update
            },
            final(self).command == old(self).command,
            final(self).single_file_execution == old(self).single_file_execution,
            final(self).deleted_files == old(self).deleted_files,
            final(self).abort_previous == old(self).abort_previous,
            final(self).command_count == old(self).command_count,
            final(self).quiet_window_ms == old(self).quiet_window_ms,
    {
        if self.files.len() > 0 {
            self.last_update = Some(now);
        }
    }

    /// Consumes one queue message: file updates and backoff restarts keep
    /// the loop running, an abort stops it.
    pub fn run(&mut self, msg: &QueueMessage, now: u64) -> (keep_running: bool)
        requires
            old(self).wf(),
        ensures
            final(self).wf(),
            keep_running == !(msg is Abort),
            msg is Abort ==> *final(self) == *old(self),
            msg matches QueueMessage::RestartBackoff ==> final(self).files == old(self).files
                && final(self).last_update == (if old(self).files.deep_view().len() > 0 {
                Some(now)
            } else {
                old(self).last_update
            }),
            (msg matches QueueMessage::AddFile(f, w) ==> final(self).files.deep_view() == (if old(
                self,
            ).files.deep_view().contains((f@, w@)) {
                old(self).files.deep_view()
            } else {
                old(self).files.deep_view().push((f@, w@))
            }) && final(self).last_update == Some(now)),
            final(self).command == old(self).command,
            final(self).single_file_execution == old(self).single_file_execution,
            final(self).deleted_files == old(self).deleted_files,
            final(self).abort_previous == old(self).abort_previous,
            final(self).command_count == old(self).command_count,
            final(self).quiet_window_ms == old(self).quiet_window_ms,
    {
        match msg {
            QueueMessage::Abort => false,
            QueueMessage::RestartBackoff => {
                self.restart_backoff(now);
                true
            },
            QueueMessage::AddFile(f, w) => {
                self.push(f, w, now);
                true
            },
        }
    }

    /// Whether the quiet window has elapsed with something pending.
    pub fn should_flush(&self, now: u64) -> (r: bool)
        ensures
            r == flush_due(*self, now),
    {
        if self.files.len() == 0 {
            return false;
        }
        match self.last_update {
            None => false,
            Some(t) => {
                if now <= t {
                    false
                } else {
                    (now - t) > self.quiet_window_ms
                }
            },
        }
    }

    /// Drops the pending entries that no longer exist, unless deletions are
    /// tracked; the caller reports existence per entry, in order.
    #[verifier::loop_isolation(false)]
    pub fn prune(&mut self, exists_mask: &Vec<bool>)
        requires
            old(self).wf(),
            exists_mask@.len() == old(self).files@.len(),
        ensures
            final(self).wf(),
            final(self).files.deep_view() == if old(self).deleted_files {
                old(self).files.deep_view()
            } else {
                filter_mask(old(self).files.deep_view(), exists_mask@)
            },
            final(self).last_update == old(self).last_update,
            final(self).command == old(self).command,
            final(self).single_file_execution == old(self).single_file_execution,
            final(self).deleted_files == old(self).deleted_files,
            final(self).abort_previous == old(self).abort_previous,
            final(self).command_count == old(self).command_count,
            final(self).quiet_window_ms == old(self).quiet_window_ms,
    {
        if self.deleted_files {
            return ;
        }
        let ghost dv = self.files.deep_view();
        let mut kept: Vec<(String, String)> = Vec::new();
        let mut i: usize = 0;
        proof {
            assert(kept.deep_view() =~= Seq::<(Seq<char>, Seq<char>)>::empty());
            assert(dv.skip(0) =~= dv);
            assert(exists_mask@.skip(0) =~= exists_mask@);
            assert(kept.deep_view() + filter_mask(dv, exists_mask@) =~= filter_mask(
                dv,
                exists_mask@,
            ));
        }
        while i < self.files.len()
            invariant
                i <= dv.len(),
                dv == self.files.deep_view(),
                dv.len() == self.files@.len() == exists_mask@.len(),
                filter_mask(dv, exists_mask@) == kept.deep_view() + filter_mask(
                    dv.skip(i as int),
                    exists_mask@.skip(i as int),
                ),
            decreases dv.len() - i,
        {
            let ghost pv = kept.deep_view();
            let ghost srest = dv.skip(i as int);
            let ghost mrest = exists_mask@.skip(i as int);
            proof {
                assert(srest[0] == dv[i as int]);
                assert(mrest[0] == exists_mask@[i as int]);
                assert(srest.skip(1) =~= dv.skip(i + 1));
                assert(mrest.skip(1) =~= exists_mask@.skip(i + 1));
            }
            if exists_mask[i] {
                let entry = (self.files[i].0.clone(), self.files[i].1.clone());
                proof {
                    assert(dv[i as int] == (self.files@[i as int].0@, self.files@[i as int].1@));
                }
                kept.push(entry);
                proof {
                    assert(kept.deep_view() =~= pv.push(dv[i as int]));
                    assert(pv + (seq![dv[i as int]] + filter_mask(dv.skip(i + 1), exists_mask@.skip(i + 1)))
                        =~= pv.push(dv[i as int]) + filter_mask(
                        dv.skip(i + 1),
                        exists_mask@.skip(i + 1),
                    ));
                }
            } else {
                proof {
                    assert(Seq::<(Seq<char>, Seq<char>)>::empty() + filter_mask(
                        dv.skip(i + 1),
                        exists_mask@.skip(i + 1),
                    ) =~= filter_mask(dv.skip(i + 1), exists_mask@.skip(i + 1)));
                }
            }
            i = i + 1;
        }
        proof {
            assert(dv.skip(i as int) =~= Seq::<(Seq<char>, Seq<char>)>::empty());
            assert(exists_mask@.skip(i as int) =~= Seq::<bool>::empty());
            assert(kept.deep_view() + filter_mask(
                Seq::<(Seq<char>, Seq<char>)>::empty(),
                Seq::<bool>::empty(),
            ) =~= kept.deep_view());
            lemma_filter_mask_props(dv, exists_mask@);
        }
        self.files = kept;
    }

    /// Builds the invocations of one flush and drains the pending set: one
    /// invocation per pending path in single-file mode, one invocation for
    /// all of them otherwise. Ids are assigned in dispatch order. The first
    /// component of the result says whether the previous generation of
    /// workers must be aborted: the caller then raises the shared abort
    /// flag, waits out the grace period, and clears the flag, all before
    /// spawning any of the returned invocations.
    #[verifier::loop_isolation(false)]
    #[verifier::rlimit(60)]
    pub fn execute(&mut self, workers_alive: bool) -> (r: (bool, Vec<Invocation>))
        requires
            old(self).wf(),
            old(self).command_count + old(self).files@.len() <= usize::MAX,
        ensures
            final(self).wf(),
            final(self).files.deep_view() == Seq::<(Seq<char>, Seq<char>)>::empty(),
            final(self).last_update is None,
            final(self).command == old(self).command,
            final(self).single_file_execution == old(self).single_file_execution,
            final(self).deleted_files == old(self).deleted_files,
            final(self).abort_previous == old(self).abort_previous,
            final(self).quiet_window_ms == old(self).quiet_window_ms,
            r.0 == (old(self).abort_previous && workers_alive && old(self).files.deep_view().len()
                > 0),
            old(self).files.deep_view().len() == 0 ==> r.1@.len() == 0 && final(self).command_count
                == old(self).command_count,
            old(self).files.deep_view().len() > 0 && old(self).single_file_execution ==> {
                let dv = old(self).files.deep_view();
                &&& r.1@.len() == dv.len()
                &&& final(self).command_count == old(self).command_count + dv.len()
                &&& forall|q: int|
                    0 <= q < dv.len() ==> {
                        &&& (#[trigger] r.1@[q]).command_number == old(self).command_count + q
                        &&& r.1@[q].command_line@ == replaced(
                            old(self).command@,
                            "{file}"@,
                            dv[q].0,
                        )
                        &&& r.1@[q].paths.deep_view() == seq![dv[q].0]
                        &&& r.1@[q].files.deep_view() == seq![file_name_or_empty(dv[q].0)]
                    }
            },
            old(self).files.deep_view().len() > 0 && !old(self).single_file_execution ==> {
                let dv = old(self).files.deep_view();
                &&& r.1@.len() == 1
                &&& final(self).command_count == old(self).command_count + 1
                &&& r.1@[0].command_number == old(self).command_count
                &&& r.1@[0].command_line@ == replaced(
                    old(self).command@,
                    "{files}"@,
                    joined(firsts(dv), " "@),
                )
                &&& r.1@[0].paths.deep_view() == firsts(dv)
                &&& r.1@[0].files.deep_view() == Seq::new(
                    dv.len(),
                    |q: int| file_name_or_empty(dv[q].0),
                )
            },
    {
        let ghost dv = self.files.deep_view();
        if self.files.len() == 0 {
            self.last_update = None;
            let empty: Vec<Invocation> = Vec::new();
            return (false, empty);
        }
        let raise_abort = self.abort_previous && workers_alive;
        let mut invocations: Vec<Invocation> = Vec::new();
        if self.single_file_execution {
            let n = self.files.len();
            let mut i: usize = 0;
            while i < n
                invariant
                    i <= n == dv.len(),
                    dv == self.files.deep_view(),
                    n == self.files@.len(),
                    self.command_count + n <= usize::MAX,
                    invocations@.len() == i,
                    forall|q: int|
                        0 <= q < i ==> {
                            &&& (#[trigger] invocations@[q]).command_number == self.command_count
                                + q
                            &&& invocations@[q].command_line@ == replaced(
                                self.command@,
                                "{file}"@,
                                dv[q].0,
                            )
                            &&& invocations@[q].paths.deep_view() == seq![dv[q].0]
                            &&& invocations@[q].files.deep_view() == seq![
                                file_name_or_empty(dv[q].0),
                            ]
                        },
                decreases n - i,
            {
                proof {
                    assert(dv[i as int] == (self.files@[i as int].0@, self.files@[i as int].1@));
                }
                let path = self.files[i].0.clone();
                let base = crate::filter::base_name_of(path.as_str());
                let command_line = replace_str(self.command.as_str(), "{file}", path.as_str());
                let mut one_file: Vec<String> = Vec::new();
                one_file.push(base);
                let mut one_path: Vec<String> = Vec::new();
                one_path.push(path);
                proof {
                    assert(one_file.deep_view() =~= seq![file_name_or_empty(dv[i as int].0)]);
                    assert(one_path.deep_view() =~= seq![dv[i as int].0]);
                }
                invocations.push(
                    Invocation {
                        command_number: self.command_count + i,
                        command_line,
                        files: one_file,
                        paths: one_path,
                    },
                );
                i = i + 1;
            }
            self.command_count = self.command_count + n;
        } else {
            let n = self.files.len();
            let mut paths: Vec<String> = Vec::new();
            let mut bases: Vec<String> = Vec::new();
            let mut i: usize = 0;
            while i < n
                invariant
                    i <= n == dv.len(),
                    dv == self.files.deep_view(),
                    n == self.files@.len(),
                    paths@.len() == i,
                    bases@.len() == i,
                    forall|q: int| 0 <= q < i ==> #[trigger] paths.deep_view()[q] == dv[q].0,
                    forall|q: int|
                        0 <= q < i ==> #[trigger] bases.deep_view()[q] == file_name_or_empty(
                            dv[q].0,
                        ),
                decreases n - i,
            {
                proof {
                    assert(dv[i as int] == (self.files@[i as int].0@, self.files@[i as int].1@));
                }
                let path = self.files[i].0.clone();
                let base = crate::filter::base_name_of(path.as_str());
                let ghost pp = paths.deep_view();
                let ghost bb = bases.deep_view();
                paths.push(path);
                bases.push(base);
                proof {
                    assert(paths.deep_view() =~= pp.push(dv[i as int].0));
                    assert(bases.deep_view() =~= bb.push(file_name_or_empty(dv[i as int].0)));
                }
                i = i + 1;
            }
            proof {
                assert(paths.deep_view() =~= firsts(dv));
                assert(bases.deep_view() =~= Seq::new(
                    dv.len(),
                    |q: int| file_name_or_empty(dv[q].0),
                ));
            }
            let all = join_strings(&paths, " ");
            let command_line = replace_str(self.command.as_str(), "{files}", all.as_str());
            invocations.push(
                Invocation {
                    command_number: self.command_count,
                    command_line,
                    files: bases,
                    paths,
                },
            );
            self.command_count = self.command_count + 1;
        }
        self.files = Vec::new();
        self.last_update = None;
        proof {
            assert(self.files.deep_view() =~= Seq::<(Seq<char>, Seq<char>)>::empty());
        }
        (raise_abort, invocations)
    }
}

} // verus!
