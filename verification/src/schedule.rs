//! How the files of a run are handed to workers, and the states that a run
//! goes through.

use crate::progress::{lemma_percent_complete, percent_of};
use vstd::arithmetic::div_mod::*;
use vstd::prelude::*;

verus! {

/// The number of files that a worker takes at a time.
pub const CHUNK_SIZE: usize = 8;

/// The number of workers on a machine with `cpus` processors: one is left to
/// the process that drives the run, and at least one works.
pub open spec fn workers_for(cpus: nat) -> nat {
    if cpus >= 2 {
        (cpus - 1) as nat
    } else {
        1
    }
}

/// The number of workers on a machine with `cpus` processors.
pub fn worker_count(cpus: usize) -> (workers: usize)
    ensures
        workers == workers_for(cpus as nat),
        workers >= 1,
{
    if cpus >= 2 {
        cpus - 1
    } else {
        1
    }
}

/// Calls `num_cpus::get`. Trusted: the number of logical processors that
/// this process may use is at least one.
#[verifier::external_body]
fn logical_cpus() -> (cpus: usize)
    ensures
        cpus >= 1,
{
    num_cpus::get()
}

/// The number of workers on this machine.
pub fn default_worker_count() -> (workers: usize)
    ensures
        workers >= 1,
        exists|cpus: nat| cpus >= 1 && workers == #[trigger] workers_for(cpus),
{
    let cpus = logical_cpus();
    worker_count(cpus)
}

/// A run of consecutive files: those at the positions `start .. end` of the
/// sorted list.
#[derive(Clone, Copy, Debug, PartialEq, Eq)]
pub struct Chunk {
    pub start: usize,
    pub end: usize,
}

/// The number of chunks of `size` files that `total` files make.
pub open spec fn chunk_count(total: nat, size: nat) -> nat
    recommends
        size > 0,
{
    ((total + size - 1) / (size as int)) as nat
}

/// Where chunk `k` starts.
pub open spec fn chunk_start(size: nat, k: nat) -> nat {
    k * size
}

/// Where chunk `k` ends: a full chunk after its start, or at the end of the
/// list.
pub open spec fn chunk_end(total: nat, size: nat, k: nat) -> nat {
    if (k + 1) * size <= total {
        (k + 1) * size
    } else {
        total
    }
}

/// The number of files in the first `n` chunks together: what the counter
/// of processed files holds once they are done.
pub open spec fn files_in_chunks(total: nat, size: nat, n: nat) -> nat
    decreases n,
{
    if n == 0 {
        0
    } else {
        (files_in_chunks(total, size, (n - 1) as nat) + chunk_end(total, size, (n - 1) as nat)
            - chunk_start(size, (n - 1) as nat)) as nat
    }
}

/// Every chunk but the last is full, and the last one is not empty.
pub proof fn lemma_chunk_bounds(total: nat, size: nat, k: nat)
    requires
        size > 0,
        k < chunk_count(total, size),
    ensures
        chunk_start(size, k) < chunk_end(total, size, k) <= total,
        chunk_end(total, size, k) - chunk_start(size, k) <= size,
        k + 1 < chunk_count(total, size) ==> chunk_end(total, size, k) == chunk_start(size, k + 1),
        k + 1 == chunk_count(total, size) ==> chunk_end(total, size, k) == total,
{
    let n = chunk_count(total, size) as int;
    let t = total as int;
    let s = size as int;
    lemma_fundamental_div_mod(t + s - 1, s);
    lemma_mod_division_less_than_divisor(t + s - 1, s);
    // n * s <= t + s - 1 < (n + 1) * s
    assert(s * n <= t + s - 1 && t + s - 1 < s * n + s);
    assert(k * s + s <= n * s) by (nonlinear_arith)
        requires
            k + 1 <= n,
            s > 0,
    ;
    assert(s * n == n * s) by (nonlinear_arith);
    assert((k + 1) * s == k * s + s) by (nonlinear_arith);
    if k + 1 < n {
        assert((k + 1) * s + s <= n * s) by (nonlinear_arith)
            requires
                k + 2 <= n,
                s > 0,
        ;
    }
}

/// When the first `n` chunks are done, the files before the start of chunk
/// `n` are done; when all are, all files are.
pub proof fn lemma_files_in_chunks(total: nat, size: nat, n: nat)
    requires
        size > 0,
        n <= chunk_count(total, size),
    ensures
        n < chunk_count(total, size) ==> files_in_chunks(total, size, n) == chunk_start(size, n),
        n == chunk_count(total, size) ==> files_in_chunks(total, size, n) == total,
    decreases n,
{
    if n > 0 {
        lemma_files_in_chunks(total, size, (n - 1) as nat);
        lemma_chunk_bounds(total, size, (n - 1) as nat);
    } else {
        assert(chunk_start(size, 0) == 0) by (nonlinear_arith);
        if chunk_count(total, size) == 0 {
            lemma_fundamental_div_mod((total + size - 1) as int, size as int);
            lemma_mod_division_less_than_divisor((total + size - 1) as int, size as int);
            assert((size as int) * 0 == 0);
        }
    }
}

/// Every file lies in one chunk and in no other: whichever workers take
/// the chunks, and in whatever order, every file is processed once.
pub proof fn lemma_file_in_one_chunk(total: nat, size: nat, file: nat)
    requires
        size > 0,
        file < total,
    ensures
        file / size < chunk_count(total, size),
        chunk_start(size, file / size) <= file < chunk_end(total, size, file / size),
        forall|k: nat|
            k < chunk_count(total, size) && #[trigger] chunk_start(size, k) <= file < chunk_end(
                total,
                size,
                k,
            ) ==> k == file / size,
{
    let s = size as int;
    let f = file as int;
    let t = total as int;
    let q = f / s;
    lemma_fundamental_div_mod(f, s);
    lemma_mod_division_less_than_divisor(f, s);
    lemma_div_pos_is_pos(f, s);
    assert(s * q == q * s) by (nonlinear_arith);
    assert((q + 1) * s == q * s + s) by (nonlinear_arith);
    lemma_div_is_ordered(f, t + s - 1, s);
    lemma_fundamental_div_mod(t + s - 1, s);
    lemma_mod_division_less_than_divisor(t + s - 1, s);
    let n = (t + s - 1) / s;
    assert(q < n) by (nonlinear_arith)
        requires
            q * s <= f,
            f < t,
            t + s - 1 < s * n + s,
            q <= n,
            s > 0,
    ;
    assert forall|k: nat|
        k < chunk_count(total, size) && #[trigger] chunk_start(size, k) <= file < chunk_end(
            total,
            size,
            k,
        ) implies k == file / size by {
        assert((k + 1) * s == k * s + s) by (nonlinear_arith);
        lemma_fundamental_div_mod_converse(f, s, k as int, f - k * s);
    }
}

/// The files that a run processes do not depend on the number of workers,
/// nor on which worker takes which chunk: under every assignment of the
/// chunks to `workers` workers, every file is processed once, by one worker.
pub proof fn lemma_every_schedule_processes_every_file_once(
    total: nat,
    size: nat,
    workers: nat,
    worker_of: spec_fn(nat) -> nat,
    file: nat,
)
    requires
        size > 0,
        file < total,
        workers >= 1,
        forall|k: nat| k < chunk_count(total, size) ==> #[trigger] worker_of(k) < workers,
    ensures
        worker_of(file / size) < workers,
        file / size < chunk_count(total, size),
        chunk_start(size, file / size) <= file < chunk_end(total, size, file / size),
        forall|k: nat|
            k < chunk_count(total, size) && #[trigger] chunk_start(size, k) <= file < chunk_end(
                total,
                size,
                k,
            ) ==> k == file / size && worker_of(k) == worker_of(file / size),
{
    lemma_file_in_one_chunk(total, size, file);
}

/// Once every chunk is done, the count of processed files stands at 100
/// percent.
pub proof fn lemma_all_chunks_done_is_complete(total: nat, size: nat)
    requires
        size > 0,
        total > 0,
    ensures
        percent_of(files_in_chunks(total, size, chunk_count(total, size)), total) == 100,
{
    lemma_files_in_chunks(total, size, chunk_count(total, size));
    lemma_percent_complete(total);
}

/// Cuts a list of `total` files into chunks of `size` files; the last chunk
/// takes what is left.
pub fn chunks(total: usize, size: usize) -> (out: Vec<Chunk>)
    requires
        size > 0,
    ensures
        out@.len() == chunk_count(total as nat, size as nat),
        forall|k: int|
            0 <= k < out@.len() ==> (#[trigger] out@[k]).start == chunk_start(size as nat, k as nat)
                && out@[k].end == chunk_end(total as nat, size as nat, k as nat),
{
    let mut out: Vec<Chunk> = Vec::new();
    let mut start: usize = 0;
    let ghost t = total as nat;
    let ghost s = size as nat;
    proof {
        assert(chunk_start(s, 0) == 0) by (nonlinear_arith);
        lemma_fundamental_div_mod((t + s - 1) as int, s as int);
        lemma_mod_division_less_than_divisor((t + s - 1) as int, s as int);
        if chunk_count(t, s) == 0 {
            assert((s as int) * 0 == 0);
        }
    }
    while start < total
        invariant
            size > 0,
            t == total,
            s == size,
            out@.len() <= chunk_count(t, s),
            start == if out@.len() < chunk_count(t, s) {
                chunk_start(s, out@.len())
            } else {
                t
            },
            forall|k: int|
                0 <= k < out@.len() ==> (#[trigger] out@[k]).start == chunk_start(s, k as nat)
                    && out@[k].end == chunk_end(t, s, k as nat),
        decreases total - start,
    {
        let ghost k = out@.len();
        proof {
            lemma_chunk_bounds(t, s, k);
        }
        let end = if total - start > size {
            start + size
        } else {
            total
        };
        proof {
            assert((k + 1) * s == k * s + s) by (nonlinear_arith);
        }
        out.push(Chunk { start, end });
        start = end;
    }
    proof {
        if out@.len() < chunk_count(t, s) {
            lemma_chunk_bounds(t, s, out@.len());
        }
    }
    out
}

/// The states of a run.
#[derive(Clone, Copy, Debug, PartialEq, Eq, Structural)]
pub enum RunState {
    /// Nothing has been done yet.
    Idle,
    /// The output root exists, the files are known, and work is going on.
    Running,
    /// Every chunk is done.
    Completed,
    /// The run could not be set up.
    Failed,
}

/// What happens to a run.
#[derive(Clone, Copy, Debug, PartialEq, Eq, Structural)]
pub enum RunEvent {
    /// The output root was made and the input files were listed.
    SetupDone,
    /// The output root could not be made, or the input files not listed.
    SetupFailed,
    /// A file was processed.
    FileDone,
    /// A file could not be read, transformed or written.
    FileFailed,
    /// The last chunk is done.
    AllChunksDone,
}

/// What can go wrong in a run.
#[derive(Clone, Copy, Debug, PartialEq, Eq, Structural)]
pub enum ErrorKind {
    /// A directory that the run needs was not given.
    Config,
    /// The output root could not be made, or the input files not listed.
    SetupIo,
    /// An image could not be read or written.
    Codec,
    /// A transformation was asked for that the registry does not know.
    TransformationNotFound,
    /// A transformation failed on an image.
    Operator,
}

impl ErrorKind {
    /// Whether an error of this kind ends the run. The others are recovered
    /// from: the file or the variant is passed over and the run goes on.
    pub open spec fn fatal(self) -> bool {
        self == ErrorKind::Config || self == ErrorKind::SetupIo
    }

    /// What an error of this kind is to the run.
    pub open spec fn event(self) -> RunEvent {
        if self.fatal() {
            RunEvent::SetupFailed
        } else {
            RunEvent::FileFailed
        }
    }

    /// Whether an error of this kind ends the run.
    pub fn is_fatal(self) -> (fatal: bool)
        ensures
            fatal == self.fatal(),
    {
        match self {
            ErrorKind::Config | ErrorKind::SetupIo => true,
            _ => false,
        }
    }

    /// What an error of this kind is to the run.
    pub fn as_event(self) -> (event: RunEvent)
        ensures
            event == self.event(),
            !self.fatal() ==> state_after(RunState::Running, event) == RunState::Running,
            self.fatal() ==> state_after(RunState::Idle, event) == RunState::Failed,
    {
        if self.is_fatal() {
            RunEvent::SetupFailed
        } else {
            RunEvent::FileFailed
        }
    }
}

/// The state after `event` in `state`. A run fails only while it is set up;
/// what goes wrong with one file leaves it running, and it completes however
/// many files went wrong. A run that has ended stays as it is.
pub open spec fn state_after(state: RunState, event: RunEvent) -> RunState {
    match (state, event) {
        (RunState::Idle, RunEvent::SetupDone) => RunState::Running,
        (RunState::Idle, RunEvent::SetupFailed) => RunState::Failed,
        (RunState::Running, RunEvent::AllChunksDone) => RunState::Completed,
        _ => state,
    }
}

/// The state after `event` in `state`.
pub fn next_state(state: RunState, event: RunEvent) -> (next: RunState)
    ensures
        next == state_after(state, event),
        next == RunState::Failed ==> state == RunState::Failed || (state == RunState::Idle && event
            == RunEvent::SetupFailed),
        state == RunState::Running ==> next == RunState::Running || (event
            == RunEvent::AllChunksDone && next == RunState::Completed),
{
    match (state, event) {
        (RunState::Idle, RunEvent::SetupDone) => RunState::Running,
        (RunState::Idle, RunEvent::SetupFailed) => RunState::Failed,
        (RunState::Running, RunEvent::AllChunksDone) => RunState::Completed,
        _ => state,
    }
}

} // verus!
