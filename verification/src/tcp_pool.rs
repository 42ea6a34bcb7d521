//! The decisions of a non-blocking TCP worker pool: the per-connection state machine that a
//! worker runs on readiness events, and the pool's bookkeeping of poll tokens, jobs,
//! workers and connections. The sockets, channels and threads are driven by the caller.
use vstd::prelude::*;
use std::collections::HashMap;
use crate::bytes::push_decimal;
use crate::bytes::decimal;

verus! {

broadcast use vstd::std_specs::hash::group_hash_axioms;

/// What a read from a connection's stream gave.
#[derive(Clone, Copy, Debug, PartialEq, Eq, Structural)]
pub enum ReadOutcome {
    /// The read returned this many bytes (zero at end of stream).
    Bytes(usize),
    /// The stream had nothing ready.
    WouldBlock,
    /// The read failed otherwise.
    Failed,
}

/// What a write to a connection's stream gave.
#[derive(Clone, Copy, Debug, PartialEq, Eq, Structural)]
pub enum WriteOutcome {
    /// The write took this many bytes from the front of the buffer.
    Written(usize),
    /// The stream could take nothing now.
    WouldBlock,
    /// The write was interrupted.
    Interrupted,
    /// The write failed otherwise.
    Failed,
}

/// What a worker does after a read.
#[derive(Clone, Copy, Debug, PartialEq, Eq, Structural)]
pub struct ReadStep {
    /// Run the job on the read buffer, filling the write buffer.
    pub run_job: bool,
    /// Close the connection at the end of this event.
    pub delete: bool,
}

/// The state of one connection that a worker serves.
pub struct ConnectionState {
    pub ready_to_write: bool,
    pub ready_to_read: bool,
    pub write_buffer: Vec<u8>,
}

impl ConnectionState {
    /// A new connection: ready to read, not yet to write, with a zeroed write buffer.
    pub fn new(write_buffer_size: usize) -> (r: ConnectionState)
        ensures
            r.ready_to_read,
            !r.ready_to_write,
            r.write_buffer@ == Seq::new(write_buffer_size as nat, |i: int| 0u8),
    {
        let mut buf: Vec<u8> = Vec::new();
        let mut i: usize = 0;
        while i < write_buffer_size
            invariant
                i <= write_buffer_size,
                buf@ == Seq::new(i as nat, |j: int| 0u8),
            decreases write_buffer_size - i,
        {
            buf.push(0u8);
            assert(buf@ =~= Seq::new((i + 1) as nat, |j: int| 0u8));
            i = i + 1;
        }
        ConnectionState { ready_to_write: false, ready_to_read: true, write_buffer: buf }
    }

    /// Whether the worker reads from the stream on an event.
    pub fn wants_read(&self, readable: bool) -> (r: bool)
        ensures
            r == (readable && self.ready_to_read),
    {
        readable && self.ready_to_read
    }

    /// Records the outcome of a read. Any answer other than "would block" ends reading:
    /// the connection turns to writing and is closed at the end of the event; bytes also
    /// run the job.
    pub fn after_read(&mut self, outcome: ReadOutcome) -> (r: ReadStep)
        ensures
            final(self).write_buffer@ == old(self).write_buffer@,
            match outcome {
                ReadOutcome::WouldBlock => {
                    &&& r == ReadStep { run_job: false, delete: false }
                    &&& final(self).ready_to_read == old(self).ready_to_read
                    &&& final(self).ready_to_write == old(self).ready_to_write
                },
                ReadOutcome::Bytes(_) => {
                    &&& r == ReadStep { run_job: true, delete: true }
                    &&& !final(self).ready_to_read
                    &&& final(self).ready_to_write
                },
                ReadOutcome::Failed => {
                    &&& r == ReadStep { run_job: false, delete: true }
                    &&& !final(self).ready_to_read
                    &&& final(self).ready_to_write
                },
            },
    {
        match outcome {
            ReadOutcome::WouldBlock => ReadStep { run_job: false, delete: false },
            ReadOutcome::Bytes(_) => {
                self.ready_to_write = true;
                self.ready_to_read = false;
                ReadStep { run_job: true, delete: true }
            },
            ReadOutcome::Failed => {
                self.ready_to_write = true;
                self.ready_to_read = false;
                ReadStep { run_job: false, delete: true }
            },
        }
    }

    /// Whether the worker writes to the stream on an event: it must be writable, the
    /// connection ready to write and the buffer not empty.
    pub fn wants_write(&self, writable: bool) -> (r: bool)
        ensures
            r == (writable && self.ready_to_write && self.write_buffer@.len() > 0),
    {
        writable && self.ready_to_write && self.write_buffer.len() > 0
    }

    /// Records the outcome of a write: written bytes leave the front of the buffer, and the
    /// connection closes once the buffer is empty or on a real error. Returns whether to close.
    pub fn after_write(&mut self, outcome: WriteOutcome) -> (delete: bool)
        requires
            outcome matches WriteOutcome::Written(n) ==> n <= old(self).write_buffer@.len(),
        ensures
            final(self).ready_to_read == old(self).ready_to_read,
            final(self).ready_to_write == old(self).ready_to_write,
            match outcome {
                WriteOutcome::Written(n) => {
                    &&& final(self).write_buffer@ == old(self).write_buffer@.subrange(
                        n as int,
                        old(self).write_buffer@.len() as int,
                    )
                    &&& delete == (final(self).write_buffer@.len() == 0)
                },
                WriteOutcome::WouldBlock | WriteOutcome::Interrupted => {
                    &&& final(self).write_buffer@ == old(self).write_buffer@
                    &&& !delete
                },
                WriteOutcome::Failed => {
                    &&& final(self).write_buffer@ == old(self).write_buffer@
                    &&& delete
                },
            },
    {
        match outcome {
            WriteOutcome::Written(n) => {
                let mut rest: Vec<u8> = Vec::new();
                let mut i: usize = n;
                while i < self.write_buffer.len()
                    invariant
                        n <= i <= self.write_buffer@.len(),
                        self.write_buffer@ == old(self).write_buffer@,
                        rest@ == self.write_buffer@.subrange(n as int, i as int),
                    decreases self.write_buffer@.len() - i,
                {
                    rest.push(self.write_buffer[i]);
                    assert(rest@ =~= self.write_buffer@.subrange(n as int, i + 1));
                    i = i + 1;
                }
                self.write_buffer = rest;
                self.write_buffer.len() == 0
            },
            WriteOutcome::WouldBlock | WriteOutcome::Interrupted => false,
            WriteOutcome::Failed => true,
        }
    }
}

/// The `ip:port` address that a job listens on.
pub fn bind_address(ip: &str, port: usize) -> (r: String)
    ensures
        r@ == ip@ + ":"@ + decimal(port as nat),
{
    let mut s = String::from_str(ip);
    s.append(":");
    push_decimal(&mut s, port);
    s
}

/// The tokens that are in use: those of jobs (whose listeners share their token) and of
/// connections.
pub open spec fn used_tokens(jobs: Map<usize, usize>, connections: Map<usize, usize>) -> Set<usize> {
    jobs.dom().union(connections.dom())
}

/// The token that the pool hands out next: the least positive token that is not in use.
/// Listeners and connections are identified by their tokens, so no two may share one.
pub open spec fn is_next_token(jobs: Map<usize, usize>, connections: Map<usize, usize>, t: int) -> bool {
    &&& 1 <= t <= usize::MAX
    &&& !used_tokens(jobs, connections).contains(t as usize)
    &&& forall|j: usize| 1 <= j < t ==> #[trigger] used_tokens(jobs, connections).contains(j)
}

/// Tokens handed out in turn differ: once the next token is taken by a job or a
/// connection, the token after it is another one.
pub proof fn lemma_next_tokens_differ(
    jobs: Map<usize, usize>,
    connections: Map<usize, usize>,
    t1: int,
    t2: int,
    job: bool,
)
    requires
        is_next_token(jobs, connections, t1),
        job ==> is_next_token(jobs.insert(t1 as usize, 0), connections, t2),
        !job ==> is_next_token(jobs, connections.insert(t1 as usize, 0), t2),
    ensures
        t1 != t2,
        t1 < t2,
{
    if job {
        assert(used_tokens(jobs.insert(t1 as usize, 0), connections).contains(t1 as usize));
    } else {
        assert(used_tokens(jobs, connections.insert(t1 as usize, 0)).contains(t1 as usize));
    }
    if t2 < t1 {
        assert(used_tokens(jobs, connections).contains(t2 as usize));
    }
}

/// If every number from 1 to `m` is in a finite set, the set has at least `m` elements.
pub proof fn lemma_range_in_set(s: Set<usize>, m: int)
    requires
        s.finite(),
        0 <= m <= usize::MAX,
        forall|j: usize| 1 <= j <= m ==> #[trigger] s.contains(j),
    ensures
        m <= s.len(),
    decreases m,
{
    if m > 0 {
        let t = s.remove(m as usize);
        assert forall|j: usize| 1 <= j <= m - 1 implies #[trigger] t.contains(j) by {
            assert(s.contains(j));
        }
        lemma_range_in_set(t, m - 1);
        assert(s.contains(m as usize));
    }
}

/// The bookkeeping of a TCP worker pool.
pub struct TcpThreadPool {
    /// The most workers the pool runs.
    pub thread_count: usize,
    /// The workers started so far; they carry the ids `1..=worker_count`.
    pub worker_count: usize,
    /// Each job, by the token of its listener, with the number of workers assigned to it.
    pub jobs: HashMap<usize, usize>,
    /// Each served connection, by its token, with the id of its worker.
    pub connection_worker_map: HashMap<usize, usize>,
    pub max_connections_per_thread: usize,
    pub connection_read_buf_size: usize,
    pub connection_write_buf_size: usize,
}

/// Where an event for a token goes.
#[derive(Clone, Copy, Debug, PartialEq, Eq, Structural)]
pub struct EventRoute {
    /// The token is a job's listener: accept the waiting connections.
    pub to_listener: bool,
    /// The token is a connection served by this worker: pass the event on.
    pub to_worker: Option<usize>,
}

impl TcpThreadPool {
    /// A pool for at most `thread_count` workers, with no jobs yet.
    pub fn new(
        thread_count: usize,
        max_connections_per_thread: usize,
        connection_read_buf_size: usize,
        connection_write_buf_size: usize,
    ) -> (r: TcpThreadPool)
        requires
            thread_count != 0,
        ensures
            r.wf(),
            r.thread_count == thread_count,
            r.worker_count == 0,
            r.jobs@ == Map::<usize, usize>::empty(),
            r.connection_worker_map@ == Map::<usize, usize>::empty(),
            r.max_connections_per_thread == max_connections_per_thread,
            r.connection_read_buf_size == connection_read_buf_size,
            r.connection_write_buf_size == connection_write_buf_size,
    {
        TcpThreadPool {
            thread_count,
            worker_count: 0,
            jobs: HashMap::new(),
            connection_worker_map: HashMap::new(),
            max_connections_per_thread,
            connection_read_buf_size,
            connection_write_buf_size,
        }
    }

    /// The workers stay within the thread count, and no job has more workers than there are.
    pub open spec fn wf(&self) -> bool {
        &&& self.worker_count <= self.thread_count
        &&& forall|t: usize| #[trigger] self.jobs@.contains_key(t) ==> self.jobs@[t] <= self.worker_count
    }

    /// There is room to count the tokens in use.
    pub open spec fn token_room(&self) -> bool {
        self.jobs@.len() + self.connection_worker_map@.len() < usize::MAX
    }

    /// Whether there is room to count the tokens in use.
    pub fn has_token_room(&self) -> (r: bool)
        ensures
            r == self.token_room(),
    {
        self.jobs.len() < usize::MAX && self.connection_worker_map.len() < usize::MAX
            - self.jobs.len()
    }

    /// The next poll token: the least positive token not in use, so that every listener and
    /// every connection is identified by a token of its own.
    pub fn get_unique_poll_token(&self) -> (r: usize)
        requires
            self.token_room(),
        ensures
            is_next_token(self.jobs@, self.connection_worker_map@, r as int),
    {
        let ghost used = used_tokens(self.jobs@, self.connection_worker_map@);
        proof {
            vstd::set_lib::lemma_len_union(self.jobs@.dom(), self.connection_worker_map@.dom());
            assert(self.jobs@.dom().len() == self.jobs@.len());
        }
        let mut i: usize = 1;
        while self.jobs.contains_key(&i) || self.connection_worker_map.contains_key(&i)
            invariant
                1 <= i,
                i - 1 <= used.len(),
                used == used_tokens(self.jobs@, self.connection_worker_map@),
                used.finite(),
                used.len() <= self.jobs@.len() + self.connection_worker_map@.len(),
                self.token_room(),
                forall|j: usize| 1 <= j < i ==> #[trigger] used.contains(j),
            decreases used.len() + 1 - i,
        {
            proof {
                assert(used.contains(i));
                lemma_range_in_set(used, i as int);
            }
            i = i + 1;
        }
        i
    }

    /// Registers a new job under the next token and hands the token back.
    pub fn add_job(&mut self) -> (token: usize)
        requires
            old(self).wf(),
            old(self).token_room(),
        ensures
            final(self).wf(),
            is_next_token(old(self).jobs@, old(self).connection_worker_map@, token as int),
            final(self).jobs@ == old(self).jobs@.insert(token, 0),
            final(self).connection_worker_map@ == old(self).connection_worker_map@,
            final(self).worker_count == old(self).worker_count,
            final(self).thread_count == old(self).thread_count,
    {
        let token = self.get_unique_poll_token();
        self.jobs.insert(token, 0);
        token
    }

    /// Registers a new connection under the next token and hands the token back. The token
    /// is taken as soon as the connection is accepted, so that connections accepted before a
    /// worker reports on them get tokens of their own; until a worker takes the connection,
    /// the token maps to worker 0, which no worker has.
    pub fn add_connection(&mut self) -> (token: usize)
        requires
            old(self).wf(),
            old(self).token_room(),
        ensures
            final(self).wf(),
            is_next_token(old(self).jobs@, old(self).connection_worker_map@, token as int),
            final(self).connection_worker_map@ == old(self).connection_worker_map@.insert(token, 0),
            final(self).jobs@ == old(self).jobs@,
            final(self).worker_count == old(self).worker_count,
            final(self).thread_count == old(self).thread_count,
    {
        let token = self.get_unique_poll_token();
        self.connection_worker_map.insert(token, 0);
        token
    }

    /// Starts workers for the job under `token`: up to `worker_count` more, without going
    /// past the pool's thread count. Hands back the ids of the workers to start.
    pub fn assign_workers(&mut self, token: usize, worker_count: usize) -> (ids: Vec<usize>)
        requires
            old(self).wf(),
            old(self).jobs@.contains_key(token),
        ensures
            final(self).wf(),
            ({
                let k = if worker_count <= old(self).thread_count - old(self).worker_count {
                    worker_count as int
                } else {
                    old(self).thread_count - old(self).worker_count
                };
                &&& ids@.len() == k
                &&& forall|j: int| 0 <= j < k ==> ids@[j] == old(self).worker_count + j + 1
                &&& final(self).worker_count == old(self).worker_count + k
                &&& final(self).jobs@ == old(self).jobs@.insert(
                    token,
                    (old(self).jobs@[token] + k) as usize,
                )
            }),
            final(self).worker_count <= final(self).thread_count,
            final(self).thread_count == old(self).thread_count,
            final(self).connection_worker_map@ == old(self).connection_worker_map@,
    {
        let mut ids: Vec<usize> = Vec::new();
        let assigned0: usize = match self.jobs.get(&token) {
            Some(a) => *a,
            None => 0,
        };
        let mut assigned = assigned0;
        let ghost w0 = self.worker_count;
        let mut n: usize = 0;
        while n < worker_count
            invariant
                n <= worker_count,
                self.thread_count == old(self).thread_count,
                self.worker_count == w0 + n,
                self.worker_count <= self.thread_count,
                w0 == old(self).worker_count,
                ids@.len() == n,
                forall|j: int| 0 <= j < n ==> ids@[j] == w0 + j + 1,
                assigned == assigned0 + n,
                assigned0 == old(self).jobs@[token],
                self.jobs@ == old(self).jobs@,
                self.connection_worker_map@ == old(self).connection_worker_map@,
                assigned0 <= w0,
                old(self).wf(),
            ensures
                n == worker_count || self.worker_count >= self.thread_count,
                n <= worker_count,
                self.thread_count == old(self).thread_count,
                self.worker_count == w0 + n,
                self.worker_count <= self.thread_count,
                ids@.len() == n,
                forall|j: int| 0 <= j < n ==> ids@[j] == w0 + j + 1,
                assigned == assigned0 + n,
                self.jobs@ == old(self).jobs@,
                self.connection_worker_map@ == old(self).connection_worker_map@,
            decreases worker_count - n,
        {
            if self.worker_count >= self.thread_count {
                break;
            }
            let id = self.worker_count + 1;
            ids.push(id);
            self.worker_count = id;
            assigned = assigned + 1;
            n = n + 1;
        }
        self.jobs.insert(token, assigned);
        assert forall|t: usize| #[trigger] self.jobs@.contains_key(t) implies self.jobs@[t]
            <= self.worker_count by {
            if t != token {
                assert(old(self).jobs@.contains_key(t));
            }
        }
        ids
    }

    /// Whether a job is registered under `token`.
    pub fn has_job(&self, token: usize) -> (r: bool)
        ensures
            r == self.jobs@.contains_key(token),
    {
        self.jobs.contains_key(&token)
    }

    /// Where an event for `token` goes: to the job's listener when it is a job's token, and
    /// to the serving worker when it is a served connection's token (both may hold).
    pub fn route_event(&self, token: usize) -> (r: EventRoute)
        ensures
            r.to_listener == self.jobs@.contains_key(token),
            match r.to_worker {
                Some(w) => self.connection_worker_map@.contains_key(token)
                    && self.connection_worker_map@[token] == w,
                None => !self.connection_worker_map@.contains_key(token),
            },
    {
        let to_listener = self.jobs.contains_key(&token);
        let to_worker = match self.connection_worker_map.get(&token) {
            Some(w) => Some(*w),
            None => None,
        };
        EventRoute { to_listener, to_worker }
    }

    /// Records that worker `id` now serves the connection under `token`.
    pub fn record_received(&mut self, id: usize, token: usize)
        ensures
            final(self).connection_worker_map@ == old(self).connection_worker_map@.insert(token, id),
            final(self).jobs@ == old(self).jobs@,
            final(self).worker_count == old(self).worker_count,
            final(self).thread_count == old(self).thread_count,
    {
        self.connection_worker_map.insert(token, id);
    }

    /// Records that the connection under `token` has closed.
    pub fn record_deleted(&mut self, token: usize)
        ensures
            final(self).connection_worker_map@ == old(self).connection_worker_map@.remove(token),
            final(self).jobs@ == old(self).jobs@,
            final(self).worker_count == old(self).worker_count,
            final(self).thread_count == old(self).thread_count,
    {
        self.connection_worker_map.remove(&token);
    }
}

/// What accepting on a listener gave.
#[derive(Clone, Copy, Debug, PartialEq, Eq, Structural)]
pub enum AcceptOutcome {
    /// A connection arrived.
    Accepted,
    /// No connection is waiting.
    WouldBlock,
    /// Accepting failed otherwise.
    Failed,
}

/// Whether to go on accepting after an outcome: only "would block" ends the round.
pub fn keep_accepting(outcome: AcceptOutcome) -> (r: bool)
    ensures
        r == !(outcome is WouldBlock),
{
    match outcome {
        AcceptOutcome::WouldBlock => false,
        _ => true,
    }
}

/// Whether a worker with `connections` open takes the next message: it skips receiving
/// while it is at its maximum.
pub fn takes_new_message(connections: usize, max_connections: usize) -> (r: bool)
    ensures
        r == (connections < max_connections),
{
    connections < max_connections
}

} // verus!
