//! The per-guild connection pool discipline: any number of pooled read
//! handles up to a bound, and at most one exclusive writer handle live at any
//! instant. The pool is a state machine: acquisitions that cannot proceed
//! report that the caller would block, and the surrounding runtime maps the
//! writer handle onto a scope-bound guard released on every exit path.
use vstd::prelude::*;

verus! {

/// The acquisition and release transitions of one guild's pool.
#[derive(Debug, Clone, Copy, PartialEq, Eq, Structural)]
pub enum PoolOp {
    AcquireReader,
    ReleaseReader,
    AcquireWriter,
    ReleaseWriter,
}

/// One guild file's pool state: how many pooled read handles and exclusive
/// writer handles are live.
#[derive(Debug, Clone, Copy, PartialEq, Eq, Structural)]
pub struct ConnectionPool {
    /// The bound of the reader pool.
    pub max_readers: usize,
    /// Read handles currently live.
    pub readers_live: usize,
    /// Writer handles currently live; never exceeds one.
    pub writers_live: usize,
}

impl ConnectionPool {
    /// The discipline's invariant: at most one live writer, and no more
    /// readers than the pool holds.
    pub open spec fn wf(self) -> bool {
        self.writers_live <= 1 && self.readers_live <= self.max_readers
    }

    /// What one transition does. An acquisition that cannot proceed (the
    /// reader pool exhausted, or a writer already live) leaves the state
    /// unchanged: the caller blocks and retries. A release of a handle that
    /// is not live is a no-op.
    pub open spec fn spec_step(self, op: PoolOp) -> ConnectionPool {
        match op {
            PoolOp::AcquireReader => if self.readers_live < self.max_readers {
                ConnectionPool { readers_live: (self.readers_live + 1) as usize, ..self }
            } else {
                self
            },
            PoolOp::ReleaseReader => if self.readers_live > 0 {
                ConnectionPool { readers_live: (self.readers_live - 1) as usize, ..self }
            } else {
                self
            },
            PoolOp::AcquireWriter => if self.writers_live == 0 {
                ConnectionPool { writers_live: 1, ..self }
            } else {
                self
            },
            PoolOp::ReleaseWriter => if self.writers_live > 0 {
                ConnectionPool { writers_live: (self.writers_live - 1) as usize, ..self }
            } else {
                self
            },
        }
    }

    /// The pool state after a whole sequence of transitions.
    pub open spec fn spec_run(self, ops: Seq<PoolOp>) -> ConnectionPool
        decreases ops.len(),
    {
        if ops.len() == 0 {
            self
        } else {
            self.spec_step(ops[0]).spec_run(ops.skip(1))
        }
    }

    /// A pool with no live handles.
    pub fn new(max_readers: usize) -> (p: ConnectionPool)
        ensures
            p == (ConnectionPool { max_readers, readers_live: 0, writers_live: 0 }),
            p.wf(),
    {
        ConnectionPool { max_readers, readers_live: 0, writers_live: 0 }
    }

    /// Acquires a pooled read handle. Returns whether one was free; when the
    /// bounded pool is exhausted the caller blocks briefly and retries.
    pub fn get_reader(&mut self) -> (r: bool)
        ensures
            r == (old(self).readers_live < old(self).max_readers),
            *final(self) == old(self).spec_step(PoolOp::AcquireReader),
    {
        if self.readers_live < self.max_readers {
            self.readers_live = self.readers_live + 1;
            true
        } else {
            false
        }
    }

    /// Releases a pooled read handle.
    pub fn release_reader(&mut self)
        requires
            old(self).readers_live > 0,
        ensures
            *final(self) == old(self).spec_step(PoolOp::ReleaseReader),
    {
        self.readers_live = self.readers_live - 1;
    }

    /// Acquires the exclusive writer handle. Returns whether it was free;
    /// while a writer is in flight the caller blocks until it finishes.
    pub fn get_writer(&mut self) -> (r: bool)
        ensures
            r == (old(self).writers_live == 0),
            *final(self) == old(self).spec_step(PoolOp::AcquireWriter),
    {
        if self.writers_live == 0 {
            self.writers_live = 1;
            true
        } else {
            false
        }
    }

    /// Releases the writer handle; the runtime calls this when the handle's
    /// scope ends, on every exit path.
    pub fn release_writer(&mut self)
        requires
            old(self).writers_live > 0,
        ensures
            *final(self) == old(self).spec_step(PoolOp::ReleaseWriter),
    {
        self.writers_live = self.writers_live - 1;
    }
}

/// One transition keeps the discipline's invariant.
pub proof fn lemma_step_preserves_wf(s: ConnectionPool, op: PoolOp)
    requires
        s.wf(),
    ensures
        s.spec_step(op).wf(),
{
}

/// Writer mutual exclusion: from a well-formed state, no sequence of
/// acquisitions and releases ever makes the live-writer count exceed one —
/// two writer-handle acquisitions for the same guild file never overlap.
pub proof fn lemma_writer_exclusion(s: ConnectionPool, ops: Seq<PoolOp>)
    requires
        s.wf(),
    ensures
        s.spec_run(ops).wf(),
        s.spec_run(ops).writers_live <= 1,
    decreases ops.len(),
{
    if ops.len() > 0 {
        lemma_step_preserves_wf(s, ops[0]);
        lemma_writer_exclusion(s.spec_step(ops[0]), ops.skip(1));
    }
}

/// While a writer handle is live, a second acquisition does not enter: it
/// leaves the state unchanged and reports that the caller must wait.
pub proof fn lemma_second_writer_waits(s: ConnectionPool)
    requires
        s.wf(),
    ensures
        s.spec_step(PoolOp::AcquireWriter).spec_step(PoolOp::AcquireWriter) == s.spec_step(
            PoolOp::AcquireWriter,
        ),
        s.spec_step(PoolOp::AcquireWriter).writers_live == 1,
{
}

} // verus!
