use vstd::prelude::*;

use crate::backend::{fields_of, parse_upstreams, Backend, ConfigError};
use crate::counter::RequestCounter;
use crate::pool::{BackendPool, PoolView};

verus! {

/// Per-request state: when the request started, in nanoseconds on the
/// caller's clock.
pub struct MyCtx {
    started_at: u64,
}

impl MyCtx {
    pub fn new(now: u64) -> (r: MyCtx)
        ensures
            r.start() == now,
    {
        MyCtx { started_at: now }
    }

    pub closed spec fn start(&self) -> u64 {
        self.started_at
    }

    pub fn started_at(&self) -> (r: u64)
        ensures
            r == self.start(),
    {
        self.started_at
    }

    /// The time from the start to `now`; zero where the clock went backwards.
    pub fn elapsed(&self, now: u64) -> (r: u64)
        ensures
            r == elapsed_between(self.start(), now),
    {
        if now >= self.started_at {
            now - self.started_at
        } else {
            0
        }
    }
}

pub open spec fn elapsed_between(start: u64, now: u64) -> u64 {
    if now >= start {
        (now - start) as u64
    } else {
        0
    }
}

/// The status to report: the one that was written, or 0 where no response
/// was produced.
pub open spec fn reported_status(written: Option<u16>) -> u16 {
    match written {
        Some(s) => s,
        None => 0,
    }
}

pub fn response_code(written: Option<u16>) -> (r: u16)
    ensures
        r == reported_status(written),
{
    match written {
        Some(s) => s,
        None => 0,
    }
}

/// What the log line of one finished request reports.
#[derive(Debug, Clone, Copy, PartialEq, Eq, Structural)]
pub struct LogRecord {
    pub status: u16,
    pub elapsed_nanos: u64,
}

/// The proxy as its pool and its request count.
pub struct LbView {
    pub pool: PoolView,
    pub requests: nat,
}

impl LbView {
    pub open spec fn wf(self) -> bool {
        self.pool.wf()
    }

    /// After a backend is chosen for a request.
    pub open spec fn selected(self) -> LbView {
        LbView { pool: self.pool.advanced(), requests: self.requests }
    }

    /// After a request is logged and counted.
    pub open spec fn logged(self) -> LbView {
        LbView { pool: self.pool, requests: self.requests + 1 }
    }
}

/// The proxy's shared state: the backend pool that each request takes its
/// upstream from, and the count of requests that went through.
pub struct LB {
    backends: BackendPool,
    requests: RequestCounter,
}

impl View for LB {
    type V = LbView;

    closed spec fn view(&self) -> LbView {
        LbView { pool: self.backends@, requests: self.requests@ }
    }
}

impl LB {
    pub open spec fn wf(&self) -> bool {
        self@.wf()
    }

    pub fn new(backends: BackendPool) -> (r: LB)
        requires
            backends.wf(),
        ensures
            r.wf(),
            r@.pool == backends@,
            r@.requests == 0,
    {
        LB { backends, requests: RequestCounter::new() }
    }

    /// A proxy over the comma-separated backend list `config`, with the
    /// cursor at the first backend and no request counted; refused where an
    /// entry is empty.
    pub fn from_config(config: &[u8]) -> (r: Result<LB, ConfigError>)
        ensures
            r is Ok <==> (forall|k: int|
                0 <= k < fields_of(config@).len() ==> #[trigger] fields_of(config@)[k].len() > 0),
            match r {
                Ok(lb) => lb.wf() && lb@.pool.addrs == fields_of(config@) && lb@.pool.cursor == 0
                    && lb@.requests == 0,
                Err(e) => e == ConfigError::EmptyAddress,
            },
    {
        match parse_upstreams(config) {
            Ok(addrs) => {
                match BackendPool::new(addrs) {
                    Ok(pool) => Ok(LB::new(pool)),
                    Err(e) => Err(e),
                }
            },
            Err(e) => Err(e),
        }
    }

    /// Starts a request at time `now`.
    pub fn new_ctx(&self, now: u64) -> (r: MyCtx)
        ensures
            r.start() == now,
    {
        MyCtx::new(now)
    }

    /// Chooses the upstream for a request by round robin, restarting the
    /// request's clock at `now`.
    pub fn upstream_peer(&mut self, ctx: &mut MyCtx, now: u64) -> (r: Backend)
        requires
            old(self).wf(),
        ensures
            final(self).wf(),
            r@ == old(self)@.pool.current(),
            final(self)@ == old(self)@.selected(),
            final(ctx).start() == now,
    {
        *ctx = MyCtx::new(now);
        self.backends.select()
    }

    /// Whether one more request can still be counted.
    pub fn can_count(&self) -> (r: bool)
        ensures
            r == (self@.requests < u64::MAX),
    {
        self.requests.can_increment()
    }

    /// Finishes a request at time `now`: reports its status (0 where no
    /// response was written) and its elapsed time, and counts it, whether it
    /// succeeded or failed.
    pub fn logging(&mut self, ctx: &MyCtx, now: u64, written: Option<u16>) -> (r: LogRecord)
        requires
            old(self).wf(),
            old(self)@.requests < u64::MAX,
        ensures
            final(self).wf(),
            r.status == reported_status(written),
            r.elapsed_nanos == elapsed_between(ctx.start(), now),
            final(self)@ == old(self)@.logged(),
    {
        let status = response_code(written);
        let elapsed_nanos = ctx.elapsed(now);
        self.requests.increment();
        LogRecord { status, elapsed_nanos }
    }

    /// The number of requests counted so far.
    pub fn requests(&self) -> (r: u64)
        ensures
            r == self@.requests,
    {
        self.requests.value()
    }

    pub fn pool(&self) -> (r: &BackendPool)
        ensures
            r@ == self@.pool,
            self.wf() ==> r.wf(),
    {
        &self.backends
    }
}

/// Request accounting: a request that gets a backend and is then logged is
/// counted exactly once, whatever its outcome, and moves the cursor once.
pub proof fn lemma_request_accounting(v: LbView)
    requires
        v.wf(),
    ensures
        v.selected().logged().requests == v.requests + 1,
        v.selected().logged().pool == v.pool.advanced(),
        v.selected().logged().wf(),
{
    crate::pool::lemma_after(v.pool, 1);
}

} // verus!
