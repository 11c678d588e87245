//! The job engine: configuration, the job store with its pending index, and
//! the result cache. Time is a count of milliseconds on a monotonic clock,
//! handed in by the caller.
use vstd::prelude::*;
use std::collections::HashMap;
use priority_queue::PriorityQueue;
use crate::ids::{fresh_key, format_id, id_text, parse_id, parsed_id};
use crate::pending::{empty_index, entries, queue_clear, queue_len, queue_new, queue_pop, queue_push};
use crate::processing::{copy_bytes, process_task, processed_from};

verus! {

broadcast use vstd::std_specs::hash::group_hash_axioms;

pub const DEFAULT_WORKER_THREADS: usize = 8;

pub const DEFAULT_QUEUE_CAPACITY: usize = 1000;

pub const DEFAULT_RESULT_TTL_SECONDS: u64 = 3600;

pub const DEFAULT_MEMORY_LIMIT_MB: usize = 1024;

pub const BYTES_PER_MB: u128 = 1048576;

/// The settings fixed when the engine starts.
#[derive(Clone, Copy, Debug, PartialEq, Eq, Structural)]
pub struct Config {
    pub worker_threads: usize,
    pub queue_capacity: usize,
    pub result_ttl_seconds: u64,
    pub memory_limit_mb: usize,
}

/// The settings given, each missing one at its default.
pub open spec fn options_config(
    worker_threads: Option<usize>,
    queue_capacity: Option<usize>,
    result_ttl_seconds: Option<u64>,
    memory_limit_mb: Option<usize>,
) -> Config {
    Config {
        worker_threads: worker_threads.unwrap_or(DEFAULT_WORKER_THREADS),
        queue_capacity: queue_capacity.unwrap_or(DEFAULT_QUEUE_CAPACITY),
        result_ttl_seconds: result_ttl_seconds.unwrap_or(DEFAULT_RESULT_TTL_SECONDS),
        memory_limit_mb: memory_limit_mb.unwrap_or(DEFAULT_MEMORY_LIMIT_MB),
    }
}

impl Config {
    /// The largest payload accepted, in bytes.
    pub open spec fn max_payload(self) -> int {
        self.memory_limit_mb as int * BYTES_PER_MB as int
    }

    /// The time-to-live of a cached result, in milliseconds.
    pub open spec fn ttl_ms(self) -> int {
        self.result_ttl_seconds as int * 1000
    }

    /// The settings given, each missing one at its default.
    pub fn from_options(
        worker_threads: Option<usize>,
        queue_capacity: Option<usize>,
        result_ttl_seconds: Option<u64>,
        memory_limit_mb: Option<usize>,
    ) -> (r: Config)
        ensures
            r == options_config(worker_threads, queue_capacity, result_ttl_seconds, memory_limit_mb),
    {
        Config {
            worker_threads: match worker_threads {
                Some(v) => v,
                None => DEFAULT_WORKER_THREADS,
            },
            queue_capacity: match queue_capacity {
                Some(v) => v,
                None => DEFAULT_QUEUE_CAPACITY,
            },
            result_ttl_seconds: match result_ttl_seconds {
                Some(v) => v,
                None => DEFAULT_RESULT_TTL_SECONDS,
            },
            memory_limit_mb: match memory_limit_mb {
                Some(v) => v,
                None => DEFAULT_MEMORY_LIMIT_MB,
            },
        }
    }
}

impl Default for Config {
    fn default() -> (r: Config)
        ensures
            r.worker_threads == DEFAULT_WORKER_THREADS,
            r.queue_capacity == DEFAULT_QUEUE_CAPACITY,
            r.result_ttl_seconds == DEFAULT_RESULT_TTL_SECONDS,
            r.memory_limit_mb == DEFAULT_MEMORY_LIMIT_MB,
    {
        Config::from_options(None, None, None, None)
    }
}

/// A submitted job, held until a worker claims it.
pub struct Job {
    pub id: u128,
    pub data: Vec<u8>,
    pub priority: i32,
    pub created_at: u64,
}

/// A finished job's output and the time it was stored.
pub struct CachedResult {
    pub id: u128,
    pub data: Vec<u8>,
    pub completed_at: u64,
}

/// Why an engine operation was refused.
#[derive(Clone, Copy, Debug, PartialEq, Eq, Structural)]
pub enum EngineError {
    NotInitialized,
    QueueFull,
    PayloadTooLarge,
    InvalidId,
    NotFound,
}

/// What a lookup finds for a known identifier.
#[derive(Debug, PartialEq, Eq)]
pub enum Lookup {
    Ready(Vec<u8>),
    Pending,
}

/// Counts and settings of a running engine.
#[derive(Clone, Copy, Debug, PartialEq, Eq, Structural)]
pub struct Stats {
    pub queue_size: usize,
    pub results_count: usize,
    pub worker_threads: usize,
    pub queue_capacity: usize,
    pub result_ttl_seconds: u64,
    pub memory_limit_mb: usize,
}

/// The key a job is dispatched by: the negated priority. The index pops the
/// greatest key first, so the job with the lowest priority value leaves
/// first; this ordering is kept deliberately, callers rely on it.
pub open spec fn dispatch_key(priority: i32) -> i64 {
    -(priority as int) as i64
}

/// How long ago a result was stored; a time before it counts as no age.
pub open spec fn age(completed_at: u64, now: u64) -> int {
    if now >= completed_at {
        now - completed_at
    } else {
        0
    }
}

/// Whether a result stored at `completed_at` has outlived the time-to-live.
pub open spec fn expired(completed_at: u64, now: u64, ttl_ms: int) -> bool {
    age(completed_at, now) > ttl_ms
}

/// The results that a cleanup at `now` keeps.
pub open spec fn kept(now: u64, ttl_ms: int) -> spec_fn(CachedResult) -> bool {
    |r: CachedResult| !expired(r.completed_at, now, ttl_ms)
}

/// The results that a cleanup at `now` leaves of `cache` under `config`.
pub open spec fn cleaned(cache: Seq<CachedResult>, config: Option<Config>, now: u64) -> Seq<CachedResult> {
    match config {
        None => cache,
        Some(c) => cache.filter(kept(now, c.ttl_ms())),
    }
}

/// Position `i` holds the first cached result for `id`.
pub open spec fn first_hit(cache: Seq<CachedResult>, id: u128, i: int) -> bool {
    &&& 0 <= i < cache.len()
    &&& cache[i].id == id
    &&& forall|j: int| 0 <= j < i ==> cache[j].id != id
}

/// No two results share an identifier.
pub open spec fn unique_ids(cache: Seq<CachedResult>) -> bool {
    forall|i: int, j: int|
        0 <= i < cache.len() && 0 <= j < cache.len() && #[trigger] cache[i].id == #[trigger] cache[j].id
            ==> i == j
}

/// Some cached result is stored for `id`.
pub open spec fn cached(cache: Seq<CachedResult>, id: u128) -> bool {
    exists|i: int| 0 <= i < cache.len() && cache[i].id == id
}

/// `next` is `cache` with the output `data` of job `id`, completed at
/// `now`, at position `i`: in place of the first result for `id`, or after
/// all others where there was none.
pub open spec fn published_at(
    cache: Seq<CachedResult>,
    next: Seq<CachedResult>,
    id: u128,
    data: Seq<u8>,
    now: u64,
    i: int,
) -> bool {
    &&& first_hit(next, id, i)
    &&& next[i].data@ == data
    &&& next[i].completed_at == now
    &&& if cached(cache, id) {
        first_hit(cache, id, i) && next == cache.update(i, next[i])
    } else {
        i == cache.len() && next == cache.push(next[i])
    }
}

/// The engine. Before `init` it holds no configuration and refuses work.
pub struct Engine {
    config: Option<Config>,
    queue: PriorityQueue<u128, i64>,
    jobs: HashMap<u128, Job>,
    in_flight: HashMap<u128, ()>,
    issued: HashMap<u128, ()>,
    results: Vec<CachedResult>,
}

impl Engine {
    /// The pending index: each waiting job's identifier with its dispatch key.
    pub closed spec fn pending(&self) -> Map<u128, i64> {
        entries(self.queue)
    }

    /// The job store.
    pub closed spec fn jobs(&self) -> Map<u128, Job> {
        self.jobs@
    }

    /// The result cache, oldest insertion first.
    pub closed spec fn cache(&self) -> Seq<CachedResult> {
        self.results@
    }

    /// The jobs claimed by a worker whose output is not yet published.
    pub closed spec fn in_flight(&self) -> Set<u128> {
        self.in_flight@.dom()
    }

    /// Every identifier this engine has handed out or published under.
    pub closed spec fn issued(&self) -> Set<u128> {
        self.issued@.dom()
    }

    /// The configuration, once the engine is initialised.
    pub closed spec fn config(&self) -> Option<Config> {
        self.config
    }

    /// The pending index and the job store hold the same identifiers, each
    /// job under its own identifier and keyed by its priority; every
    /// identifier in use has been issued; no two cached results share one.
    pub closed spec fn wf(&self) -> bool {
        &&& entries(self.queue).dom() == self.jobs@.dom()
        &&& forall|id: u128| #[trigger]
            self.jobs@.contains_key(id) ==> self.jobs@[id].id == id && entries(self.queue)[id]
                == dispatch_key(self.jobs@[id].priority)
        &&& forall|id: u128| #[trigger]
            self.jobs@.contains_key(id) ==> self.issued@.contains_key(id)
        &&& forall|id: u128| #[trigger]
            self.in_flight@.contains_key(id) ==> self.issued@.contains_key(id)
        &&& forall|i: int|
            0 <= i < self.results@.len() ==> #[trigger] self.issued@.contains_key(
                self.results@[i].id,
            )
        &&& unique_ids(self.results@)
    }

    /// The error, if any, that a submission of `len` bytes meets.
    pub open spec fn admission(&self, len: int) -> Option<EngineError> {
        match self.config() {
            None => Some(EngineError::NotInitialized),
            Some(c) => if len > c.max_payload() {
                Some(EngineError::PayloadTooLarge)
            } else if self.pending().len() >= c.queue_capacity {
                Some(EngineError::QueueFull)
            } else {
                None
            },
        }
    }

    /// `next` is this engine with job `id`, under an identifier not in use
    /// before, added.
    pub open spec fn accepted(
        &self,
        next: &Engine,
        id: u128,
        data: Seq<u8>,
        priority: i32,
        now: u64,
    ) -> bool {
        &&& !self.issued().contains(id)
        &&& !self.jobs().contains_key(id)
        &&& !self.pending().contains_key(id)
        &&& !self.in_flight().contains(id)
        &&& !cached(self.cache(), id)
        &&& next.issued() == self.issued().insert(id)
        &&& next.in_flight() == self.in_flight()
        &&& next.pending() == self.pending().insert(id, dispatch_key(priority))
        &&& next.jobs() == self.jobs().insert(id, next.jobs()[id])
        &&& next.jobs()[id].id == id
        &&& next.jobs()[id].data@ == data
        &&& next.jobs()[id].priority == priority
        &&& next.jobs()[id].created_at == now
        &&& next.cache() == self.cache()
        &&& next.config() == self.config()
    }

    /// `next` is this engine after a worker turn at `now` that took job `id`,
    /// the one of greatest key, processed it to `out`, published `out` and
    /// dropped expired results.
    pub open spec fn turn_done(&self, next: &Engine, id: u128, out: Seq<u8>, now: u64) -> bool {
        &&& self.pending().contains_key(id)
        &&& forall|j: u128| #[trigger]
            self.pending().contains_key(j) ==> self.pending()[j] <= self.pending()[id]
        &&& self.jobs().contains_key(id)
        &&& processed_from(self.jobs()[id].data@, out)
        &&& next.pending() == self.pending().remove(id)
        &&& next.jobs() == self.jobs().remove(id)
        &&& next.in_flight() == self.in_flight().remove(id)
        &&& next.issued() == self.issued().insert(id)
        &&& exists|c: Seq<CachedResult>, i: int|
            #[trigger] published_at(self.cache(), c, id, out, now, i) && next.cache() == cleaned(
                c,
                self.config(),
                now,
            )
        &&& cached(next.cache(), id)
    }

    /// `r` is what a lookup of `id` owes on this engine.
    pub open spec fn lookup_holds(&self, id: u128, r: Result<Lookup, EngineError>) -> bool {
        match self.config() {
            None => r == Err::<Lookup, EngineError>(EngineError::NotInitialized),
            Some(_) => match r {
                Ok(Lookup::Ready(d)) => exists|i: int|
                    first_hit(self.cache(), id, i) && d@ == self.cache()[i].data@,
                Ok(Lookup::Pending) => !cached(self.cache(), id) && (self.jobs().contains_key(id)
                    || self.in_flight().contains(id)),
                Err(e) => e == EngineError::NotFound && !cached(self.cache(), id)
                    && !self.jobs().contains_key(id) && !self.in_flight().contains(id),
            },
        }
    }

    /// The statistics of this engine under configuration `c`.
    pub open spec fn stats_with(&self, c: Config) -> Stats {
        Stats {
            queue_size: self.pending().len() as usize,
            results_count: self.cache().len() as usize,
            worker_threads: c.worker_threads,
            queue_capacity: c.queue_capacity,
            result_ttl_seconds: c.result_ttl_seconds,
            memory_limit_mb: c.memory_limit_mb,
        }
    }

    /// An engine not yet initialised, with nothing pending or cached.
    pub fn new() -> (r: Engine)
        ensures
            r.wf(),
            r.config() is None,
            r.pending() == empty_index(),
            r.jobs() == Map::<u128, Job>::empty(),
            r.cache() == Seq::<CachedResult>::empty(),
            r.in_flight() == Set::<u128>::empty(),
            r.issued() == Set::<u128>::empty(),
    {
        Engine {
            config: None,
            queue: queue_new(),
            jobs: HashMap::new(),
            in_flight: HashMap::new(),
            issued: HashMap::new(),
            results: Vec::new(),
        }
    }

    /// Fixes the configuration from the options given. A second call leaves
    /// the engine as it is.
    pub fn init(
        &mut self,
        worker_threads: Option<usize>,
        queue_capacity: Option<usize>,
        result_ttl_seconds: Option<u64>,
        memory_limit_mb: Option<usize>,
    )
        requires
            old(self).wf(),
        ensures
            final(self).wf(),
            final(self).pending() == old(self).pending(),
            final(self).jobs() == old(self).jobs(),
            final(self).cache() == old(self).cache(),
            final(self).in_flight() == old(self).in_flight(),
            final(self).issued() == old(self).issued(),
            old(self).config() is Some ==> final(self).config() == old(self).config(),
            old(self).config() is None ==> final(self).config() == Some(
                options_config(
                    worker_threads,
                    queue_capacity,
                    result_ttl_seconds,
                    memory_limit_mb,
                ),
            ),
    {
        if self.config.is_none() {
            self.config = Some(
                Config::from_options(
                    worker_threads,
                    queue_capacity,
                    result_ttl_seconds,
                    memory_limit_mb,
                ),
            );
        }
    }
}


impl Engine {
    /// Queues a payload. Refuses it before `init`, when it is larger than
    /// the configured limit, and when the pending index is at capacity, in
    /// that order; otherwise stores the job under an identifier that no
    /// pending job has and returns that identifier's text.
    pub fn submit(&mut self, data: Vec<u8>, priority: Option<i32>, now: u64) -> (r: Result<
        String,
        EngineError,
    >)
        requires
            old(self).wf(),
        ensures
            final(self).wf(),
            r is Err <==> old(self).admission(data@.len() as int) is Some,
            match r {
                Err(e) => Some(e) == old(self).admission(data@.len() as int) && *final(self)
                    == *old(self),
                Ok(s) => exists|id: u128|
                    {
                        &&& old(self).accepted(final(self), id, data@, priority.unwrap_or(0), now)
                        &&& s@ == id_text(id)
                        &&& parsed_id(s@) == Some(id)
                    },
            },
    {
        let cfg = match self.config {
            None => return Err(EngineError::NotInitialized),
            Some(c) => c,
        };
        if (data.len() as u128) > (cfg.memory_limit_mb as u128) * BYTES_PER_MB {
            return Err(EngineError::PayloadTooLarge);
        }
        if queue_len(&self.queue) >= cfg.queue_capacity {
            return Err(EngineError::QueueFull);
        }
        let id = fresh_key(&self.issued, None);
        let p: i32 = match priority {
            Some(p) => p,
            None => 0,
        };
        let key: i64 = -(p as i64);
        let ghost bytes = data@;
        proof {
            if cached(self.results@, id) {
                let i = choose|i: int| 0 <= i < self.results@.len() && self.results@[i].id == id;
                assert(self.issued@.contains_key(self.results@[i].id));
            }
        }
        self.jobs.insert(id, Job { id, data, priority: p, created_at: now });
        queue_push(&mut self.queue, id, key);
        self.issued.insert(id, ());
        let s = format_id(id);
        proof {
            assert(self.issued@.dom() == old(self).issued@.dom().insert(id));
            assert(forall|i: int|
                0 <= i < self.results@.len() ==> #[trigger] self.issued@.contains_key(
                    self.results@[i].id,
                ));
            assert(self.jobs@[id].data@ == bytes);
            assert(self.jobs@ == old(self).jobs@.insert(id, self.jobs@[id]));
        }
        Ok(s)
    }

    /// Finds `id`: its first cached result, else whether it is still pending.
    pub fn lookup(&self, id: u128) -> (r: Result<Lookup, EngineError>)
        ensures
            self.lookup_holds(id, r),
    {
        if self.config.is_none() {
            return Err(EngineError::NotInitialized);
        }
        let mut i: usize = 0;
        while i < self.results.len()
            invariant
                i <= self.results@.len(),
                self.config is Some,
                forall|j: int| 0 <= j < i ==> self.results@[j].id != id,
            decreases self.results@.len() - i,
        {
            if self.results[i].id == id {
                let d = copy_bytes(self.results[i].data.as_slice());
                assert(first_hit(self.cache(), id, i as int) && d@ == self.cache()[i as int].data@);
                return Ok(Lookup::Ready(d));
            }
            i = i + 1;
        }
        if self.jobs.contains_key(&id) || self.in_flight.contains_key(&id) {
            Ok(Lookup::Pending)
        } else {
            Err(EngineError::NotFound)
        }
    }

    /// Looks up the identifier that `text` spells.
    pub fn get_result(&self, text: &str) -> (r: Result<Lookup, EngineError>)
        ensures
            self.config() is None ==> r == Err::<Lookup, EngineError>(
                EngineError::NotInitialized,
            ),
            self.config() is Some ==> match parsed_id(text@) {
                None => r == Err::<Lookup, EngineError>(EngineError::InvalidId),
                Some(id) => self.lookup_holds(id, r),
            },
    {
        if self.config.is_none() {
            return Err(EngineError::NotInitialized);
        }
        match parse_id(text) {
            None => Err(EngineError::InvalidId),
            Some(id) => self.lookup(id),
        }
    }

    /// Takes the job of greatest dispatch key out of the index and the store.
    pub fn claim_next(&mut self) -> (r: Option<Job>)
        requires
            old(self).wf(),
        ensures
            final(self).wf(),
            final(self).cache() == old(self).cache(),
            final(self).config() == old(self).config(),
            final(self).issued() == old(self).issued(),
            old(self).pending().dom().finite(),
            match r {
                None => {
                    &&& old(self).pending().dom() == empty_index().dom()
                    &&& final(self).pending() == old(self).pending()
                    &&& final(self).jobs() == old(self).jobs()
                    &&& final(self).in_flight() == old(self).in_flight()
                },
                Some(job) => {
                    &&& old(self).pending().contains_key(job.id)
                    &&& final(self).pending().len() == old(self).pending().len() - 1
                    &&& final(self).in_flight() == old(self).in_flight().insert(job.id)
                    &&& old(self).jobs().contains_key(job.id)
                    &&& old(self).jobs()[job.id] == job
                    &&& forall|j: u128| #[trigger]
                        old(self).pending().contains_key(j) ==> old(self).pending()[j]
                            <= old(self).pending()[job.id]
                    &&& final(self).pending() == old(self).pending().remove(job.id)
                    &&& final(self).jobs() == old(self).jobs().remove(job.id)
                },
            },
    {
        assert(old(self).jobs@.dom().finite());
        match queue_pop(&mut self.queue) {
            None => None,
            Some((id, _key)) => {
                assert(old(self).jobs@.contains_key(id));
                let job = self.jobs.remove(&id);
                self.in_flight.insert(id, ());
                assert(self.jobs@ == old(self).jobs@.remove(id));
                assert(entries(self.queue).dom() == self.jobs@.dom());
                assert(self.in_flight@.dom() == old(self).in_flight@.dom().insert(id));
                job
            },
        }
    }

    /// Stores the output of job `id`, completed at `now`, in place of the
    /// first result already cached for `id`, else after the others.
    pub fn publish(&mut self, id: u128, data: Vec<u8>, now: u64)
        requires
            old(self).wf(),
        ensures
            final(self).wf(),
            final(self).pending() == old(self).pending(),
            final(self).jobs() == old(self).jobs(),
            final(self).config() == old(self).config(),
            final(self).in_flight() == old(self).in_flight().remove(id),
            final(self).issued() == old(self).issued().insert(id),
            exists|i: int| #[trigger] published_at(old(self).cache(), final(self).cache(), id, data@, now, i),
    {
        let mut pos: Option<usize> = None;
        let mut i: usize = 0;
        while pos.is_none() && i < self.results.len()
            invariant
                i <= self.results@.len(),
                match pos {
                    None => forall|j: int| 0 <= j < i ==> self.results@[j].id != id,
                    Some(k) => first_hit(self.results@, id, k as int),
                },
            decreases self.results@.len() - i,
        {
            if self.results[i].id == id {
                pos = Some(i);
            }
            i = i + 1;
        }
        let ghost bytes = data@;
        let entry = CachedResult { id, data, completed_at: now };
        self.in_flight.remove(&id);
        self.issued.insert(id, ());
        proof {
            assert(self.in_flight@.dom() == old(self).in_flight@.dom().remove(id));
            assert(self.issued@.dom() == old(self).issued@.dom().insert(id));
        }
        match pos {
            Some(k) => {
                assert(cached(old(self).results@, id));
                self.results.set(k, entry);
                assert(forall|j: int| 0 <= j < k ==> self.results@[j] == old(self).results@[j]);
                assert(published_at(old(self).results@, self.results@, id, bytes, now, k as int));
                assert forall|a: int, b: int|
                    0 <= a < self.results@.len() && 0 <= b < self.results@.len()
                        && #[trigger] self.results@[a].id == #[trigger] self.results@[b].id implies a
                    == b by {
                    if a != k && b != k {
                        assert(old(self).results@[a].id == old(self).results@[b].id);
                    } else if a == k && b != k {
                        assert(old(self).results@[b].id == id);
                        assert(old(self).results@[k as int].id == id);
                    } else if b == k && a != k {
                        assert(old(self).results@[a].id == id);
                        assert(old(self).results@[k as int].id == id);
                    }
                }
            },
            None => {
                let n = self.results.len();
                assert(!cached(old(self).results@, id));
                self.results.push(entry);
                assert(forall|j: int| 0 <= j < n ==> self.results@[j] == old(self).results@[j]);
                assert(published_at(old(self).results@, self.results@, id, bytes, now, n as int));
                assert forall|a: int, b: int|
                    0 <= a < self.results@.len() && 0 <= b < self.results@.len()
                        && #[trigger] self.results@[a].id == #[trigger] self.results@[b].id implies a
                    == b by {
                    if a < n && b < n {
                        assert(old(self).results@[a].id == old(self).results@[b].id);
                    } else if a < n {
                        assert(old(self).results@[a].id == id);
                    } else if b < n {
                        assert(old(self).results@[b].id == id);
                    }
                }
            },
        }
        assert(self.cache() == self.results@ && old(self).cache() == old(self).results@);
        assert(forall|i: int|
            0 <= i < self.results@.len() ==> #[trigger] self.issued@.contains_key(
                self.results@[i].id,
            )) by {
            assert forall|i: int| 0 <= i < self.results@.len() implies #[trigger] self.issued@.contains_key(
                self.results@[i].id) by {
                if self.results@[i].id != id {
                    assert(old(self).results@[i].id == self.results@[i].id);
                }
            }
        }
    }
}


impl Engine {
    /// Drops every cached result whose age at `now` exceeds the configured
    /// time-to-live, keeping the others in order. Before `init` nothing
    /// changes.
    pub fn cleanup_old_results(&mut self, now: u64)
        requires
            old(self).wf(),
        ensures
            final(self).wf(),
            final(self).pending() == old(self).pending(),
            final(self).jobs() == old(self).jobs(),
            final(self).config() == old(self).config(),
            final(self).in_flight() == old(self).in_flight(),
            final(self).issued() == old(self).issued(),
            match old(self).config() {
                None => final(self).cache() == old(self).cache(),
                Some(c) => final(self).cache() == old(self).cache().filter(kept(now, c.ttl_ms())),
            },
    {
        let cfg = match self.config {
            None => return,
            Some(c) => c,
        };
        let ttl_ms: u128 = (cfg.result_ttl_seconds as u128) * 1000;
        let ghost keep = kept(now, cfg.ttl_ms());
        let ghost start = self.results@;
        let ghost mut j: int = 0;
        let mut i: usize = 0;
        while i < self.results.len()
            invariant
                0 <= j <= start.len(),
                i == start.subrange(0, j).filter(keep).len(),
                self.results@ == start.subrange(0, j).filter(keep) + start.subrange(j, start.len() as int),
                ttl_ms == cfg.ttl_ms(),
                keep == kept(now, cfg.ttl_ms()),
                self.queue == old(self).queue,
                self.jobs == old(self).jobs,
                self.config == old(self).config,
                self.in_flight == old(self).in_flight,
                self.issued == old(self).issued,
                old(self).wf(),
                unique_ids(self.results@),
                forall|k: int|
                    0 <= k < self.results@.len() ==> #[trigger] self.issued@.contains_key(
                        self.results@[k].id,
                    ),
            decreases self.results@.len() - i,
        {
            proof {
                assert(self.results@.len() == i + (start.len() - j));
                assert(self.results@[i as int] == start[j]);
                start.subrange(0, j).lemma_filter_push(start[j], keep);
                assert(start.subrange(0, j + 1) == start.subrange(0, j).push(start[j]));
            }
            let c = self.results[i].completed_at;
            let age: u64 = if now >= c { now - c } else { 0 };
            if (age as u128) > ttl_ms {
                let ghost before = self.results@;
                let _ = self.results.remove(i);
                proof {
                    assert forall|k: int| 0 <= k < self.results@.len() implies self.results@[k] == (if k
                        < i {
                        before[k]
                    } else {
                        before[k + 1]
                    }) by {}
                    assert forall|a: int, b: int|
                        0 <= a < self.results@.len() && 0 <= b < self.results@.len()
                            && #[trigger] self.results@[a].id == #[trigger] self.results@[b].id implies a
                        == b by {
                        let a2 = if a < i { a } else { a + 1 };
                        let b2 = if b < i { b } else { b + 1 };
                        assert(before[a2].id == before[b2].id);
                    }
                    assert forall|k: int| 0 <= k < self.results@.len() implies #[trigger] self.issued@.contains_key(
                        self.results@[k].id) by {
                        let k2 = if k < i { k } else { k + 1 };
                        assert(before[k2].id == self.results@[k].id);
                    }
                    assert(!keep(start[j]));
                    assert(self.results@ =~= start.subrange(0, j + 1).filter(keep) + start.subrange(j + 1, start.len() as int));
                }
            } else {
                proof {
                    assert(keep(start[j]));
                    assert(self.results@ =~= start.subrange(0, j + 1).filter(keep) + start.subrange(j + 1, start.len() as int));
                }
                i = i + 1;
            }
            proof {
                j = j + 1;
            }
        }
        proof {
            assert(j == start.len());
            assert(start.subrange(0, j) == start);
            assert(self.results@ =~= start.filter(keep));
        }
    }

    /// Empties the pending index, the job store and the result cache.
    pub fn clear_all(&mut self) -> (r: Result<(), EngineError>)
        requires
            old(self).wf(),
        ensures
            final(self).wf(),
            final(self).config() == old(self).config(),
            final(self).in_flight() == old(self).in_flight(),
            final(self).issued() == old(self).issued(),
            match old(self).config() {
                None => r == Err::<(), EngineError>(EngineError::NotInitialized)
                    && final(self).pending() == old(self).pending() && final(self).jobs()
                    == old(self).jobs() && final(self).cache() == old(self).cache(),
                Some(_) => r == Ok::<(), EngineError>(()) && final(self).pending() == empty_index()
                    && final(self).jobs() == Map::<u128, Job>::empty() && final(self).cache()
                    == Seq::<CachedResult>::empty(),
            },
    {
        if self.config.is_none() {
            return Err(EngineError::NotInitialized);
        }
        queue_clear(&mut self.queue);
        self.jobs.clear();
        self.results.clear();
        proof {
            assert(entries(self.queue).dom() =~= self.jobs@.dom());
        }
        Ok(())
    }

    /// The number of pending jobs and of cached results, with the settings.
    pub fn get_stats(&self) -> (r: Result<Stats, EngineError>)
        requires
            self.wf(),
        ensures
            match self.config() {
                None => r == Err::<Stats, EngineError>(EngineError::NotInitialized),
                Some(c) => r == Ok::<Stats, EngineError>(self.stats_with(c)),
            },
    {
        let cfg = match self.config {
            None => return Err(EngineError::NotInitialized),
            Some(c) => c,
        };
        Ok(
            Stats {
                queue_size: queue_len(&self.queue),
                results_count: self.results.len(),
                worker_threads: cfg.worker_threads,
                queue_capacity: cfg.queue_capacity,
                result_ttl_seconds: cfg.result_ttl_seconds,
                memory_limit_mb: cfg.memory_limit_mb,
            },
        )
    }

    /// One turn of a worker: claims the next job, processes it, stores its
    /// output at `now` and drops expired results. Returns whether a job was
    /// processed.
    pub fn worker_turn(&mut self, now: u64) -> (r: bool)
        requires
            old(self).wf(),
        ensures
            final(self).wf(),
            final(self).config() == old(self).config(),
            r == (old(self).pending().dom() != empty_index().dom()),
            !r ==> {
                &&& final(self).pending() == old(self).pending()
                &&& final(self).jobs() == old(self).jobs()
                &&& final(self).in_flight() == old(self).in_flight()
                &&& final(self).issued() == old(self).issued()
                &&& final(self).cache() == cleaned(old(self).cache(), old(self).config(), now)
            },
            r ==> exists|id: u128, out: Seq<u8>| #[trigger] old(self).turn_done(final(self), id, out, now),
    {
        let claimed = self.claim_next();
        match claimed {
            Some(job) => {
                let id = job.id;
                let out = process_task(job.data.as_slice());
                self.publish(id, out, now);
                let ghost published = self.results@;
                self.cleanup_old_results(now);
                proof {
                    let i = choose|i: int| #[trigger] published_at(old(self).results@, published, id, out@, now, i);
                    if let Some(c) = self.config {
                        let keep = kept(now, c.ttl_ms());
                        assert(keep(published[i]));
                        published.lemma_filter_contains(keep, i);
                        let k = choose|k: int| 0 <= k < self.results@.len() && self.results@[k] == published[i];
                        assert(self.results@[k].id == id);
                    } else {
                        assert(self.results@[i].id == id);
                    }
                    assert(cached(self.cache(), id));
                    assert(old(self).pending().contains_key(id));
                    assert(published_at(old(self).cache(), published, id, out@, now, i));
                    assert(self.in_flight@.dom() =~= old(self).in_flight@.dom().remove(id));
                    assert(old(self).turn_done(self, id, out@, now));
                }
                true
            },
            None => {
                self.cleanup_old_results(now);
                false
            },
        }
    }
}


/// A job that is still in the store, or claimed by a worker and not yet
/// published, is reported as pending or ready, never as missing.
pub proof fn lemma_pending_job_is_not_missing(e: Engine, id: u128, r: Result<Lookup, EngineError>)
    requires
        e.config() is Some,
        e.jobs().contains_key(id) || e.in_flight().contains(id),
        e.lookup_holds(id, r),
    ensures
        r is Ok,
{
}

/// An identifier with a cached result is reported ready: once a worker turn
/// has processed a job, its lookup no longer reports it pending.
pub proof fn lemma_processed_job_is_ready(e: Engine, id: u128, r: Result<Lookup, EngineError>)
    requires
        e.config() is Some,
        cached(e.cache(), id),
        e.lookup_holds(id, r),
    ensures
        r matches Ok(Lookup::Ready(_)),
{
}

/// Once the output of a job is published, a lookup of its identifier finds
/// exactly that output.
pub proof fn lemma_published_output_is_ready(
    before: Seq<CachedResult>,
    e: Engine,
    id: u128,
    data: Seq<u8>,
    now: u64,
    r: Result<Lookup, EngineError>,
)
    requires
        e.config() is Some,
        exists|i: int| #[trigger] published_at(before, e.cache(), id, data, now, i),
        e.lookup_holds(id, r),
    ensures
        r matches Ok(Lookup::Ready(d)) && d@ == data,
{
    let i = choose|i: int| #[trigger] published_at(before, e.cache(), id, data, now, i);
    assert(cached(e.cache(), id));
    match r {
        Ok(Lookup::Ready(d)) => {
            let k = choose|k: int| first_hit(e.cache(), id, k) && d@ == e.cache()[k].data@;
            if k < i {
                assert(e.cache()[k].id != id);
            } else if i < k {
                assert(e.cache()[i].id != id);
            }
        },
        _ => {},
    }
}

/// A payload over the size limit is refused as too large, whatever the
/// pending index holds.
pub proof fn lemma_oversized_payload_refused(e: Engine, len: int)
    requires
        e.config() is Some,
        len > e.config()->0.max_payload(),
    ensures
        e.admission(len) == Some(EngineError::PayloadTooLarge),
{
}

/// While the pending index is at capacity, every payload within the size
/// limit is refused as a full queue.
pub proof fn lemma_full_index_refuses(e: Engine, len: int)
    requires
        e.config() is Some,
        len <= e.config()->0.max_payload(),
        e.pending().len() >= e.config()->0.queue_capacity,
    ensures
        e.admission(len) == Some(EngineError::QueueFull),
{
}

/// Taking one job out of a full pending index lets the next payload within
/// the size limit in.
pub proof fn lemma_dequeue_reopens_index(e: Engine, next: Engine, id: u128, len: int)
    requires
        e.wf(),
        e.config() is Some,
        e.pending().len() == e.config()->0.queue_capacity,
        e.pending().contains_key(id),
        next.pending() == e.pending().remove(id),
        next.config() == e.config(),
        len <= e.config()->0.max_payload(),
    ensures
        next.admission(len) is None,
{
    assert(e.jobs@.dom().finite());
    assert(e.pending().dom().finite());
    assert(next.pending().len() == e.pending().len() - 1);
}

/// After a cleanup at `now`, an identifier that is neither pending nor being
/// processed, and whose every cached result had outlived the time-to-live,
/// is reported missing.
pub proof fn lemma_expired_result_is_gone(
    e: Engine,
    next: Engine,
    now: u64,
    id: u128,
    r: Result<Lookup, EngineError>,
)
    requires
        e.config() is Some,
        next.config() == e.config(),
        next.cache() == e.cache().filter(kept(now, e.config()->0.ttl_ms())),
        forall|i: int|
            0 <= i < e.cache().len() && #[trigger] e.cache()[i].id == id ==> expired(
                e.cache()[i].completed_at,
                now,
                e.config()->0.ttl_ms(),
            ),
        !next.jobs().contains_key(id),
        !next.in_flight().contains(id),
        next.lookup_holds(id, r),
    ensures
        r == Err::<Lookup, EngineError>(EngineError::NotFound),
{
    let keep = kept(now, e.config()->0.ttl_ms());
    if cached(next.cache(), id) {
        let k = choose|k: int| 0 <= k < next.cache().len() && next.cache()[k].id == id;
        let x = next.cache()[k];
        e.cache().lemma_filter_pred(keep, k);
        assert(next.cache().contains(x));
        e.cache().lemma_filter_contains_rev(keep, x);
        let i = choose|i: int| 0 <= i < e.cache().len() && e.cache()[i] == x;
        assert(e.cache()[i].id == id);
    }
}

/// After a cleanup at `now`, an identifier with a cached result that has not
/// outlived the time-to-live is still found ready.
pub proof fn lemma_fresh_result_is_kept(
    e: Engine,
    next: Engine,
    now: u64,
    id: u128,
    i: int,
    r: Result<Lookup, EngineError>,
)
    requires
        e.config() is Some,
        next.config() == e.config(),
        next.cache() == e.cache().filter(kept(now, e.config()->0.ttl_ms())),
        0 <= i < e.cache().len(),
        e.cache()[i].id == id,
        !expired(e.cache()[i].completed_at, now, e.config()->0.ttl_ms()),
        next.lookup_holds(id, r),
    ensures
        r matches Ok(Lookup::Ready(_)),
{
    let keep = kept(now, e.config()->0.ttl_ms());
    e.cache().lemma_filter_contains(keep, i);
    let x = e.cache()[i];
    assert(next.cache().contains(x));
    let k = choose|k: int| 0 <= k < next.cache().len() && next.cache()[k] == x;
    assert(cached(next.cache(), id));
}

/// An engine with nothing pending and nothing cached reports zero of both.
pub proof fn lemma_cleared_engine_reports_zero(e: Engine, c: Config)
    requires
        e.pending() == empty_index(),
        e.cache() == Seq::<CachedResult>::empty(),
    ensures
        e.stats_with(c).queue_size == 0,
        e.stats_with(c).results_count == 0,
{
    assert(empty_index().dom() == Set::<u128>::empty());
}

} // verus!
