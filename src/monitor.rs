use vstd::prelude::*;

verus! {

/// A principal (an account or a contract), identified by its key in text form.
#[derive(Debug, PartialEq, Eq)]
pub struct Address {
    pub key: String,
}

impl Clone for Address {
    fn clone(&self) -> (r: Self)
        ensures
            r == *self,
    {
        Address { key: self.key.clone() }
    }
}

/// A monitored endpoint. The full URL is kept by the client; only its hash is
/// recorded here.
#[derive(Debug, PartialEq, Eq)]
pub struct Endpoint {
    pub id: u64,
    pub owner: Address,
    pub url_hash: String,
}

impl Clone for Endpoint {
    fn clone(&self) -> (r: Self)
        ensures
            r == *self,
    {
        Endpoint { id: self.id, owner: self.owner.clone(), url_hash: self.url_hash.clone() }
    }
}

/// One health-check result, submitted by an oracle and stamped with ledger time.
#[derive(Debug, PartialEq, Eq)]
pub struct Check {
    pub endpoint_id: u64,
    pub status: bool,
    pub timestamp: u64,
    pub oracle: Address,
}

impl Clone for Check {
    fn clone(&self) -> (r: Self)
        ensures
            r == *self,
    {
        Check {
            endpoint_id: self.endpoint_id,
            status: self.status,
            timestamp: self.timestamp,
            oracle: self.oracle.clone(),
        }
    }
}

/// Keys of the persisted endpoint slots: the id counter and one record per id.
#[derive(Clone, Copy, Debug, PartialEq, Eq, Structural)]
pub enum EndpointKey {
    Count,
    Endpoint(u64),
}

/// Keys of the persisted check logs, one per endpoint id.
#[derive(Clone, Copy, Debug, PartialEq, Eq, Structural)]
pub enum CheckKey {
    Checks(u64),
}

/// Why a monitor query or update was refused.
#[derive(Clone, Copy, Debug, PartialEq, Eq, Structural)]
pub enum MonitorError {
    /// No endpoint (and so no check log) exists under the given id.
    NotFound,
    /// The endpoint exists but no check has been submitted for it yet.
    EmptyLog,
    /// The requested check index is not below the log's length.
    IndexOutOfRange,
}

/// The id that the allocator hands out after `count`: one more, pinned at the
/// largest `u64`.
pub open spec fn next_id(count: u64) -> u64 {
    if count < u64::MAX {
        (count + 1) as u64
    } else {
        count
    }
}

/// The abstract state of a monitor.
pub struct MonitorView {
    /// The allocator's counter: the id of the most recent registration, 0 if none.
    pub count: u64,
    /// `endpoints[i]` is the endpoint with id `i + 1`.
    pub endpoints: Seq<Endpoint>,
    /// `logs[i]` is the check log of the endpoint with id `i + 1`, oldest first.
    pub logs: Seq<Seq<Check>>,
}

impl MonitorView {
    /// Ids run from 1 to the counter with one endpoint and one log each; every
    /// check sits in the log of its own endpoint, and a log holds at most
    /// `u32::MAX` checks.
    pub open spec fn wf(self) -> bool {
        &&& self.endpoints.len() == self.count
        &&& self.logs.len() == self.count
        &&& forall|i: int| 0 <= i < self.count ==> (#[trigger] self.endpoints[i]).id == i + 1
        &&& forall|i: int| 0 <= i < self.count ==> (#[trigger] self.logs[i]).len() <= u32::MAX
        &&& forall|i: int, j: int|
            0 <= i < self.count && 0 <= j < self.logs[i].len() ==> (#[trigger] self.logs[i][j]).endpoint_id
                == i + 1
    }

    /// An endpoint record (and its log) exists under `id`.
    pub open spec fn has_endpoint(self, id: u64) -> bool {
        1 <= id <= self.count
    }

    /// The check log of the endpoint `id`; empty where there is none.
    pub open spec fn log(self, id: u64) -> Seq<Check> {
        if self.has_endpoint(id) {
            self.logs[id - 1]
        } else {
            Seq::empty()
        }
    }

    /// What looking up endpoint `id` yields.
    pub open spec fn endpoint_result(self, id: u64) -> Result<Endpoint, MonitorError> {
        if self.has_endpoint(id) {
            Ok(self.endpoints[id - 1])
        } else {
            Err(MonitorError::NotFound)
        }
    }

    /// What asking for the latest check of endpoint `id` yields.
    pub open spec fn latest_result(self, id: u64) -> Result<Check, MonitorError> {
        if !self.has_endpoint(id) {
            Err(MonitorError::NotFound)
        } else if self.log(id).len() == 0 {
            Err(MonitorError::EmptyLog)
        } else {
            Ok(self.log(id).last())
        }
    }

    /// What asking for the check at `index` in the log of endpoint `id` yields.
    pub open spec fn check_result(self, id: u64, index: u32) -> Result<Check, MonitorError> {
        if !self.has_endpoint(id) {
            Err(MonitorError::NotFound)
        } else if index >= self.log(id).len() {
            Err(MonitorError::IndexOutOfRange)
        } else {
            Ok(self.log(id)[index as int])
        }
    }

    /// The state after registering an endpoint for `owner`: the allocator
    /// advances, and the slot of the new id holds the new record and an empty
    /// log (replacing what was there once the counter is pinned at its maximum).
    pub open spec fn register(self, owner: Address, url_hash: String) -> MonitorView {
        let id = next_id(self.count);
        MonitorView {
            count: id,
            endpoints: self.endpoints.take(id - 1).push(Endpoint { id, owner, url_hash }),
            logs: self.logs.take(id - 1).push(Seq::empty()),
        }
    }

    /// The state after appending a check to the log of an existing endpoint.
    pub open spec fn submit(self, oracle: Address, id: u64, status: bool, timestamp: u64) -> MonitorView {
        MonitorView {
            logs: self.logs.update(
                id - 1,
                self.logs[id - 1].push(Check { endpoint_id: id, status, timestamp, oracle }),
            ),
            ..self
        }
    }
}

/// `states[k + 1]` and `ids[k]` are the state and the id that the `k`-th of a
/// run of registrations, of `owners[k]` with `hashes[k]`, leaves and returns.
pub open spec fn is_registration_run(
    states: Seq<MonitorView>,
    owners: Seq<Address>,
    hashes: Seq<String>,
    ids: Seq<u64>,
) -> bool {
    &&& states.len() == ids.len() + 1
    &&& owners.len() == ids.len()
    &&& hashes.len() == ids.len()
    &&& forall|k: int|
        #![trigger ids[k]]
        0 <= k < ids.len() ==> ids[k] == next_id(states[k].count) && states[k + 1] == states[k].register(
            owners[k],
            hashes[k],
        )
}

/// The id counter after the first `n` of a run of registrations started on a
/// fresh monitor is `n`.
proof fn lemma_count_after_registrations(
    states: Seq<MonitorView>,
    owners: Seq<Address>,
    hashes: Seq<String>,
    ids: Seq<u64>,
    n: int,
)
    requires
        is_registration_run(states, owners, hashes, ids),
        ids.len() < u64::MAX,
        states[0].count == 0,
        0 <= n <= ids.len(),
    ensures
        states[n].count == n,
    decreases n,
{
    if n > 0 {
        lemma_count_after_registrations(states, owners, hashes, ids, n - 1);
        assert(ids[n - 1] == next_id(states[n - 1].count));
    }
}

/// A run of N registrations on a fresh monitor returns exactly the ids
/// 1, 2, ..., N in that order, with no gap and no repeat, as long as N stays
/// below the largest `u64` (where the allocator is pinned).
pub proof fn lemma_ids_consecutive(
    states: Seq<MonitorView>,
    owners: Seq<Address>,
    hashes: Seq<String>,
    ids: Seq<u64>,
)
    requires
        is_registration_run(states, owners, hashes, ids),
        ids.len() < u64::MAX,
        states[0].count == 0,
    ensures
        forall|k: int| 0 <= k < ids.len() ==> ids[k] == k + 1,
        states[ids.len() as int].count == ids.len(),
{
    lemma_count_after_registrations(states, owners, hashes, ids, ids.len() as int);
    assert forall|k: int| 0 <= k < ids.len() implies ids[k] == k + 1 by {
        lemma_count_after_registrations(states, owners, hashes, ids, k);
    }
}

/// A newly registered endpoint has an empty log: its check count is 0, and
/// asking for its latest check fails with `EmptyLog`, not `NotFound`.
pub proof fn lemma_registered_log_empty(pre: MonitorView, owner: Address, url_hash: String)
    requires
        pre.wf(),
    ensures
        pre.register(owner, url_hash).log(next_id(pre.count)).len() == 0,
        pre.register(owner, url_hash).latest_result(next_id(pre.count)) == Err::<Check, MonitorError>(
            MonitorError::EmptyLog,
        ),
{
}

/// `states[k + 1]` is the state that the `k`-th of a run of submissions to
/// endpoint `id`, by `oracles[k]` with `statuses[k]` at `times[k]`, leaves.
pub open spec fn is_submission_run(
    states: Seq<MonitorView>,
    id: u64,
    oracles: Seq<Address>,
    statuses: Seq<bool>,
    times: Seq<u64>,
) -> bool {
    &&& states.len() == oracles.len() + 1
    &&& statuses.len() == oracles.len()
    &&& times.len() == oracles.len()
    &&& forall|k: int|
        #![trigger times[k]]
        0 <= k < oracles.len() ==> states[k + 1] == states[k].submit(oracles[k], id, statuses[k], times[k])
}

/// The log of endpoint `id` after the first `n` of a run of submissions.
proof fn lemma_log_after_submissions(
    states: Seq<MonitorView>,
    id: u64,
    oracles: Seq<Address>,
    statuses: Seq<bool>,
    times: Seq<u64>,
    n: int,
)
    requires
        is_submission_run(states, id, oracles, statuses, times),
        states[0].wf(),
        states[0].has_endpoint(id),
        states[0].log(id).len() == 0,
        0 <= n <= oracles.len(),
    ensures
        states[n].count == states[0].count,
        states[n].logs.len() == states[0].logs.len(),
        states[n].has_endpoint(id),
        states[n].log(id).len() == n,
        forall|j: int|
            0 <= j < n ==> #[trigger] states[n].log(id)[j] == (Check {
                endpoint_id: id,
                status: statuses[j],
                timestamp: times[j],
                oracle: oracles[j],
            }),
    decreases n,
{
    if n > 0 {
        lemma_log_after_submissions(states, id, oracles, statuses, times, n - 1);
        let prev = states[n - 1];
        let t = times[n - 1];
        assert(states[n] == prev.submit(oracles[n - 1], id, statuses[n - 1], t));
        assert(states[n].log(id) =~= prev.log(id).push(
            Check { endpoint_id: id, status: statuses[n - 1], timestamp: times[n - 1], oracle: oracles[n - 1] },
        ));
    }
}

/// After checks C1..Ck are submitted in order to an endpoint with an empty
/// log, its check count is k, the check at index i is C(i+1), the check at
/// index k-1 is the latest one, and every index from k on is out of range.
pub proof fn lemma_checks_in_order(
    states: Seq<MonitorView>,
    id: u64,
    oracles: Seq<Address>,
    statuses: Seq<bool>,
    times: Seq<u64>,
)
    requires
        is_submission_run(states, id, oracles, statuses, times),
        oracles.len() <= u32::MAX,
        states[0].wf(),
        states[0].has_endpoint(id),
        states[0].log(id).len() == 0,
    ensures
        ({
            let last = states.last();
            let k = oracles.len();
            &&& last.log(id).len() == k
            &&& forall|i: u32|
                i < k ==> #[trigger] last.check_result(id, i) == Ok::<Check, MonitorError>(
                    Check {
                        endpoint_id: id,
                        status: statuses[i as int],
                        timestamp: times[i as int],
                        oracle: oracles[i as int],
                    },
                )
            &&& k > 0 ==> last.check_result(id, (k - 1) as u32) == last.latest_result(id)
            &&& forall|i: u32| i >= k ==> #[trigger] last.check_result(id, i) == Err::<Check, MonitorError>(
                MonitorError::IndexOutOfRange,
            )
        }),
{
    lemma_log_after_submissions(states, id, oracles, statuses, times, oracles.len() as int);
}

/// An id with no endpoint has an empty log, so a submission to it (which
/// fails with `NotFound` and changes nothing) leaves its check count at 0.
pub proof fn lemma_missing_endpoint_log_empty(s: MonitorView, id: u64)
    requires
        s.wf(),
        !s.has_endpoint(id),
    ensures
        s.log(id).len() == 0,
        s.latest_result(id) == Err::<Check, MonitorError>(MonitorError::NotFound),
{
}

/// A registry of monitored endpoints, each with an append-only log of checks.
pub struct WebPulseMonitor {
    count: u64,
    endpoints: Vec<Endpoint>,
    checks: Vec<Vec<Check>>,
}

impl View for WebPulseMonitor {
    type V = MonitorView;

    closed spec fn view(&self) -> MonitorView {
        MonitorView {
            count: self.count,
            endpoints: self.endpoints@,
            logs: self.checks@.map_values(|l: Vec<Check>| l@),
        }
    }
}

impl WebPulseMonitor {
    /// The state is well formed (see `MonitorView::wf`).
    pub open spec fn wf(&self) -> bool {
        self@.wf()
    }

    /// A monitor with no endpoints.
    pub fn new() -> (r: Self)
        ensures
            r.wf(),
            r@.count == 0,
    {
        let r = WebPulseMonitor { count: 0, endpoints: Vec::new(), checks: Vec::new() };
        assert(r@.endpoints =~= Seq::empty());
        r
    }

    /// The number of ids handed out so far: the id of the most recently
    /// registered endpoint, 0 if none was.
    pub fn get_endpoint_count(&self) -> (r: u64)
        ensures
            r == self@.count,
    {
        self.count
    }
    /// The position of endpoint `endpoint_id` in the tables, if it exists.
    fn slot_of(&self, endpoint_id: u64) -> (r: Option<usize>)
        requires
            self.wf(),
        ensures
            r is Some <==> self@.has_endpoint(endpoint_id),
            r matches Some(s) ==> s == endpoint_id - 1 && s < self.endpoints@.len() && s
                < self.checks@.len() && self@.log(endpoint_id) == self.checks@[s as int]@,
    {
        let len = self.checks.len();
        if endpoint_id == 0 || endpoint_id - 1 >= len as u64 {
            None
        } else {
            Some((endpoint_id - 1) as usize)
        }
    }

    /// Registers an endpoint owned by `owner` and returns its id. The id comes
    /// from the allocator (one more than the previous, pinned at the largest
    /// `u64`), and the endpoint starts with an empty check log. The caller has
    /// established that `owner` authorized the call.
    pub fn register_endpoint(&mut self, owner: Address, url_hash: String) -> (id: u64)
        requires
            old(self).wf(),
        ensures
            final(self).wf(),
            id == next_id(old(self)@.count),
            final(self)@.count == id,
            final(self)@ == old(self)@.register(owner, url_hash),
    {
        let ghost pre = self@;
        let ghost ep_spec = Endpoint { id: next_id(pre.count), owner, url_hash };
        let id = self.count.saturating_add(1);
        let ep = Endpoint { id, owner, url_hash };
        if id > self.count {
            self.endpoints.push(ep);
            self.checks.push(Vec::new());
            assert(pre.endpoints.take(id - 1) =~= pre.endpoints);
            assert(pre.logs.take(id - 1) =~= pre.logs);
        } else {
            let slot = self.endpoints.len() - 1;
            self.endpoints[slot] = ep;
            self.checks[slot] = Vec::new();
            assert(pre.endpoints.update(slot as int, ep_spec) =~= pre.endpoints.take(id - 1).push(ep_spec));
            assert(pre.logs.update(slot as int, Seq::empty()) =~= pre.logs.take(id - 1).push(Seq::empty()));
        }
        self.count = id;
        assert(self@.endpoints =~= pre.register(ep_spec.owner, ep_spec.url_hash).endpoints);
        assert(self@.logs =~= pre.register(ep_spec.owner, ep_spec.url_hash).logs);
        id
    }

    /// Appends a check by `oracle` with result `status`, stamped `timestamp`,
    /// to the log of endpoint `endpoint_id`. Fails with `NotFound`, changing
    /// nothing, where no such endpoint exists. The caller has established that
    /// `oracle` authorized the call and reads `timestamp` from the ledger clock.
    /// A log holds at most `u32::MAX` checks.
    pub fn submit_check(&mut self, oracle: Address, endpoint_id: u64, status: bool, timestamp: u64) -> (r:
        Result<(), MonitorError>)
        requires
            old(self).wf(),
            old(self)@.log(endpoint_id).len() < u32::MAX,
        ensures
            final(self).wf(),
            old(self)@.has_endpoint(endpoint_id) ==> r == Ok::<(), MonitorError>(()) && final(self)@
                == old(self)@.submit(oracle, endpoint_id, status, timestamp),
            !old(self)@.has_endpoint(endpoint_id) ==> r == Err::<(), MonitorError>(MonitorError::NotFound)
                && final(self)@ == old(self)@,
    {
        let slot = match self.slot_of(endpoint_id) {
            Some(s) => s,
            None => return Err(MonitorError::NotFound),
        };
        let ghost pre = self@;
        let ghost c_spec = Check { endpoint_id, status, timestamp, oracle };
        let c = Check { endpoint_id, status, timestamp, oracle };
        self.checks[slot].push(c);
        assert(self@.logs =~= pre.logs.update(slot as int, pre.logs[slot as int].push(c_spec)));
        assert(self@.endpoints =~= pre.endpoints);
        Ok(())
    }

    /// The most recent check of endpoint `endpoint_id`.
    pub fn view_latest(&self, endpoint_id: u64) -> (r: Result<Check, MonitorError>)
        requires
            self.wf(),
        ensures
            r == self@.latest_result(endpoint_id),
    {
        let log = match self.slot_of(endpoint_id) {
            Some(s) => &self.checks[s],
            None => return Err(MonitorError::NotFound),
        };
        if log.len() == 0 {
            return Err(MonitorError::EmptyLog);
        }
        Ok(log[log.len() - 1].clone())
    }

    /// The endpoint registered under `endpoint_id`.
    pub fn get_endpoint(&self, endpoint_id: u64) -> (r: Result<Endpoint, MonitorError>)
        requires
            self.wf(),
        ensures
            r == self@.endpoint_result(endpoint_id),
    {
        match self.slot_of(endpoint_id) {
            Some(s) => Ok(self.endpoints[s].clone()),
            None => Err(MonitorError::NotFound),
        }
    }

    /// The number of checks in the log of `endpoint_id`; 0 where there is no
    /// such endpoint.
    pub fn get_check_count(&self, endpoint_id: u64) -> (r: u32)
        requires
            self.wf(),
        ensures
            r == self@.log(endpoint_id).len(),
    {
        match self.slot_of(endpoint_id) {
            Some(s) => self.checks[s].len() as u32,
            None => 0,
        }
    }

    /// The check at position `check_index` (0 for the oldest) in the log of
    /// `endpoint_id`.
    pub fn view_check(&self, endpoint_id: u64, check_index: u32) -> (r: Result<Check, MonitorError>)
        requires
            self.wf(),
        ensures
            r == self@.check_result(endpoint_id, check_index),
    {
        let log = match self.slot_of(endpoint_id) {
            Some(s) => &self.checks[s],
            None => return Err(MonitorError::NotFound),
        };
        if check_index as usize >= log.len() {
            return Err(MonitorError::IndexOutOfRange);
        }
        Ok(log[check_index as usize].clone())
    }
}

} // verus!
