//! Optional parameters for scan operations: a plain configuration holder
//! with defaults, carrying the base transaction attributes and any
//! predicate-expression filters added by the caller.

use vstd::prelude::*;

verus! {

/// Transaction priority as requested from the server.
#[derive(Clone, Copy, Debug, PartialEq, Eq, Structural)]
pub enum Priority {
    /// The server decides.
    Normal,
    Low,
    Medium,
    High,
}

/// How many replicas must confirm a read.
#[derive(Clone, Copy, Debug, PartialEq, Eq, Structural)]
pub enum ConsistencyLevel {
    ConsistencyOne,
    ConsistencyAll,
}

/// Base attributes shared by all transaction policies.
#[derive(Clone, Copy, Debug, PartialEq, Eq, Structural)]
pub struct BasePolicy {
    /// Priority of the request relative to other transactions.
    pub priority: Priority,
    /// How many replicas must confirm a read.
    pub consistency_level: ConsistencyLevel,
    /// Total transaction timeout in milliseconds; zero means no limit.
    pub timeout_millis: u32,
    /// How many times a failed transaction is retried.
    pub max_retries: usize,
    /// Pause between retries, in milliseconds.
    pub sleep_between_retries_millis: u32,
}

/// The base attributes every policy starts from.
pub open spec fn base_policy_default() -> BasePolicy {
    (BasePolicy {
        priority: Priority::Normal,
        consistency_level: ConsistencyLevel::ConsistencyOne,
        timeout_millis: 30000,
        max_retries: 2,
        sleep_between_retries_millis: 500,
    })
}

impl Default for BasePolicy {
    /// Base attributes with their documented defaults.
    fn default() -> (r: BasePolicy)
        ensures
            r == base_policy_default(),
    {
        BasePolicy {
            priority: Priority::Normal,
            consistency_level: ConsistencyLevel::ConsistencyOne,
            timeout_millis: 30000,
            max_retries: 2,
            sleep_between_retries_millis: 500,
        }
    }
}

/// Common access to the base attributes of a policy.
pub trait PolicyLike {
    /// The base attributes this policy carries.
    spec fn spec_base(&self) -> BasePolicy;

    /// Borrow the base attributes.
    fn base(&self) -> (r: &BasePolicy)
        ensures
            *r == self.spec_base(),
    ;
}

/// One predicate-expression filter, as the wire carries it: a tag naming
/// the predicate kind and its marshalled payload bytes. Filters are built
/// by the query layer; a policy only keeps them in the order they were
/// added.
#[derive(Clone, Debug, PartialEq, Eq)]
pub struct PredExp {
    /// The wire tag of the predicate kind.
    pub tag: u16,
    /// The marshalled payload.
    pub payload: Vec<u8>,
}

/// `ScanPolicy` encapsulates optional parameters used in scan operations.
#[derive(Clone, Debug)]
pub struct ScanPolicy {
    /// Base policy instance.
    pub base_policy: BasePolicy,
    /// Percent of data to scan. Valid integer range is 1 to 100; validated
    /// by the higher-level builders, not here.
    pub scan_percent: u8,
    /// Maximum number of concurrent requests to server nodes at any point
    /// in time; zero means all nodes in parallel.
    pub max_concurrent_nodes: usize,
    /// Number of records to place in the receive queue before blocking.
    pub record_queue_size: usize,
    /// Terminate the scan if the cluster is in a fluctuating state.
    pub fail_on_cluster_change: bool,
    /// Maximum socket idle time in milliseconds; zero means no timeout.
    pub socket_timeout: u32,
    /// Predicate-expression filters, applied in the order added.
    pub predexp: Vec<PredExp>,
}

/// What a default scan policy holds, field by field.
pub open spec fn scan_policy_is_default(r: ScanPolicy) -> bool {
    &&& r.base_policy == base_policy_default()
    &&& r.scan_percent == 100
    &&& r.max_concurrent_nodes == 0
    &&& r.record_queue_size == 1024
    &&& r.fail_on_cluster_change == true
    &&& r.socket_timeout == 10000
    &&& r.predexp@ == Seq::<PredExp>::empty()
}

impl ScanPolicy {
    /// Create a new scan policy instance with default parameters.
    pub fn new() -> (r: ScanPolicy)
        ensures
            scan_policy_is_default(r),
    {
        ScanPolicy::default()
    }

    /// Add a predicate filter to the policy: appended after those already
    /// present, with every other parameter untouched.
    pub fn add_predicate(&mut self, predicate: PredExp)
        ensures
            final(self).predexp@ == old(self).predexp@.push(predicate),
            final(self).base_policy == old(self).base_policy,
            final(self).scan_percent == old(self).scan_percent,
            final(self).max_concurrent_nodes == old(self).max_concurrent_nodes,
            final(self).record_queue_size == old(self).record_queue_size,
            final(self).fail_on_cluster_change == old(self).fail_on_cluster_change,
            final(self).socket_timeout == old(self).socket_timeout,
    {
        self.predexp.push(predicate);
    }
}

impl Default for ScanPolicy {
    /// A scan policy with its documented defaults.
    fn default() -> (r: ScanPolicy)
        ensures
            scan_policy_is_default(r),
    {
        ScanPolicy {
            base_policy: BasePolicy::default(),
            predexp: Vec::new(),
            scan_percent: 100,
            max_concurrent_nodes: 0,
            record_queue_size: 1024,
            fail_on_cluster_change: true,
            socket_timeout: 10000,
        }
    }
}

impl PolicyLike for ScanPolicy {
    open spec fn spec_base(&self) -> BasePolicy {
        self.base_policy
    }

    fn base(&self) -> (r: &BasePolicy) {
        &self.base_policy
    }
}

} // verus!
