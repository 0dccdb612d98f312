//! Describes proxy traffic.

use vstd::prelude::*;

verus! {

/// Describes a single running proxy instance.
#[derive(Debug)]
pub struct Process {
    /// The namespace in which this proxy is scheduled.
    pub scheduled_namespace: String,
    /// When the process started, in seconds since the epoch.
    pub start_time_secs: u64,
}

impl Clone for Process {
    fn clone(&self) -> (copy: Process)
        ensures
            copy.scheduled_namespace@ == self.scheduled_namespace@,
            copy.start_time_secs == self.start_time_secs,
    {
        Process {
            scheduled_namespace: self.scheduled_namespace.clone(),
            start_time_secs: self.start_time_secs,
        }
    }
}

impl Process {
    /// A process in the given namespace that started at the given time.
    pub fn new(pod_namespace: &str, start_time_secs: u64) -> (process: Process)
        ensures
            process.scheduled_namespace@ == pod_namespace@,
            process.start_time_secs == start_time_secs,
    {
        Process { scheduled_namespace: pod_namespace.to_owned(), start_time_secs }
    }
}

/// Indicates the orientation of traffic, relative to a sidecar proxy.
///
/// The inbound proxy receives traffic from other services and forwards it
/// to the local instance; the outbound proxy receives traffic from the
/// local instance and forwards it to a remote service.
#[derive(Debug)]
pub enum Proxy {
    Inbound(Process),
    Outbound(Process),
}

impl Proxy {
    pub fn inbound(p: &Process) -> (proxy: Proxy)
        ensures
            proxy is Inbound,
            proxy->Inbound_0.scheduled_namespace@ == p.scheduled_namespace@,
            proxy->Inbound_0.start_time_secs == p.start_time_secs,
    {
        Proxy::Inbound(p.clone())
    }

    pub fn outbound(p: &Process) -> (proxy: Proxy)
        ensures
            proxy is Outbound,
            proxy->Outbound_0.scheduled_namespace@ == p.scheduled_namespace@,
            proxy->Outbound_0.start_time_secs == p.start_time_secs,
    {
        Proxy::Outbound(p.clone())
    }

    pub fn is_inbound(&self) -> (b: bool)
        ensures
            b == (self is Inbound),
    {
        match self {
            Proxy::Inbound(_) => true,
            Proxy::Outbound(_) => false,
        }
    }

    pub fn is_outbound(&self) -> (b: bool)
        ensures
            b == (self is Outbound),
    {
        !self.is_inbound()
    }
}

} // verus!
