//! Service lifecycle: the state snapshot kept across protocol events,
//! and the reload and shutdown transitions.
use vstd::prelude::*;
use crate::queue::MailQueue;

verus! {

broadcast use vstd::string::group_string_axioms;

/// The service's persisted state: how many protocol events it has
/// counted, whether it is serving, a free-form status text, and the
/// second it was last touched.
pub struct ServiceState {
    pub event_counter: u64,
    pub is_active: bool,
    pub data: String,
    pub last_updated: u64,
}

impl ServiceState {
    /// Count one protocol event and stamp the time; every accepted or
    /// rejected frame passes through here.
    pub fn record_event(&mut self, now: u64)
        requires
            old(self).event_counter < u64::MAX,
        ensures
            final(self).event_counter == old(self).event_counter + 1,
            final(self).last_updated == now,
            final(self).is_active == old(self).is_active,
            final(self).data == old(self).data,
    {
        self.event_counter = self.event_counter + 1;
        self.last_updated = now;
    }

    /// Mark the service as serving traffic.
    pub fn activate(&mut self, now: u64)
        ensures
            final(self).is_active,
            final(self).last_updated == now,
            final(self).event_counter == old(self).event_counter,
            final(self).data == old(self).data,
    {
        self.is_active = true;
        self.last_updated = now;
    }
}

/// The state the service starts or reloads into: the event counter
/// resumes from a prior snapshot when one exists, while activity and
/// status text are forced to known startup values whatever was stored.
pub fn initial_state(prior: Option<ServiceState>, now: u64) -> (r: ServiceState)
    ensures
        r.event_counter == (match prior {
            Some(p) => p.event_counter,
            None => 0,
        }),
        !r.is_active,
        r.data@ == "Initializing"@,
        r.last_updated == now,
{
    let event_counter: u64 = match prior {
        Some(p) => p.event_counter,
        None => 0,
    };
    ServiceState { event_counter, is_active: false, data: "Initializing".to_string(), last_updated: now }
}

/// Reload: drop every pending email wholesale and start over from a
/// fresh state built on whatever snapshot was re-read. Configuration is
/// re-read by the caller around this call; no pending entry survives.
pub fn apply_reload(queue: &mut MailQueue, state: &mut ServiceState, prior: Option<ServiceState>, now: u64)
    ensures
        final(queue)@.len() == 0,
        final(state).event_counter == (match prior {
            Some(p) => p.event_counter,
            None => 0,
        }),
        !final(state).is_active,
        final(state).data@ == "Initializing"@,
        final(state).last_updated == now,
{
    queue.clear();
    *state = initial_state(prior, now);
}

/// Shutdown: mark the state inactive and terminal; the caller persists
/// it and exits. Nothing else is touched.
pub fn wind_down(state: &mut ServiceState, now: u64)
    ensures
        !final(state).is_active,
        final(state).data@ == "Terminated"@,
        final(state).last_updated == now,
        final(state).event_counter == old(state).event_counter,
{
    state.is_active = false;
    state.data = "Terminated".to_string();
    state.last_updated = now;
}

} // verus!
