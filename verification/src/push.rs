//! Push-subscription state: the verified delivery discipline (throttle,
//! bounded retries, one request in flight) that the delivery worker obeys.

use vstd::prelude::*;

use crate::document::{AccountId, DocumentId};

verus! {

/// Throttle between first attempts to one subscriber.
pub const THROTTLE_MS: u64 = 1000;

/// Pause between retries of a failed delivery.
pub const PUSH_ATTEMPT_INTERVAL_MS: u64 = 60000;

/// Deliveries are abandoned after this many attempts.
pub const PUSH_MAX_ATTEMPTS: u32 = 3;

/// The JMAP data types a subscriber can ask change notices for.
#[derive(Debug, Clone, Copy, PartialEq, Eq, Structural)]
pub enum TypeState {
    Email,
    EmailDelivery,
    EmailSubmission,
    Mailbox,
    Thread,
    Identity,
}

/// One state-change notice: the account and the changed types with their
/// change ids.
#[derive(Debug)]
pub struct StateChange {
    pub account_id: AccountId,
    pub types: Vec<(TypeState, u64)>,
}

/// The content-encryption keys of one subscriber.
#[derive(Debug)]
pub struct EncriptionKeys {
    pub p256dh: Vec<u8>,
    pub auth: Vec<u8>,
}

/// A push subscription as read back from the store: verified or still
/// waiting for its verification code.
#[derive(Debug)]
pub enum UpdateSubscription {
    Unverified { id: DocumentId, url: String, code: String, keys: Option<EncriptionKeys> },
    Verified(PushSubscription),
}

/// A verified push subscription.
#[derive(Debug)]
pub struct PushSubscription {
    pub id: DocumentId,
    pub url: String,
    pub expires: u64,
    pub types: Vec<TypeState>,
    pub keys: Option<EncriptionKeys>,
}

/// Subscription updates handed to the delivery worker.
#[derive(Debug)]
pub enum PushUpdate {
    Verify {
        id: DocumentId,
        account_id: AccountId,
        url: String,
        code: String,
        keys: Option<EncriptionKeys>,
    },
    Register { id: u64, url: String, keys: Option<EncriptionKeys> },
    Unregister { id: u64 },
}

/// Events of the delivery worker.
#[derive(Debug)]
pub enum Event {
    Update { updates: Vec<PushUpdate> },
    Push { ids: Vec<u64>, state_change: StateChange },
    DeliverySuccess { id: u64 },
    DeliveryFailure { id: u64, state_changes: Vec<StateChange> },
    Reset,
}

/// Delivery state of one subscriber endpoint.
#[derive(Debug)]
pub struct PushServer {
    pub url: String,
    pub keys: Option<EncriptionKeys>,
    pub num_attempts: u32,
    pub last_request: u64,
    pub state_changes: Vec<StateChange>,
    pub in_flight: bool,
}

impl PushServer {
    /// A freshly registered endpoint: ready for an immediate first
    /// attempt.
    pub fn new(url: String, keys: Option<EncriptionKeys>) -> (r: PushServer)
        ensures
            r.url@ == url@,
            r.num_attempts == 0,
            r.last_request == 0,
            r.state_changes@.len() == 0,
            !r.in_flight,
    {
        PushServer {
            url,
            keys,
            num_attempts: 0,
            last_request: 0,
            state_changes: Vec::new(),
            in_flight: false,
        }
    }

    /// Whether a delivery may be attempted now: none in flight, and either
    /// a throttled first attempt or a spaced retry that has not exhausted
    /// its attempts.
    pub open spec fn spec_may_attempt(self, now_ms: u64) -> bool {
        let elapsed = if now_ms >= self.last_request {
            now_ms - self.last_request
        } else {
            0
        };
        &&& !self.in_flight
        &&& ((self.num_attempts == 0 && elapsed > THROTTLE_MS) || (1 <= self.num_attempts
            < PUSH_MAX_ATTEMPTS && elapsed > PUSH_ATTEMPT_INTERVAL_MS))
    }

    pub fn may_attempt(&self, now_ms: u64) -> (r: bool)
        ensures
            r == self.spec_may_attempt(now_ms),
    {
        let elapsed = if now_ms >= self.last_request {
            now_ms - self.last_request
        } else {
            0
        };
        !self.in_flight && ((self.num_attempts == 0 && elapsed > THROTTLE_MS) || (1
            <= self.num_attempts && self.num_attempts < PUSH_MAX_ATTEMPTS && elapsed
            > PUSH_ATTEMPT_INTERVAL_MS))
    }

    /// Queues one state change for the next delivery.
    pub fn queue_change(&mut self, change: StateChange)
        ensures
            final(self).state_changes@ == old(self).state_changes@.push(change),
            *final(self) == (PushServer { state_changes: final(self).state_changes, ..*old(self) }),
    {
        self.state_changes.push(change);
    }

    /// Marks a delivery as started: the queued changes travel with the
    /// request, and no further attempt may start while it is in flight.
    pub fn start_delivery(&mut self, now_ms: u64) -> (r: Vec<StateChange>)
        ensures
            r@ == old(self).state_changes@,
            final(self).in_flight,
            final(self).last_request == now_ms,
            final(self).state_changes@.len() == 0,
            final(self).num_attempts == old(self).num_attempts,
            final(self).url@ == old(self).url@,
            !final(self).spec_may_attempt(now_ms),
    {
        let mut taken: Vec<StateChange> = Vec::new();
        core::mem::swap(&mut taken, &mut self.state_changes);
        self.in_flight = true;
        self.last_request = now_ms;
        taken
    }

    /// A delivery succeeded: the endpoint is healthy again.
    pub fn record_success(&mut self)
        ensures
            final(self).num_attempts == 0,
            !final(self).in_flight,
            *final(self) == (PushServer {
                num_attempts: 0,
                in_flight: false,
                ..*old(self)
            }),
    {
        self.num_attempts = 0;
        self.in_flight = false;
    }

    /// A delivery failed: the undelivered changes return to the queue and
    /// the attempt counter advances toward abandonment.
    pub fn record_failure(&mut self, now_ms: u64, state_changes: Vec<StateChange>)
        requires
            old(self).num_attempts < u32::MAX,
        ensures
            final(self).num_attempts == old(self).num_attempts + 1,
            !final(self).in_flight,
            final(self).last_request == now_ms,
            final(self).state_changes@ == old(self).state_changes@ + state_changes@,
    {
        self.last_request = now_ms;
        self.num_attempts = self.num_attempts + 1;
        self.in_flight = false;
        let mut incoming = state_changes;
        let ghost incoming0 = incoming@;
        let ghost pre = self.state_changes@;
        let mut i: usize = 0;
        let n = incoming.len();
        while i < n
            invariant
                0 <= i <= n,
                n == incoming0.len(),
                incoming@ =~= incoming0.skip(i as int),
                self.state_changes@ =~= pre + incoming0.take(i as int),
                self.num_attempts == old(self).num_attempts + 1,
                !self.in_flight,
                self.last_request == now_ms,
            decreases n - i,
        {
            let c = incoming.remove(0);
            proof {
                assert(incoming0.skip(i as int)[0] == incoming0[i as int]);
                assert(incoming0.skip(i as int).skip(1) =~= incoming0.skip(i + 1));
            }
            self.state_changes.push(c);
            proof {
                assert(pre + incoming0.take(i as int).push(incoming0[i as int]) =~= pre
                    + incoming0.take(i + 1));
            }
            i = i + 1;
        }
        proof {
            assert(incoming0.take(incoming0.len() as int) =~= incoming0);
            assert(self.state_changes@ =~= pre + incoming0);
        }
    }

    /// Whether the endpoint has used up its attempts and the queued
    /// changes are to be dropped.
    pub fn attempts_exhausted(&self) -> (r: bool)
        ensures
            r == (self.num_attempts >= PUSH_MAX_ATTEMPTS),
    {
        self.num_attempts >= PUSH_MAX_ATTEMPTS
    }

    /// Abandons the queued changes after too many failures.
    pub fn abandon(&mut self)
        ensures
            final(self).state_changes@.len() == 0,
            final(self).num_attempts == 0,
    {
        self.state_changes = Vec::new();
        self.num_attempts = 0;
    }
}

} // verus!
