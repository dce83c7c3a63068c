//! Self-recovery from a remembered good state. The recovery log is an
//! ordinary field owned by the object (not process-wide state), so its
//! lifecycle is tied to the cache instance that uses it.

use vstd::prelude::*;
use vstd::string::StringExecFns;
use crate::clock::{inc32, spec_inc32};

verus! {

#[derive(Debug, Clone)]
pub struct RecoveryEvent {
    pub timestamp: u64,
    pub error: String,
    pub recovery_action: String,
    pub success: bool,
}

pub struct AutoRecovery {
    last_known_good_state: Option<Vec<u8>>,
    recovery_attempts: u32,
    recovery_log: Vec<RecoveryEvent>,
}

impl AutoRecovery {
    pub closed spec fn spec_good_state(self) -> Option<Vec<u8>> {
        self.last_known_good_state
    }

    pub closed spec fn spec_attempts(self) -> u32 {
        self.recovery_attempts
    }

    pub closed spec fn spec_log(self) -> Seq<RecoveryEvent> {
        self.recovery_log@
    }

    pub fn new() -> (r: AutoRecovery)
        ensures
            r.spec_good_state() is None,
            r.spec_attempts() == 0,
            r.spec_log() == Seq::<RecoveryEvent>::empty(),
    {
        let r = AutoRecovery {
            last_known_good_state: None,
            recovery_attempts: 0,
            recovery_log: Vec::new(),
        };
        proof {
            assert(r.spec_log() =~= Seq::<RecoveryEvent>::empty());
        }
        r
    }

    /// Remember `state` as the last known good state to restore from.
    pub fn record_good_state(&mut self, state: Vec<u8>)
        ensures
            final(self).spec_good_state() == Some(state),
            final(self).spec_attempts() == old(self).spec_attempts(),
            final(self).spec_log() == old(self).spec_log(),
    {
        self.last_known_good_state = Some(state);
    }

    /// Try to recover from `error` at `now`: with a good state remembered,
    /// the attempt counts, is logged as successful and succeeds; without
    /// one there is nothing to restore and the call reports exactly that.
    pub fn attempt_recovery(&mut self, error: &str, now: u64) -> (r: Result<(), String>)
        ensures
            final(self).spec_good_state() == old(self).spec_good_state(),
            r is Ok <==> old(self).spec_good_state() is Some,
            match r {
                Ok(()) => {
                    &&& final(self).spec_attempts() == spec_inc32(old(self).spec_attempts())
                    &&& final(self).spec_log().len() == old(self).spec_log().len() + 1
                    &&& final(self).spec_log().drop_last() == old(self).spec_log()
                    &&& ({
                        let e = final(self).spec_log().last();
                        &&& e.timestamp == now
                        &&& e.error@ == error@
                        &&& e.recovery_action@ == "auto_recovery"@
                        &&& e.success
                    })
                },
                Err(m) => {
                    &&& m@ == "No recovery state available"@
                    &&& final(self).spec_attempts() == old(self).spec_attempts()
                    &&& final(self).spec_log() == old(self).spec_log()
                },
            },
    {
        if self.last_known_good_state.is_some() {
            self.recovery_attempts = inc32(self.recovery_attempts);
            let event = RecoveryEvent {
                timestamp: now,
                error: error.to_owned(),
                recovery_action: String::from_str("auto_recovery"),
                success: true,
            };
            self.recovery_log.push(event);
            proof {
                assert(self.spec_log().drop_last() =~= old(self).spec_log());
            }
            Ok(())
        } else {
            Err(String::from_str("No recovery state available"))
        }
    }

    pub fn attempts(&self) -> (r: u32)
        ensures
            r == self.spec_attempts(),
    {
        self.recovery_attempts
    }

    pub fn log_len(&self) -> (r: usize)
        ensures
            r == self.spec_log().len(),
    {
        self.recovery_log.len()
    }
}

} // verus!
