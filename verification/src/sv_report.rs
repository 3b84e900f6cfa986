//! The guest's state-vector reporter: on every poll it decides whether the
//! state vector it just read goes to the host, so that the host's
//! garbage-collection floor advances (debounced, with a heartbeat for idle
//! observers).
use vstd::prelude::*;
use crate::gc::{keys_unique, map_of, clock_of, StateVector, ClientId};

verus! {

/// Report after this many polls without a report, even when nothing changed.
pub const HEARTBEAT_TICKS: u32 = 14;

/// What the reporter remembers between polls.
pub struct ReporterState {
    pub last_sent: Option<Map<u64, u64>>,
    pub ticks_since_send: nat,
}

/// One poll: the state after reading `sv`, and whether `sv` is reported.
pub open spec fn reporter_step(s: ReporterState, sv: Map<u64, u64>) -> (ReporterState, bool) {
    let ticks = s.ticks_since_send + 1;
    let changed = s.last_sent != Some(sv);
    let heartbeat = ticks >= HEARTBEAT_TICKS;
    if changed || heartbeat {
        (ReporterState { last_sent: Some(sv), ticks_since_send: 0 }, true)
    } else {
        (ReporterState { last_sent: s.last_sent, ticks_since_send: ticks }, false)
    }
}

/// The reporter's memory: the last state vector sent and the polls since.
pub struct SvReporter {
    last_sent: Option<StateVector>,
    ticks_since_send: u32,
}

impl View for SvReporter {
    type V = ReporterState;

    closed spec fn view(&self) -> ReporterState {
        ReporterState {
            last_sent: match self.last_sent {
                Some(sv) => Some(sv@),
                None => None,
            },
            ticks_since_send: self.ticks_since_send as nat,
        }
    }
}

impl SvReporter {
    #[verifier::type_invariant]
    closed spec fn below_heartbeat(self) -> bool {
        self.ticks_since_send < HEARTBEAT_TICKS
    }

    /// Nothing sent yet.
    pub fn new() -> (r: SvReporter)
        ensures
            r@ == (ReporterState { last_sent: None, ticks_since_send: 0 }),
    {
        SvReporter { last_sent: None, ticks_since_send: 0 }
    }

    /// Handles one poll that read `sv`: when `sv` differs from the last
    /// report, or the heartbeat is due, returns the entries to report and
    /// remembers `sv`; otherwise counts the idle poll and returns `None`.
    pub fn on_poll(&mut self, sv: StateVector) -> (r: Option<Vec<(ClientId, u64)>>)
        ensures
            final(self)@ == reporter_step(old(self)@, sv@).0,
            r is Some == reporter_step(old(self)@, sv@).1,
            r matches Some(entries) ==> keys_unique(entries@) && map_of(entries@) == sv@,
    {
        proof {
            use_type_invariant(&*self);
        }
        let ticks: u32 = self.ticks_since_send + 1;
        let changed = match &self.last_sent {
            Some(last) => !same_clocks(last, &sv),
            None => true,
        };
        let heartbeat = ticks >= HEARTBEAT_TICKS;
        if changed || heartbeat {
            let entries = sv.entries();
            self.last_sent = Some(sv);
            self.ticks_since_send = 0;
            Some(entries)
        } else {
            self.ticks_since_send = ticks;
            None
        }
    }
}

/// Whether two state vectors hold the same clocks for the same clients.
pub fn same_clocks(a: &StateVector, b: &StateVector) -> (r: bool)
    ensures
        r == (a@ == b@),
{
    let ea = a.entries();
    let eb = b.entries();
    proof {
        crate::gc::lemma_map_of(ea@);
        crate::gc::lemma_map_of(eb@);
        crate::gc::lemma_map_of_len(ea@);
        crate::gc::lemma_map_of_len(eb@);
    }
    if ea.len() != eb.len() {
        return false;
    }
    let mut i: usize = 0;
    while i < ea.len()
        invariant
            keys_unique(ea@),
            map_of(ea@) == a@,
            map_of(eb@) == b@,
            ea.len() == eb.len(),
            ea@.len() == a@.dom().len(),
            eb@.len() == b@.dom().len(),
            a@.dom().finite(),
            b@.dom().finite(),
            i <= ea.len(),
            forall|j: int| #![trigger ea@[j]] 0 <= j < i ==> b@.contains_key(ea@[j].0) && b@[ea@[j].0] == ea@[j].1,
        decreases ea.len() - i,
    {
        let (c, n) = ea[i];
        let has = b.get(c);
        proof {
            crate::gc::lemma_map_of(ea@);
        }
        if !contains_entry(&eb, c) || has != n {
            proof {
                assert(a@[ea@[i as int].0] == ea@[i as int].1);
                crate::gc::lemma_map_of(eb@);
                if a@ == b@ {
                    assert(b@.contains_key(c));
                    let x = choose|x: int| 0 <= x < eb@.len() && eb@[x].0 == c;
                }
            }
            return false;
        }
        proof {
            crate::gc::lemma_map_of(eb@);
            let x = choose|x: int| 0 <= x < eb@.len() && eb@[x].0 == c;
            assert(b@.contains_key(eb@[x].0));
        }
        i = i + 1;
    }
    proof {
        crate::gc::lemma_map_of(ea@);
        assert forall|c: u64| a@.contains_key(c) implies #[trigger] b@.contains_key(c) && b@[c] == a@[c] by {
            let j = choose|j: int| 0 <= j < ea@.len() && ea@[j].0 == c;
            assert(a@[ea@[j].0] == ea@[j].1);
        }
        assert(a@.dom().subset_of(b@.dom()));
        vstd::set_lib::lemma_subset_equality(a@.dom(), b@.dom());
        assert(b@.dom() =~= a@.dom());
        assert(a@ =~= b@);
    }
    true
}

/// Whether some entry belongs to client `c`.
fn contains_entry(entries: &Vec<(ClientId, u64)>, c: ClientId) -> (r: bool)
    ensures
        r == exists|x: int| 0 <= x < entries@.len() && entries@[x].0 == c,
{
    let mut i: usize = 0;
    while i < entries.len()
        invariant
            i <= entries.len(),
            forall|j: int| 0 <= j < i ==> entries@[j].0 != c,
        decreases entries.len() - i,
    {
        if entries[i].0 == c {
            return true;
        }
        i = i + 1;
    }
    false
}

/// The first poll of a fresh reporter always reports.
pub proof fn law_first_poll_reports(sv: Map<u64, u64>)
    ensures
        reporter_step(ReporterState { last_sent: None, ticks_since_send: 0 }, sv).1,
{
}

/// A changed state vector is reported at once.
pub proof fn law_change_is_reported(s: ReporterState, sv: Map<u64, u64>)
    requires
        s.last_sent != Some(sv),
    ensures
        reporter_step(s, sv).1,
        reporter_step(s, sv).0.last_sent == Some(sv),
        reporter_step(s, sv).0.ticks_since_send == 0,
{
}

/// An unchanged state vector is reported again on the poll that completes
/// the heartbeat, and not before.
pub proof fn law_heartbeat(s: ReporterState, sv: Map<u64, u64>)
    requires
        s.last_sent == Some(sv),
    ensures
        reporter_step(s, sv).1 <==> s.ticks_since_send + 1 >= HEARTBEAT_TICKS,
{
}

} // verus!
