//! Inter-cell signals and the FIFO bus that carries them between steps.

use std::collections::VecDeque;
use vstd::prelude::*;

use crate::immune::{Attestation, AttestationView};
use crate::strutil::str_eq;

verus! {

/// A published signal: a topic, a milli-unit magnitude, an optional source
/// identity, an optional unicast target and an optional attestation.
#[derive(Debug)]
pub struct Signal {
    pub topic: String,
    /// Magnitude in milli-units.
    pub value: u32,
    pub source: Option<String>,
    pub target: Option<String>,
    pub attestation: Option<Attestation>,
}

/// The mathematical content of a signal.
pub ghost struct SignalView {
    pub topic: Seq<char>,
    pub value: u32,
    pub source: Option<Seq<char>>,
    pub target: Option<Seq<char>>,
    pub attestation: Option<AttestationView>,
}

impl View for Signal {
    type V = SignalView;

    open spec fn view(&self) -> SignalView {
        SignalView {
            topic: self.topic@,
            value: self.value,
            source: match self.source {
                Some(s) => Some(s@),
                None => None,
            },
            target: match self.target {
                Some(t) => Some(t@),
                None => None,
            },
            attestation: match self.attestation {
                Some(a) => Some(a@),
                None => None,
            },
        }
    }
}

impl Clone for Signal {
    fn clone(&self) -> (r: Self)
        ensures
            r@ == self@,
    {
        Signal {
            topic: self.topic.clone(),
            value: self.value,
            source: match &self.source {
                Some(s) => Some(s.clone()),
                None => None,
            },
            target: match &self.target {
                Some(t) => Some(t.clone()),
                None => None,
            },
            attestation: match &self.attestation {
                Some(a) => Some(a.clone()),
                None => None,
            },
        }
    }
}

/// The views of a sequence of signals.
pub open spec fn views_of(s: Seq<Signal>) -> Seq<SignalView> {
    s.map_values(|x: Signal| x@)
}

/// Whether `purge_from(source_id, target_id)` drops this signal: every
/// signal attributed to `source_id` leaves the queue, broadcast or unicast
/// alike — a quarantine mutes the source for the whole swarm, so a signal
/// aimed past `target_id` is no safer than one aimed at it.
pub open spec fn spec_purged(v: SignalView, source_id: Seq<char>, target_id: Seq<char>) -> bool {
    match v.source {
        Some(src) => src == source_id,
        None => false,
    }
}

/// The signals of `s` that survive `purge_from(source_id, target_id)`, in
/// their original order.
pub open spec fn spec_purge(
    s: Seq<SignalView>,
    source_id: Seq<char>,
    target_id: Seq<char>,
) -> Seq<SignalView>
    decreases s.len(),
{
    if s.len() == 0 {
        s
    } else if spec_purged(s.last(), source_id, target_id) {
        spec_purge(s.drop_last(), source_id, target_id)
    } else {
        spec_purge(s.drop_last(), source_id, target_id).push(s.last())
    }
}

/// The strict FIFO queue of signals published during a step, drained as an
/// immutable snapshot at the start of the next one.
#[derive(Debug)]
pub struct SignalBus {
    queue: VecDeque<Signal>,
}

impl SignalBus {
    /// The views of the queued signals, oldest first.
    pub closed spec fn view(&self) -> Seq<SignalView> {
        views_of(self.queue@)
    }

    pub fn new() -> (r: SignalBus)
        ensures
            r@ =~= Seq::<SignalView>::empty(),
    {
        SignalBus { queue: VecDeque::new() }
    }

    pub fn len(&self) -> (r: usize)
        ensures
            r == self@.len(),
    {
        self.queue.len()
    }

    /// Append a signal at the tail of the queue.
    pub fn publish(&mut self, signal: Signal)
        ensures
            final (self)@ =~= old(self)@.push(signal@),
    {
        let ghost sv = signal@;
        self.queue.push_back(signal);
        proof {
            assert(views_of(self.queue@) =~= views_of(old(self).queue@).push(sv));
        }
    }

    /// Remove and return every queued signal, oldest first.
    pub fn drain(&mut self) -> (r: Vec<Signal>)
        ensures
            views_of(r@) =~= old(self)@,
            final (self)@ =~= Seq::<SignalView>::empty(),
    {
        let mut out: Vec<Signal> = Vec::new();
        while self.queue.len() > 0
            invariant
                views_of(out@) + views_of(self.queue@) =~= old(self)@,
            decreases self.queue@.len(),
        {
            let ghost out_before = out@;
            let ghost q_before = self.queue@;
            let next = self.queue.pop_front();
            match next {
                Some(signal) => {
                    out.push(signal);
                    proof {
                        assert(views_of(out@) =~= views_of(out_before).push(q_before[0]@));
                        assert((views_of(out@) + views_of(self.queue@)) =~= views_of(out_before)
                            + views_of(q_before));
                    }
                },
                None => {},
            }
        }
        proof {
            assert(views_of(self.queue@) =~= Seq::<SignalView>::empty());
            assert(views_of(out@) =~= views_of(out@) + views_of(self.queue@));
        }
        out
    }

    /// Drop every queued signal attributed to `source_id`, broadcast or
    /// unicast alike; keep everything else in order. The quarantined
    /// `target_id` names the disconnection that triggered the purge.
    pub fn purge_from(&mut self, source_id: &str, target_id: &str)
        ensures
            final (self)@ =~= spec_purge(old(self)@, source_id@, target_id@),
    {
        let ghost orig = self.queue@;
        let mut kept: VecDeque<Signal> = VecDeque::new();
        let n = self.queue.len();
        let mut i: usize = 0;
        while i < n
            invariant
                n == orig.len(),
                i <= n,
                orig == old(self).queue@,
                self.queue@ == orig,
                views_of(kept@) =~= spec_purge(views_of(orig.take(i as int)), source_id@, target_id@),
            decreases n - i,
        {
            proof {
                assert(views_of(orig.take(i as int + 1)).drop_last() =~= views_of(
                    orig.take(i as int),
                ));
                assert(views_of(orig.take(i as int + 1)).last() == orig[i as int]@);
            }
            let drop_it = match &self.queue[i].source {
                Some(src) => str_eq(src.as_str(), source_id),
                None => false,
            };
            if !drop_it {
                let ghost kept_before = kept@;
                let signal = self.queue[i].clone();
                kept.push_back(signal);
                proof {
                    assert(views_of(kept@) =~= views_of(kept_before).push(orig[i as int]@));
                }
            }
            i = i + 1;
        }
        proof {
            assert(orig.take(n as int) =~= orig);
        }
        self.queue = kept;
    }
}

} // verus!
