//! Peer election and the device coordination states.
//!
//! During an activation attempt a device discovers its LAN peers, then an
//! election decides which single device becomes the coordinator — the one
//! holding write authority over the token. The winner is the participant
//! with the highest (holder-priority, device id) key: a device already bound
//! as holder on a previously seen valid token outranks the rest, and device
//! ids break the tie deterministically.

use vstd::prelude::*;

verus! {

/// Coordination role of a device. `Idle` is both the initial and a valid
/// resting state; a round moves through `Discovering` and `Electing` and
/// ends in `Coordinator` for exactly one participant and `Follower` for the
/// others.
#[derive(Clone, Copy, Debug, PartialEq, Eq, Structural)]
pub enum DeviceState {
    Idle,
    Discovering,
    Electing,
    Coordinator,
    Follower,
}

/// The transitions the coordination state machine permits.
pub open spec fn state_step_allowed(from: DeviceState, to: DeviceState) -> bool {
    ||| (from == DeviceState::Idle && to == DeviceState::Discovering)
    ||| (from == DeviceState::Discovering && to == DeviceState::Electing)
    ||| (from == DeviceState::Electing && to == DeviceState::Coordinator)
    ||| (from == DeviceState::Electing && to == DeviceState::Follower)
    ||| (from == DeviceState::Coordinator && to == DeviceState::Idle)
    ||| (from == DeviceState::Follower && to == DeviceState::Idle)
}

/// An election participant: a device id and whether the device was already
/// bound as holder on a previously seen valid token.
#[derive(Clone, Copy, Debug, PartialEq, Eq, Structural)]
pub struct Peer {
    pub device_id: u64,
    pub holder_priority: bool,
}

/// Election key of a participant: holder priority outranks every device id,
/// device ids order the rest.
pub open spec fn peer_key(p: Peer) -> int {
    (if p.holder_priority {
        0x1_0000_0000_0000_0000int
    } else {
        0int
    }) + p.device_id as int
}

/// The participant with the highest election key; on an exact key tie the
/// earlier participant stands.
pub open spec fn election_winner(ps: Seq<Peer>) -> Peer
    recommends
        ps.len() > 0,
    decreases ps.len(),
{
    if ps.len() <= 1 {
        ps[0]
    } else {
        let w = election_winner(ps.drop_last());
        if peer_key(ps.last()) > peer_key(w) {
            ps.last()
        } else {
            w
        }
    }
}

/// The winner is one of the participants.
pub proof fn lemma_election_winner_participates(ps: Seq<Peer>)
    requires
        ps.len() > 0,
    ensures
        exists|i: int| 0 <= i < ps.len() && ps[i] == election_winner(ps),
    decreases ps.len(),
{
    if ps.len() == 1 {
        assert(ps[0] == election_winner(ps));
    } else {
        lemma_election_winner_participates(ps.drop_last());
        let w = election_winner(ps.drop_last());
        if peer_key(ps.last()) > peer_key(w) {
            assert(ps[ps.len() - 1] == election_winner(ps));
        } else {
            let i = choose|i: int| 0 <= i < ps.drop_last().len() && ps.drop_last()[i] == w;
            assert(ps[i] == election_winner(ps));
        }
    }
}

/// No participant outranks the winner.
pub proof fn lemma_election_winner_maximal(ps: Seq<Peer>)
    requires
        ps.len() > 0,
    ensures
        forall|i: int| 0 <= i < ps.len() ==> peer_key(#[trigger] ps[i]) <= peer_key(
            election_winner(ps),
        ),
    decreases ps.len(),
{
    if ps.len() > 1 {
        lemma_election_winner_maximal(ps.drop_last());
        assert(forall|i: int| 0 <= i < ps.len() - 1 ==> ps.drop_last()[i] == #[trigger] ps[i]);
    }
}

/// Election determinism: the winner is a function of the participant set
/// alone, so with distinct device ids — which distinct install seeds
/// guarantee — every participant other than the winner strictly loses, and
/// repeated rounds over the same participants elect the same coordinator.
pub proof fn lemma_election_deterministic(ps: Seq<Peer>)
    requires
        ps.len() > 0,
        forall|i: int, j: int| 0 <= i < j < ps.len() ==> (#[trigger] ps[i]).device_id
            != (#[trigger] ps[j]).device_id,
    ensures
        forall|i: int| 0 <= i < ps.len() && ps[i] != election_winner(ps) ==> peer_key(
            #[trigger] ps[i],
        ) < peer_key(election_winner(ps)),
    decreases ps.len(),
{
    lemma_election_winner_maximal(ps);
    lemma_election_winner_participates(ps);
    let w = election_winner(ps);
    let wi = choose|i: int| 0 <= i < ps.len() && ps[i] == w;
    assert forall|i: int| 0 <= i < ps.len() && ps[i] != w implies peer_key(#[trigger] ps[i])
        < peer_key(w) by {
        if peer_key(ps[i]) == peer_key(w) {
            assert(ps[i].device_id == w.device_id);
            assert(ps[i].holder_priority == w.holder_priority) by {
                if ps[i].holder_priority != w.holder_priority {
                    assert(peer_key(ps[i]) != peer_key(w));
                }
            }
            assert(i != wi);
            assert(ps[i].device_id != ps[wi].device_id);
        }
    }
}

fn wins_over(a: &Peer, b: &Peer) -> (r: bool)
    ensures
        r == (peer_key(*a) > peer_key(*b)),
{
    if a.holder_priority && !b.holder_priority {
        true
    } else if !a.holder_priority && b.holder_priority {
        false
    } else {
        a.device_id > b.device_id
    }
}

/// Run the election over a non-empty participant list; returns exactly the
/// participant `election_winner` names, so repeated runs over the same list
/// agree.
pub fn run_election(ps: &Vec<Peer>) -> (w: Peer)
    requires
        ps@.len() > 0,
    ensures
        w == election_winner(ps@),
{
    let mut w = ps[0];
    let mut i: usize = 1;
    assert(ps@.take(1) =~= seq![ps@[0]]);
    assert(w == election_winner(ps@.take(1)));
    while i < ps.len()
        invariant
            1 <= i <= ps@.len(),
            w == election_winner(ps@.take(i as int)),
        decreases ps@.len() - i,
    {
        let c = ps[i];
        proof {
            let pre = ps@.take(i as int + 1);
            assert(pre.drop_last() =~= ps@.take(i as int));
            assert(pre.last() == ps@[i as int]);
        }
        if wins_over(&c, &w) {
            w = c;
        }
        i = i + 1;
    }
    assert(ps@.take(ps@.len() as int) =~= ps@);
    w
}

} // verus!
