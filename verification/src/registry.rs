//! The session registry and the broadcast fan-out. Each live viewer
//! owns a bounded outbound channel; a broadcast hands the rendered
//! message to every subscriber's channel, and a subscriber whose
//! channel no longer takes messages is dropped from the registry
//! instead of stalling or aborting the delivery to the others.
//!
//! The ghost log of all broadcast messages, together with each
//! subscriber's join point, pins the ordering guarantee down: what a
//! still-registered subscriber has been handed is exactly the log
//! since its join point, in log order (see `received`).
use vstd::prelude::*;

use tokio::sync::mpsc::Receiver;
use tokio::sync::mpsc::Sender;

verus! {

#[verifier::external_type_specification]
#[verifier::external_body]
#[verifier::reject_recursive_types(T)]
pub struct ExSender<T>(Sender<T>);

#[verifier::external_type_specification]
#[verifier::external_body]
#[verifier::reject_recursive_types(T)]
pub struct ExReceiver<T>(Receiver<T>);

/// Relies on tokio::sync::mpsc::channel: builds one bounded channel.
/// The call panics on a zero capacity and above the permit ceiling of
/// tokio's semaphore, so those capacities are kept out. Nothing else is
/// promised of the two fresh endpoints.
#[verifier::external_body]
fn channel_pair(cap: usize) -> (r: (Sender<String>, Receiver<String>))
    requires
        1 <= cap <= usize::MAX / 8,
{
    tokio::sync::mpsc::channel(cap)
}

/// Relies on tokio::sync::mpsc::Sender::try_send: hands the message to
/// the channel when the receiver is still listening and the buffer has
/// room, and reports whether it was taken. Whether that happens depends
/// on the receiving side at the moment of the call, so nothing more can
/// be promised of the outcome.
#[verifier::external_body]
fn try_send_text(tx: &Sender<String>, msg: &String) -> (accepted: bool) {
    tx.try_send(msg.clone()).is_ok()
}

/// The ghost image of one live subscriber: its connection id and the
/// length the broadcast log had when it registered.
pub struct SubView {
    pub id: u64,
    pub joined: int,
}

struct Subscriber {
    id: u64,
    tx: Sender<String>,
    joined: Ghost<int>,
}

impl View for Subscriber {
    type V = SubView;

    closed spec fn view(&self) -> SubView {
        SubView { id: self.id, joined: self.joined@ }
    }
}

/// The ghost image of the registry: the live subscribers in
/// registration order, the next connection id, and the log of every
/// message ever broadcast, oldest first.
pub struct RegistryView {
    pub subs: Seq<SubView>,
    pub next_id: u64,
    pub log: Seq<Seq<char>>,
}

pub open spec fn sub_ids_increasing(s: Seq<SubView>) -> bool {
    forall|i: int, j: int| 0 <= i < j < s.len() ==> s[i].id < s[j].id
}

pub open spec fn has_sub(r: RegistryView, id: u64) -> bool {
    exists|i: int| 0 <= i < r.subs.len() && r.subs[i].id == id
}

pub open spec fn sub_index(r: RegistryView, id: u64) -> int {
    choose|i: int| 0 <= i < r.subs.len() && r.subs[i].id == id
}

/// `s` is one of the subscribers of `olds`, unchanged: same id, same
/// join point.
pub open spec fn appears_in(s: SubView, olds: Seq<SubView>) -> bool {
    exists|i: int| 0 <= i < olds.len() && olds[i] == s
}

/// What the subscriber at position `i` has been handed over its
/// channel, oldest first: every broadcast since it joined. `register`
/// starts a subscriber at the very end of the log, and `broadcast`
/// keeps a subscriber only when its channel took the message, so the
/// suffix of the log is exactly the channel's history.
pub open spec fn received(r: RegistryView, i: int) -> Seq<Seq<char>>
    recommends
        0 <= i < r.subs.len(),
{
    r.log.skip(r.subs[i].joined)
}

/// The registry invariant: ids are fresh and increasing, and every
/// join point lies within the log.
pub open spec fn registry_wf(r: RegistryView) -> bool {
    &&& sub_ids_increasing(r.subs)
    &&& forall|i: int| 0 <= i < r.subs.len() ==> (#[trigger] r.subs[i]).id < r.next_id
    &&& forall|i: int| 0 <= i < r.subs.len() ==> 0 <= (#[trigger] r.subs[i]).joined <= r.log.len()
}

/// Under increasing ids, an index that holds an id is the index
/// `sub_index` picks.
pub proof fn lemma_sub_index(r: RegistryView, id: u64, i: int)
    requires
        sub_ids_increasing(r.subs),
        0 <= i < r.subs.len(),
        r.subs[i].id == id,
    ensures
        has_sub(r, id),
        sub_index(r, id) == i,
{
    assert(has_sub(r, id));
    let j = sub_index(r, id);
    if i < j {
        assert(r.subs[i].id < r.subs[j].id);
    } else if j < i {
        assert(r.subs[j].id < r.subs[i].id);
    }
}

/// A registered subscriber holds the broadcasts since it joined in log
/// order: the message of an earlier mutation stands in its channel
/// before the message of a later one.
pub proof fn lemma_delivery_in_order(r: RegistryView, i: int, k1: int, k2: int)
    requires
        registry_wf(r),
        0 <= i < r.subs.len(),
        r.subs[i].joined <= k1 < k2 < r.log.len(),
    ensures
        ({
            let s = r.subs[i];
            &&& 0 <= k1 - s.joined < k2 - s.joined < received(r, i).len()
            &&& received(r, i)[k1 - s.joined] == r.log[k1]
            &&& received(r, i)[k2 - s.joined] == r.log[k2]
        }),
{
    let s = r.subs[i];
    assert(r.log.skip(s.joined)[k1 - s.joined] == r.log[k1]);
    assert(r.log.skip(s.joined)[k2 - s.joined] == r.log[k2]);
}

/// Once a subscriber is removed, its id is gone from the registry:
/// no later broadcast can reach it, and ids are never reused, so it
/// cannot come back under the same id.
pub proof fn lemma_deregistered_absent(m: RegistryView, id: u64)
    requires
        registry_wf(m),
        has_sub(m, id),
    ensures
        !has_sub(RegistryView { subs: m.subs.remove(sub_index(m, id)), ..m }, id),
{
    let i = sub_index(m, id);
    assert(0 <= i < m.subs.len() && m.subs[i].id == id);
    let r = RegistryView { subs: m.subs.remove(i), ..m };
    if has_sub(r, id) {
        let j = sub_index(r, id);
        assert(r.subs[j].id == id);
        let j0 = if j < i {
            j
        } else {
            j + 1
        };
        assert(r.subs[j] == m.subs[j0]);
        if j0 < i {
            assert(m.subs[j0].id < m.subs[i].id);
        } else {
            assert(m.subs[i].id < m.subs[j0].id);
        }
        assert(false);
    }
}

/// The registry: the set of live subscribers and their outbound
/// channels, one serialization point of its own, never held together
/// with the roster's.
pub struct Registry {
    subs: Vec<Subscriber>,
    next_id: u64,
    log: Ghost<Seq<Seq<char>>>,
}

impl View for Registry {
    type V = RegistryView;

    closed spec fn view(&self) -> RegistryView {
        RegistryView {
            subs: self.subs@.map_values(|s: Subscriber| s@),
            next_id: self.next_id,
            log: self.log@,
        }
    }
}

impl Registry {
    pub open spec fn inv(&self) -> bool {
        registry_wf(self@)
    }

    /// An empty registry; connection ids start at zero.
    pub fn new() -> (r: Registry)
        ensures
            r.inv(),
            r@.subs.len() == 0,
            r@.next_id == 0,
            r@.log.len() == 0,
    {
        let r = Registry { subs: Vec::new(), next_id: 0, log: Ghost(Seq::empty()) };
        proof {
            assert(r@.subs =~= Seq::<SubView>::empty());
        }
        r
    }

    /// Whether another subscriber can still be accepted: the connection
    /// id counter has not run out. Callers test this before `register`.
    pub fn id_space_left(&self) -> (b: bool)
        ensures
            b == (self@.next_id < u64::MAX),
    {
        self.next_id < u64::MAX
    }

    pub fn subscriber_count(&self) -> (n: usize)
        ensures
            n == self@.subs.len(),
    {
        self.subs.len()
    }

    /// The current subscribers' connection ids, in registration order:
    /// the snapshot a fan-out covers.
    pub fn subscriber_ids(&self) -> (r: Vec<u64>)
        ensures
            r@.len() == self@.subs.len(),
            forall|i: int| 0 <= i < r@.len() ==> r@[i] == self@.subs[i].id,
    {
        let mut out: Vec<u64> = Vec::new();
        let mut k: usize = 0;
        while k < self.subs.len()
            invariant
                k <= self.subs.len(),
                out@.len() == k,
                forall|i: int| 0 <= i < k ==> out@[i] == self@.subs[i].id,
            decreases self.subs.len() - k,
        {
            out.push(self.subs[k].id);
            k = k + 1;
        }
        out
    }

    /// Accept a new live connection: allot a fresh, never-reused id and
    /// a bounded outbound channel, and hand back the receiving end.
    /// The new subscriber joins at the very end of the log: it gets
    /// nothing older, and every later broadcast. Never fails.
    pub fn register(&mut self, cap: usize) -> (r: (u64, Receiver<String>))
        requires
            old(self).inv(),
            1 <= cap <= usize::MAX / 8,
            old(self)@.next_id < u64::MAX,
        ensures
            final(self).inv(),
            r.0 == old(self)@.next_id,
            final(self)@.next_id == old(self)@.next_id + 1,
            final(self)@.log == old(self)@.log,
            final(self)@.subs.len() == old(self)@.subs.len() + 1,
            forall|i: int|
                0 <= i < old(self)@.subs.len() ==> final(self)@.subs[i] == old(self)@.subs[i],
            final(self)@.subs.last() == (SubView {
                id: old(self)@.next_id,
                joined: old(self)@.log.len() as int,
            }),
            received(final(self)@, final(self)@.subs.len() - 1).len() == 0,
    {
        let (tx, rx) = channel_pair(cap);
        let id = self.next_id;
        let sub = Subscriber { id, tx, joined: Ghost(self.log@.len() as int) };
        self.subs.push(sub);
        self.next_id = self.next_id + 1;
        proof {
            assert(self@.subs =~= old(self)@.subs.push(
                SubView { id: old(self)@.next_id, joined: old(self)@.log.len() as int },
            ));
        }
        (id, rx)
    }

    /// Forget a subscriber. A second call with the same id, or one with
    /// an id never handed out, is a no-op: cleanup is safe on every
    /// exit path of a connection.
    pub fn deregister(&mut self, id: u64)
        requires
            old(self).inv(),
        ensures
            final(self).inv(),
            final(self)@.log == old(self)@.log,
            final(self)@.next_id == old(self)@.next_id,
            !has_sub(old(self)@, id) ==> final(self)@ == old(self)@,
            has_sub(old(self)@, id) ==> final(self)@.subs == old(self)@.subs.remove(
                sub_index(old(self)@, id),
            ),
    {
        let ghost m = self@;
        let mut k: usize = 0;
        while k < self.subs.len()
            invariant
                m == old(self)@,
                registry_wf(m),
                self@ == m,
                k <= self.subs.len(),
                forall|i: int| 0 <= i < k ==> m.subs[i].id != id,
            decreases self.subs.len() - k,
        {
            if self.subs[k].id == id {
                proof {
                    lemma_sub_index(m, id, k as int);
                }
                self.subs.remove(k);
                proof {
                    assert(self@.subs =~= m.subs.remove(k as int));
                    let r = self@;
                    assert forall|a: int, b: int| 0 <= a < b < r.subs.len() implies (
                    #[trigger] r.subs[a]).id < (#[trigger] r.subs[b]).id by {
                        let a0 = if a < k { a } else { a + 1 };
                        let b0 = if b < k { b } else { b + 1 };
                        assert(r.subs[a] == m.subs[a0]);
                        assert(r.subs[b] == m.subs[b0]);
                        assert(m.subs[a0].id < m.subs[b0].id);
                    }
                    assert forall|a: int| 0 <= a < r.subs.len() implies (#[trigger] r.subs[a]).id
                        < r.next_id && 0 <= r.subs[a].joined <= r.log.len() by {
                        let a0 = if a < k { a } else { a + 1 };
                        assert(r.subs[a] == m.subs[a0]);
                    }
                }
                return ;
            }
            k = k + 1;
        }
        proof {
            if has_sub(m, id) {
                let i = sub_index(m, id);
                assert(m.subs[i].id == id);
                assert(false);
            }
        }
    }

    /// Deliver one rendered message to every subscriber's channel. A
    /// channel that does not take it — closed, or full past its bound —
    /// marks its subscriber as disconnected: the id is dropped from the
    /// registry and reported, and delivery to the others goes on
    /// regardless. The caller observes no failure. A surviving
    /// subscriber keeps its id and join point, so its `received`
    /// sequence grows by exactly this message.
    #[verifier::rlimit(50)]
    pub fn broadcast(&mut self, msg: &String) -> (dropped: Vec<u64>)
        requires
            old(self).inv(),
        ensures
            final(self).inv(),
            final(self)@.log == old(self)@.log.push(msg@),
            final(self)@.next_id == old(self)@.next_id,
            forall|i: int|
                0 <= i < old(self)@.subs.len() ==> (has_sub(
                    final(self)@,
                    (#[trigger] old(self)@.subs[i]).id,
                ) <==> !dropped@.contains(old(self)@.subs[i].id)),
            forall|id: u64| #[trigger] dropped@.contains(id) ==> has_sub(old(self)@, id),
            forall|j: int|
                0 <= j < final(self)@.subs.len() ==> appears_in(
                    #[trigger] final(self)@.subs[j],
                    old(self)@.subs,
                ),
    {
        let ghost m = self@;
        let ghost orig = self.subs@;
        let ghost n: int = orig.len() as int;
        // ghost bookkeeping: which original stands at each kept position
        // (src), whether each processed original survived (fate), where
        // it went (pos), and which original each dropped id came from
        // (dsrc)
        let ghost mut p: int = 0;
        let ghost mut src: Seq<int> = Seq::empty();
        let ghost mut fate: Seq<bool> = Seq::empty();
        let ghost mut pos: Seq<int> = Seq::empty();
        let ghost mut dsrc: Seq<int> = Seq::empty();
        let mut dropped: Vec<u64> = Vec::new();
        let mut k: usize = 0;
        while k < self.subs.len()
            invariant
                m == old(self)@,
                registry_wf(m),
                orig.len() == n,
                forall|i: int| 0 <= i < n ==> (#[trigger] orig[i])@ == m.subs[i],
                self.log@ == m.log,
                self.next_id == m.next_id,
                0 <= k as int <= self.subs@.len(),
                k as int <= p <= n,
                self.subs@.len() == k + (n - p),
                src.len() == k as int,
                forall|j: int|
                    0 <= j < k ==> 0 <= #[trigger] src[j] < p && self.subs@[j] == orig[src[j]]
                        && fate[src[j]],
                forall|j1: int, j2: int| 0 <= j1 < j2 < k ==> #[trigger] src[j1] < #[trigger] src[j2],
                forall|j: int|
                    k <= j < self.subs@.len() ==> (#[trigger] self.subs@[j]) == orig[p + (j - k)],
                fate.len() == p,
                pos.len() == p,
                forall|i: int|
                    0 <= i < p && fate[i] ==> 0 <= #[trigger] pos[i] < k && src[pos[i]] == i,
                forall|i: int|
                    0 <= i < p && !fate[i] ==> 0 <= #[trigger] pos[i] < dropped@.len()
                        && dropped@[pos[i]] == orig[i]@.id,
                dsrc.len() == dropped@.len(),
                forall|t: int|
                    0 <= t < dropped@.len() ==> 0 <= #[trigger] dsrc[t] < p
                        && orig[dsrc[t]]@.id == dropped@[t] && !fate[dsrc[t]],
            decreases self.subs.len() - k,
        {
            let accepted = try_send_text(&self.subs[k].tx, msg);
            proof {
                assert(self.subs@[k as int] == orig[p]);
            }
            if accepted {
                proof {
                    src = src.push(p);
                    fate = fate.push(true);
                    pos = pos.push(k as int);
                    p = p + 1;
                }
                k = k + 1;
            } else {
                let s = self.subs.remove(k);
                dropped.push(s.id);
                proof {
                    assert(s == orig[p]);
                    fate = fate.push(false);
                    pos = pos.push(dropped@.len() - 1);
                    dsrc = dsrc.push(p);
                    p = p + 1;
                }
            }
        }

        let ghost kept = self.subs@;
        proof {
            self.log@ = m.log.push(msg@);
            assert(p == n);
            assert(self.subs@ == kept);
            let r = self@;
            assert(r.log == m.log.push(msg@));

            // survivors: each kept position j shows its original src[j]
            assert forall|j: int| 0 <= j < self@.subs.len() implies appears_in(
                #[trigger] self@.subs[j],
                old(self)@.subs,
            ) by {
                let i = src[j];
                assert(0 <= i < old(self)@.subs.len() && old(self)@.subs[i] == self@.subs[j]);
            }
            // the rebuilt registry is well formed under the longer log
            assert forall|a: int, b: int| 0 <= a < b < r.subs.len() implies (
            #[trigger] r.subs[a]).id < (#[trigger] r.subs[b]).id by {
                assert(r.subs[a] == m.subs[src[a]]);
                assert(r.subs[b] == m.subs[src[b]]);
                assert(m.subs[src[a]].id < m.subs[src[b]].id);
            }
            assert forall|a: int| 0 <= a < r.subs.len() implies (#[trigger] r.subs[a]).id
                < r.next_id && 0 <= r.subs[a].joined <= r.log.len() by {
                assert(r.subs[a] == m.subs[src[a]]);
            }
            // the partition: a subscriber survived exactly when its id
            // was not reported dropped
            assert forall|i: int| 0 <= i < m.subs.len() implies (has_sub(
                r,
                (#[trigger] m.subs[i]).id,
            ) <==> !dropped@.contains(m.subs[i].id)) by {
                if fate[i] {
                    assert(r.subs[pos[i]] == m.subs[src[pos[i]]]);
                    assert(r.subs[pos[i]].id == m.subs[i].id);
                    assert(has_sub(r, m.subs[i].id));
                    if dropped@.contains(m.subs[i].id) {
                        let t = choose|t: int|
                            0 <= t < dropped@.len() && dropped@[t] == m.subs[i].id;
                        assert(orig[dsrc[t]]@.id == m.subs[i].id);
                        assert(m.subs[dsrc[t]].id == m.subs[i].id);
                        if dsrc[t] < i {
                            assert(m.subs[dsrc[t]].id < m.subs[i].id);
                        } else if i < dsrc[t] {
                            assert(m.subs[i].id < m.subs[dsrc[t]].id);
                        }
                        assert(dsrc[t] == i);
                        assert(false);
                    }
                } else {
                    assert(dropped@[pos[i]] == orig[i]@.id);
                    assert(dropped@.contains(m.subs[i].id));
                    if has_sub(r, m.subs[i].id) {
                        let j = sub_index(r, m.subs[i].id);
                        assert(r.subs[j] == m.subs[src[j]]);
                        assert(m.subs[src[j]].id == m.subs[i].id);
                        if src[j] < i {
                            assert(m.subs[src[j]].id < m.subs[i].id);
                        } else if i < src[j] {
                            assert(m.subs[i].id < m.subs[src[j]].id);
                        }
                        assert(src[j] == i);
                        assert(fate[i]);
                        assert(false);
                    }
                }
            }
            // every dropped id names a subscriber that was present
            assert forall|id: u64| #[trigger] dropped@.contains(id) implies has_sub(m, id) by {
                let t = choose|t: int| 0 <= t < dropped@.len() && dropped@[t] == id;
                assert(m.subs[dsrc[t]].id == id);
            }
        }
        dropped
    }
}

} // verus!
