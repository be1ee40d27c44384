//! The connection registry: a mapping from connection identity to that
//! connection's pending outbound frames, together with the delivery
//! operations of the relay (targeted send, fan-out, and the forwarder's
//! pop).

use vstd::prelude::*;
use crate::messages::{Frame, FrameView};

verus! {

/// Raised where an operation would break a registry invariant.
pub enum RegistryError {
    /// An identity was admitted twice without an intervening teardown.
    DuplicateIdentity,
}

/// The frames of a queue as mathematical values, oldest first.
pub open spec fn frame_views(q: Seq<Frame>) -> Seq<FrameView> {
    q.map_values(|f: Frame| f@)
}

/// What a targeted delivery does: append the frame to the addressee's queue
/// if the addressee is registered, else drop the frame silently.
pub open spec fn send_to_model(
    m: Map<u64, Seq<FrameView>>,
    id: u64,
    f: FrameView,
) -> Map<u64, Seq<FrameView>> {
    if m.dom().contains(id) {
        m.insert(id, m[id].push(f))
    } else {
        m
    }
}

/// What a fan-out does: append the frame to the queue of every registered
/// identity other than the sender; the sender's own queue and the set of
/// registered identities are untouched.
pub open spec fn fan_out_model(
    m: Map<u64, Seq<FrameView>>,
    sender: u64,
    f: FrameView,
) -> Map<u64, Seq<FrameView>> {
    Map::new(
        |k: u64| m.dom().contains(k),
        |k: u64|
            if k == sender {
                m[k]
            } else {
                m[k].push(f)
            },
    )
}

struct Entry {
    id: u64,
    queue: Vec<Frame>,
}

spec fn has_id(s: Seq<Entry>, id: u64) -> bool {
    exists|i: int| 0 <= i < s.len() && s[i].id == id
}

spec fn idx_of(s: Seq<Entry>, id: u64) -> int {
    choose|i: int| 0 <= i < s.len() && s[i].id == id
}

spec fn unique_ids(s: Seq<Entry>) -> bool {
    forall|i: int, j: int| 0 <= i < j < s.len() ==> s[i].id != s[j].id
}

spec fn map_of(s: Seq<Entry>) -> Map<u64, Seq<FrameView>> {
    Map::new(|id: u64| has_id(s, id), |id: u64| frame_views(s[idx_of(s, id)].queue@))
}

proof fn lemma_idx_of(s: Seq<Entry>, i: int)
    requires
        unique_ids(s),
        0 <= i < s.len(),
    ensures
        has_id(s, s[i].id),
        idx_of(s, s[i].id) == i,
{
    assert(has_id(s, s[i].id)) by {
        assert(0 <= i < s.len() && s[i].id == s[i].id);
    }
    let j = idx_of(s, s[i].id);
    assert(0 <= j < s.len() && s[j].id == s[i].id);
    if i < j {
        assert(s[i].id != s[j].id);
    } else if j < i {
        assert(s[j].id != s[i].id);
    }
}

/// Pointwise reading of `map_of`: each entry's identity is registered and
/// maps to that entry's queue.
proof fn lemma_map_of(s: Seq<Entry>)
    requires
        unique_ids(s),
    ensures
        forall|id: u64| #[trigger] map_of(s).dom().contains(id) <==> has_id(s, id),
        forall|i: int|
            0 <= i < s.len() ==> map_of(s).dom().contains(#[trigger] s[i].id) && map_of(s)[s[i].id]
                == frame_views(s[i].queue@),
{
    assert forall|i: int| 0 <= i < s.len() implies map_of(s).dom().contains(#[trigger] s[i].id)
        && map_of(s)[s[i].id] == frame_views(s[i].queue@) by {
        lemma_idx_of(s, i);
    }
}

/// Changing one entry's queue, and nothing else, updates the map at that
/// entry's identity, and nothing else.
proof fn lemma_queue_changed(s: Seq<Entry>, s2: Seq<Entry>, i: int)
    requires
        unique_ids(s),
        s2.len() == s.len(),
        0 <= i < s.len(),
        s2[i].id == s[i].id,
        forall|j: int| 0 <= j < s.len() && j != i ==> s2[j] == s[j],
    ensures
        unique_ids(s2),
        map_of(s2) =~= map_of(s).insert(s[i].id, frame_views(s2[i].queue@)),
{
    assert forall|p: int, q: int| 0 <= p < q < s2.len() implies s2[p].id != s2[q].id by {
        assert(s2[p].id == s[p].id && s2[q].id == s[q].id);
        assert(s[p].id != s[q].id);
    }
    lemma_map_of(s);
    lemma_map_of(s2);
    assert forall|k: u64| has_id(s2, k) <==> has_id(s, k) by {
        if has_id(s2, k) {
            let p = choose|p: int| 0 <= p < s2.len() && s2[p].id == k;
            assert(s[p].id == k);
        }
        if has_id(s, k) {
            let p = choose|p: int| 0 <= p < s.len() && s[p].id == k;
            assert(s2[p].id == k);
        }
    }
    assert forall|k: u64| #[trigger] map_of(s2).dom().contains(k) implies map_of(s2)[k] == map_of(
        s,
    ).insert(s[i].id, frame_views(s2[i].queue@))[k] by {
        let p = choose|p: int| 0 <= p < s2.len() && s2[p].id == k;
        lemma_idx_of(s2, p);
        lemma_idx_of(s, p);
        if p == i {
            assert(k == s[i].id);
            assert(map_of(s2)[k] == frame_views(s2[i].queue@));
        } else {
            assert(s2[p] == s[p]);
            assert(map_of(s2)[k] == frame_views(s2[p].queue@));
            assert(map_of(s)[k] == frame_views(s[p].queue@));
            assert(k != s[i].id);
        }
    }
}

/// Appending an entry with a fresh identity inserts exactly that identity.
proof fn lemma_push_entry(s: Seq<Entry>, e: Entry)
    requires
        unique_ids(s),
        !has_id(s, e.id),
    ensures
        unique_ids(s.push(e)),
        map_of(s.push(e)) =~= map_of(s).insert(e.id, frame_views(e.queue@)),
{
    let s2 = s.push(e);
    assert forall|p: int, q: int| 0 <= p < q < s2.len() implies s2[p].id != s2[q].id by {
        if q < s.len() {
            assert(s[p].id != s[q].id);
        } else {
            assert(s2[q] == e);
            assert(s2[p] == s[p]);
            if s[p].id == e.id {
                assert(has_id(s, e.id));
            }
        }
    }
    lemma_map_of(s);
    lemma_map_of(s2);
    assert forall|k: u64| has_id(s2, k) <==> (has_id(s, k) || k == e.id) by {
        if has_id(s2, k) {
            let p = choose|p: int| 0 <= p < s2.len() && s2[p].id == k;
            if p < s.len() {
                assert(s[p].id == k);
            } else {
                assert(s2[p] == e);
            }
        }
        if has_id(s, k) {
            let p = choose|p: int| 0 <= p < s.len() && s[p].id == k;
            assert(s2[p].id == k);
        }
        if k == e.id {
            assert(s2[s.len() as int].id == k);
        }
    }
    assert forall|k: u64| #[trigger] map_of(s2).dom().contains(k) implies map_of(s2)[k] == map_of(
        s,
    ).insert(e.id, frame_views(e.queue@))[k] by {
        let p = choose|p: int| 0 <= p < s2.len() && s2[p].id == k;
        lemma_idx_of(s2, p);
        if p < s.len() {
            assert(s2[p] == s[p]);
            lemma_idx_of(s, p);
            assert(map_of(s)[k] == frame_views(s[p].queue@));
            if k == e.id {
                assert(has_id(s, e.id));
            }
        } else {
            assert(s2[p] == e);
            assert(map_of(s2)[k] == frame_views(e.queue@));
        }
    }
}

/// Removing the entry at one index removes exactly that identity.
proof fn lemma_remove_entry(s: Seq<Entry>, i: int)
    requires
        unique_ids(s),
        0 <= i < s.len(),
    ensures
        unique_ids(s.remove(i)),
        map_of(s.remove(i)) =~= map_of(s).remove(s[i].id),
{
    let s2 = s.remove(i);
    s.remove_ensures(i);
    assert forall|p: int, q: int| 0 <= p < q < s2.len() implies s2[p].id != s2[q].id by {
        let p0: int = if p < i { p } else { p + 1 };
        let q0: int = if q < i { q } else { q + 1 };
        assert(s2[p] == s[p0] && s2[q] == s[q0]);
        assert(s[p0].id != s[q0].id);
    }
    lemma_map_of(s);
    lemma_map_of(s2);
    assert forall|k: u64| has_id(s2, k) <==> (has_id(s, k) && k != s[i].id) by {
        if has_id(s2, k) {
            let p = choose|p: int| 0 <= p < s2.len() && s2[p].id == k;
            let p0: int = if p < i { p } else { p + 1 };
            assert(s2[p] == s[p0]);
            assert(s[p0].id == k);
            if k == s[i].id {
                lemma_idx_of(s, p0);
                lemma_idx_of(s, i);
            }
        }
        if has_id(s, k) && k != s[i].id {
            let p = choose|p: int| 0 <= p < s.len() && s[p].id == k;
            if p < i {
                assert(s2[p].id == k);
            } else {
                assert(p != i);
                assert(s2[p - 1] == s[p]);
                assert(s2[p - 1].id == k);
            }
        }
    }
    assert forall|k: u64| #[trigger] map_of(s2).dom().contains(k) implies map_of(s2)[k] == map_of(
        s,
    ).remove(s[i].id)[k] by {
        let p = choose|p: int| 0 <= p < s2.len() && s2[p].id == k;
        lemma_idx_of(s2, p);
        let p0: int = if p < i { p } else { p + 1 };
        assert(s2[p] == s[p0]);
        lemma_idx_of(s, p0);
        assert(map_of(s)[k] == frame_views(s[p0].queue@));
    }
}

/// A registered identity `k` stands for a connection whose forwarder still
/// accepts outbound work; `self@[k]` is what has been queued for `k` and not
/// yet handed to its forwarder, oldest first.
pub struct Registry {
    entries: Vec<Entry>,
}

impl View for Registry {
    type V = Map<u64, Seq<FrameView>>;

    closed spec fn view(&self) -> Map<u64, Seq<FrameView>> {
        map_of(self.entries@)
    }
}

impl Registry {
    /// At most one entry per identity.
    pub closed spec fn wf(&self) -> bool {
        unique_ids(self.entries@)
    }

    /// An empty registry: no identities, no queued frames.
    pub fn new() -> (r: Registry)
        ensures
            r.wf(),
            r@ == Map::<u64, Seq<FrameView>>::empty(),
    {
        let r = Registry { entries: Vec::new() };
        proof {
            assert(r@ =~= Map::<u64, Seq<FrameView>>::empty());
        }
        r
    }

    fn find_index(&self, id: u64) -> (r: Option<usize>)
        ensures
            match r {
                Some(i) => i < self.entries@.len() && self.entries@[i as int].id == id,
                None => !has_id(self.entries@, id),
            },
    {
        let n = self.entries.len();
        let mut i: usize = 0;
        while i < n
            invariant
                n == self.entries@.len(),
                i <= n,
                forall|j: int| 0 <= j < i ==> self.entries@[j].id != id,
            decreases n - i,
        {
            if self.entries[i].id == id {
                return Some(i);
            }
            i = i + 1;
        }
        None
    }

    /// Whether `id` is currently registered.
    pub fn contains(&self, id: u64) -> (r: bool)
        requires
            self.wf(),
        ensures
            r == self@.dom().contains(id),
    {
        match self.find_index(id) {
            Some(i) => {
                proof {
                    lemma_idx_of(self.entries@, i as int);
                }
                true
            },
            None => false,
        }
    }

    /// How many identities are currently registered.
    pub fn len(&self) -> (n: usize)
        requires
            self.wf(),
        ensures
            n == self@.dom().len(),
    {
        proof {
            lemma_dom_len(self.entries@);
        }
        self.entries.len()
    }

    /// Admission: registers `id` with an empty queue.  A duplicate identity
    /// is an invariant violation and is refused, leaving the registry as it
    /// was.
    pub fn register(&mut self, id: u64) -> (r: Result<(), RegistryError>)
        requires
            old(self).wf(),
        ensures
            final(self).wf(),
            r is Ok <==> !old(self)@.dom().contains(id),
            r is Ok ==> final(self)@ == old(self)@.insert(id, Seq::<FrameView>::empty()),
            r is Err ==> final(self)@ == old(self)@ && r == Err::<(), RegistryError>(
                RegistryError::DuplicateIdentity,
            ),
    {
        proof {
            lemma_map_of(self.entries@);
        }
        match self.find_index(id) {
            Some(i) => {
                proof {
                    lemma_idx_of(self.entries@, i as int);
                }
                Err(RegistryError::DuplicateIdentity)
            },
            None => {
                let ghost s = self.entries@;
                self.entries.push(Entry { id, queue: Vec::new() });
                proof {
                    lemma_push_entry(s, self.entries@.last());
                    assert(frame_views(self.entries@.last().queue@)
                        =~= Seq::<FrameView>::empty());
                    assert(self@ =~= old(self)@.insert(id, Seq::<FrameView>::empty()));
                }
                Ok(())
            },
        }
    }

    /// Teardown: removes `id` if present; removing an absent identity is a
    /// no-op, not an error.
    pub fn remove(&mut self, id: u64)
        requires
            old(self).wf(),
        ensures
            final(self).wf(),
            final(self)@ == old(self)@.remove(id),
            !final(self)@.dom().contains(id),
    {
        proof {
            lemma_map_of(self.entries@);
        }
        match self.find_index(id) {
            Some(i) => {
                let ghost s = self.entries@;
                proof {
                    lemma_idx_of(s, i as int);
                }
                self.entries.remove(i);
                proof {
                    lemma_remove_entry(s, i as int);
                    lemma_map_of(self.entries@);
                }
            },
            None => {
                proof {
                    assert(self@ =~= old(self)@.remove(id));
                }
            },
        }
    }

    /// Replaces the queue of the entry at `i` with the same queue plus `f`
    /// at its end.
    fn push_frame_at(&mut self, i: usize, f: Frame)
        requires
            i < old(self).entries@.len(),
        ensures
            final(self).entries@.len() == old(self).entries@.len(),
            final(self).entries@[i as int].id == old(self).entries@[i as int].id,
            frame_views(final(self).entries@[i as int].queue@) == frame_views(
                old(self).entries@[i as int].queue@,
            ).push(f@),
            forall|j: int|
                0 <= j < old(self).entries@.len() && j != i ==> final(self).entries@[j] == old(self).entries@[j],
    {
        let ghost q0 = self.entries@[i as int].queue@;
        let mut tmp = Entry { id: 0, queue: Vec::new() };
        self.entries.set_and_swap(i, &mut tmp);
        tmp.queue.push(f);
        self.entries.set_and_swap(i, &mut tmp);
        proof {
            assert(self.entries@[i as int].queue@ == q0.push(f));
            assert(frame_views(self.entries@[i as int].queue@) =~= frame_views(q0).push(f@));
        }
    }

    /// Targeted delivery, used for the stream-link reply: appends `f` to
    /// `id`'s queue if `id` is registered, else drops the frame silently.
    pub fn send_to(&mut self, id: u64, f: Frame)
        requires
            old(self).wf(),
        ensures
            final(self).wf(),
            final(self)@ == send_to_model(old(self)@, id, f@),
    {
        proof {
            lemma_map_of(self.entries@);
        }
        match self.find_index(id) {
            Some(i) => {
                let ghost s = self.entries@;
                proof {
                    lemma_idx_of(s, i as int);
                }
                self.push_frame_at(i, f);
                proof {
                    lemma_queue_changed(s, self.entries@, i as int);
                    assert(self@ =~= send_to_model(old(self)@, id, f@));
                }
            },
            None => {},
        }
    }

    /// Fan-out: appends `f` to the queue of every registered identity other
    /// than `sender`.  An identity not in the registry gains nothing, the
    /// sender's own queue is untouched, and no identity joins or leaves.
    pub fn fan_out(&mut self, sender: u64, f: Frame)
        requires
            old(self).wf(),
        ensures
            final(self).wf(),
            final(self)@ == fan_out_model(old(self)@, sender, f@),
    {
        let ghost s0 = self.entries@;
        let n = self.entries.len();
        let mut i: usize = 0;
        while i < n
            invariant
                old(self).wf(),
                s0 == old(self).entries@,
                n == s0.len(),
                i <= n,
                self.entries@.len() == n,
                forall|j: int| 0 <= j < n ==> #[trigger] self.entries@[j].id == s0[j].id,
                forall|j: int| i <= j < n ==> #[trigger] self.entries@[j] == s0[j],
                forall|j: int|
                    0 <= j < i && s0[j].id != sender ==> frame_views(
                        #[trigger] self.entries@[j].queue@,
                    ) == frame_views(s0[j].queue@).push(f@),
                forall|j: int|
                    0 <= j < i && s0[j].id == sender ==> #[trigger] self.entries@[j] == s0[j],
            decreases n - i,
        {
            if self.entries[i].id != sender {
                let copy = f.clone();
                self.push_frame_at(i, copy);
            }
            i = i + 1;
        }
        proof {
            lemma_fan_out_map(s0, self.entries@, sender, f@);
            assert(self@ =~= fan_out_model(old(self)@, sender, f@));
        }
    }

    /// The forwarder's pop: takes the oldest pending frame of `id`'s queue,
    /// if `id` is registered and has one.
    pub fn pop_outbound(&mut self, id: u64) -> (r: Option<Frame>)
        requires
            old(self).wf(),
        ensures
            final(self).wf(),
            match r {
                Some(f) => old(self)@.dom().contains(id) && old(self)@[id].len() > 0 && f@ == old(self)@[id].first() && final(self)@ == old(self)@.insert(
                    id,
                    old(self)@[id].drop_first(),
                ),
                None => (!old(self)@.dom().contains(id) || old(self)@[id].len() == 0) && final(self)@ == old(self)@,
            },
    {
        proof {
            lemma_map_of(self.entries@);
        }
        match self.find_index(id) {
            Some(i) => {
                let ghost s = self.entries@;
                proof {
                    lemma_idx_of(s, i as int);
                }
                let mut tmp = Entry { id: 0, queue: Vec::new() };
                self.entries.set_and_swap(i, &mut tmp);
                if tmp.queue.len() == 0 {
                    self.entries.set_and_swap(i, &mut tmp);
                    proof {
                        assert(self.entries@ =~= s);
                        assert(frame_views(s[i as int].queue@).len() == 0);
                    }
                    None
                } else {
                    let front = tmp.queue.remove(0);
                    self.entries.set_and_swap(i, &mut tmp);
                    proof {
                        lemma_queue_changed(s, self.entries@, i as int);
                        let q0 = frame_views(s[i as int].queue@);
                        assert(frame_views(self.entries@[i as int].queue@) =~= q0.drop_first());
                        assert(front@ == q0.first());
                        assert(self@ =~= old(self)@.insert(id, old(self)@[id].drop_first()));
                    }
                    Some(front)
                }
            },
            None => None,
        }
    }
}

/// From the per-index loop facts of a fan-out to its map-level statement.
proof fn lemma_fan_out_map(s: Seq<Entry>, s2: Seq<Entry>, sender: u64, f: FrameView)
    requires
        unique_ids(s),
        s2.len() == s.len(),
        forall|j: int| 0 <= j < s.len() ==> #[trigger] s2[j].id == s[j].id,
        forall|j: int|
            0 <= j < s.len() && s[j].id != sender ==> frame_views(#[trigger] s2[j].queue@)
                == frame_views(s[j].queue@).push(f),
        forall|j: int| 0 <= j < s.len() && s[j].id == sender ==> #[trigger] s2[j] == s[j],
    ensures
        unique_ids(s2),
        map_of(s2) =~= fan_out_model(map_of(s), sender, f),
{
    assert forall|p: int, q: int| 0 <= p < q < s2.len() implies s2[p].id != s2[q].id by {
        assert(s[p].id != s[q].id);
    }
    lemma_map_of(s);
    lemma_map_of(s2);
    assert forall|k: u64| has_id(s2, k) <==> has_id(s, k) by {
        if has_id(s2, k) {
            let p = choose|p: int| 0 <= p < s2.len() && s2[p].id == k;
            assert(s[p].id == k);
        }
        if has_id(s, k) {
            let p = choose|p: int| 0 <= p < s.len() && s[p].id == k;
            assert(s2[p].id == k);
        }
    }
    assert forall|k: u64| #[trigger] map_of(s2).dom().contains(k) implies map_of(s2)[k]
        == fan_out_model(map_of(s), sender, f)[k] by {
        let p = choose|p: int| 0 <= p < s2.len() && s2[p].id == k;
        lemma_idx_of(s2, p);
        assert(s[p].id == k);
        lemma_idx_of(s, p);
        assert(map_of(s)[k] == frame_views(s[p].queue@));
        if k == sender {
            assert(s2[p] == s[p]);
        } else {
            assert(frame_views(s2[p].queue@) == frame_views(s[p].queue@).push(f));
        }
    }
}

/// With unique identities, the registered set has exactly one member per
/// entry.
proof fn lemma_dom_len(s: Seq<Entry>)
    requires
        unique_ids(s),
    ensures
        map_of(s).dom().len() == s.len(),
        map_of(s).dom().finite(),
    decreases s.len(),
{
    lemma_map_of(s);
    if s.len() == 0 {
        assert(map_of(s).dom() =~= Set::<u64>::empty());
    } else {
        let s1 = s.drop_last();
        assert forall|p: int, q: int| 0 <= p < q < s1.len() implies s1[p].id != s1[q].id by {
            assert(s[p].id != s[q].id);
        }
        lemma_dom_len(s1);
        lemma_map_of(s1);
        let last = s.last();
        assert(!has_id(s1, last.id)) by {
            if has_id(s1, last.id) {
                let p = choose|p: int| 0 <= p < s1.len() && s1[p].id == last.id;
                assert(s[p].id == s[s.len() - 1].id);
            }
        }
        assert forall|k: u64| has_id(s, k) <==> (has_id(s1, k) || k == last.id) by {
            if has_id(s, k) {
                let p = choose|p: int| 0 <= p < s.len() && s[p].id == k;
                if p < s1.len() {
                    assert(s1[p].id == k);
                } else {
                    assert(s[p] == last);
                }
            }
            if has_id(s1, k) {
                let p = choose|p: int| 0 <= p < s1.len() && s1[p].id == k;
                assert(s[p].id == k);
            }
            if k == last.id {
                assert(s[s.len() - 1].id == k);
            }
        }
        assert(map_of(s).dom() =~= map_of(s1).dom().insert(last.id));
        vstd::set::axiom_set_insert_finite(map_of(s1).dom(), last.id);
        vstd::set::axiom_set_insert_len(map_of(s1).dom(), last.id);
    }
}

} // verus!
