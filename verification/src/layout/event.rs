//! Events and the registry of event listeners.
//!
//! The registry keeps, for each node and event type, the listeners in the
//! order they were added, each with its identifier and phase.
use vstd::prelude::*;
use crate::text::{owned, str_eq};
use crate::clock::now_millis;

verus! {

/// Phase of event propagation.
#[derive(Debug, Clone, Copy, PartialEq, Eq, Structural)]
pub enum EventPhase {
    /// Going down to the target.
    Capturing,
    /// At the target.
    AtTarget,
    /// Going back up.
    Bubbling,
}

/// An event.
#[derive(Debug, Clone)]
pub struct Event {
    /// Event type.
    pub event_type: String,
    /// Target node.
    pub target: Option<u64>,
    /// Node the event is currently at.
    pub current_target: Option<u64>,
    /// Propagation phase.
    pub phase: EventPhase,
    /// Whether the event bubbles.
    pub bubbles: bool,
    /// Whether the default action can be prevented.
    pub cancelable: bool,
    /// Whether propagation was stopped.
    pub propagation_stopped: bool,
    /// Whether the default action was prevented.
    pub default_prevented: bool,
    /// Creation time in milliseconds since the Unix epoch.
    pub timestamp: u64,
}

/// `e` is a fresh event of type `t`: no target, capturing phase, bubbling,
/// nothing stopped or prevented.
pub open spec fn fresh_event(e: Event, t: Seq<char>, cancelable: bool) -> bool {
    &&& e.event_type@ == t
    &&& e.target is None
    &&& e.current_target is None
    &&& e.phase == EventPhase::Capturing
    &&& e.bubbles
    &&& e.cancelable == cancelable
    &&& !e.propagation_stopped
    &&& !e.default_prevented
}

impl Event {
    /// A new event of the given type; it bubbles and cannot be canceled.
    pub fn new(event_type: &str) -> (e: Self)
        ensures
            fresh_event(e, event_type@, false),
    {
        Event {
            event_type: owned(event_type),
            target: None,
            current_target: None,
            phase: EventPhase::Capturing,
            bubbles: true,
            cancelable: false,
            propagation_stopped: false,
            default_prevented: false,
            timestamp: now_millis(),
        }
    }

    /// A new bubbling event.
    pub fn new_bubbling(event_type: &str) -> (e: Self)
        ensures
            fresh_event(e, event_type@, false),
    {
        let mut event = Self::new(event_type);
        event.bubbles = true;
        event
    }

    /// A new event that can be canceled.
    pub fn new_cancelable(event_type: &str) -> (e: Self)
        ensures
            fresh_event(e, event_type@, true),
    {
        let mut event = Self::new(event_type);
        event.cancelable = true;
        event
    }

    /// Stops propagation.
    pub fn stop_propagation(&mut self)
        ensures
            *final(self) == (Event { propagation_stopped: true, ..*old(self) }),
    {
        self.propagation_stopped = true;
    }

    /// Prevents the default action, when the event can be canceled.
    pub fn prevent_default(&mut self)
        ensures
            *final(self) == (Event {
                default_prevented: old(self).default_prevented || old(self).cancelable,
                ..*old(self)
            }),
    {
        if self.cancelable {
            self.default_prevented = true;
        }
    }
}

/// A registered listener: its identifier, event type and phase.
#[derive(Debug)]
pub struct EventListenerHandle {
    /// Listener identifier.
    pub id: u64,
    /// Event type.
    pub event_type: String,
    /// Whether it fires in the capturing phase.
    pub capture: bool,
}

impl EventListenerHandle {
    /// A copy of the handle.
    pub fn copy(&self) -> (h: Self)
        ensures
            h.id == self.id,
            h.event_type@ == self.event_type@,
            h.capture == self.capture,
    {
        EventListenerHandle { id: self.id, event_type: self.event_type.clone(), capture: self.capture }
    }
}

/// The listeners of one node and event type.
#[derive(Debug)]
pub struct ListenerGroup {
    /// Node identifier.
    pub node_id: u64,
    /// Event type.
    pub event_type: String,
    /// Listeners in the order they were added.
    pub handles: Vec<EventListenerHandle>,
}

/// Identifiers of a list of handles.
pub open spec fn ids_of(hs: Seq<EventListenerHandle>) -> Seq<u64> {
    hs.map_values(|h: EventListenerHandle| h.id)
}

/// The handles among the first `k` of `hs` with the given phase.
pub open spec fn with_phase(hs: Seq<EventListenerHandle>, capture: bool, k: int) -> Seq<EventListenerHandle>
    decreases k,
{
    if k <= 0 {
        Seq::empty()
    } else {
        with_phase(hs, capture, k - 1) + if hs[k - 1].capture == capture {
            seq![hs[k - 1]]
        } else {
            Seq::empty()
        }
    }
}

/// Index of the group for `node_id` and event type `t`, if any.
pub open spec fn group_index(gs: Seq<ListenerGroup>, node_id: u64, t: Seq<char>) -> Option<int> {
    if exists|i: int| 0 <= i < gs.len() && gs[i].node_id == node_id && gs[i].event_type@ == t {
        Some(choose|i: int| 0 <= i < gs.len() && gs[i].node_id == node_id && gs[i].event_type@ == t)
    } else {
        None
    }
}

/// The registry of listeners by node and event type.
#[derive(Debug)]
pub struct EventRegistry {
    next_id: u64,
    groups: Vec<ListenerGroup>,
}

impl EventRegistry {
    /// Groups have distinct keys and every identifier is below the next one.
    #[verifier::type_invariant]
    pub closed spec fn inv(&self) -> bool {
        &&& self.next_id >= 1
        &&& forall|i: int, j: int|
            0 <= i < j < self.groups@.len() ==> !(self.groups@[i].node_id == self.groups@[j].node_id
                && self.groups@[i].event_type@ == self.groups@[j].event_type@)
        &&& forall|i: int, j: int|
            0 <= i < self.groups@.len() && 0 <= j < self.groups@[i].handles@.len() ==> #[trigger] self.groups@[i].handles@[j].id
                < self.next_id
    }

    /// The identifier the next listener gets.
    pub closed spec fn next(&self) -> u64 {
        self.next_id
    }

    /// The groups in the order they were created.
    pub closed spec fn group_seq(&self) -> Seq<ListenerGroup> {
        self.groups@
    }

    /// An empty registry; identifiers start at 1.
    pub fn new() -> (r: Self)
        ensures
            r.next() == 1,
            r.group_seq().len() == 0,
    {
        EventRegistry { next_id: 1, groups: Vec::new() }
    }

    /// Position of the group for `node_id` and `event_type`.
    fn find_group(&self, node_id: u64, event_type: &str) -> (r: Option<usize>)
        ensures
            match r {
                Some(g) => group_index(self.group_seq(), node_id, event_type@) == Some(g as int),
                None => group_index(self.group_seq(), node_id, event_type@) is None,
            },
    {
        proof {
            use_type_invariant(self);
        }
        let mut g: usize = 0;
        while g < self.groups.len()
            invariant
                g <= self.groups@.len(),
                self.inv(),
                forall|i: int| 0 <= i < g ==> !(self.groups@[i].node_id == node_id && self.groups@[i].event_type@
                    == event_type@),
            decreases self.groups@.len() - g,
        {
            if self.groups[g].node_id == node_id && str_eq(self.groups[g].event_type.as_str(), event_type) {
                proof {
                    let gs = self.groups@;
                    let c = choose|i: int| 0 <= i < gs.len() && gs[i].node_id == node_id && gs[i].event_type@ == event_type@;
                    assert(c == g) by {
                        if c != g as int {
                            if c < g {
                            } else {
                                assert(!(gs[g as int].node_id == gs[c].node_id && gs[g as int].event_type@ == gs[c].event_type@));
                            }
                        }
                    }
                }
                return Some(g);
            }
            g = g + 1;
        }
        None
    }
}


/// Position of the first handle with identifier `id`, from `j` on.
pub open spec fn find_pos(hs: Seq<EventListenerHandle>, id: u64, j: int) -> Option<int>
    decreases hs.len() - j,
{
    if j < 0 || j >= hs.len() {
        None
    } else if hs[j].id == id {
        Some(j)
    } else {
        find_pos(hs, id, j + 1)
    }
}

/// The first group from `k` on (in creation order) of node `node_id` that
/// has a listener `id`, with the position of that listener.
pub open spec fn first_hit(gs: Seq<ListenerGroup>, node_id: u64, id: u64, k: int) -> Option<(int, int)>
    decreases gs.len() - k,
{
    if k < 0 || k >= gs.len() {
        None
    } else if gs[k].node_id == node_id && find_pos(gs[k].handles@, id, 0) is Some {
        Some((k, find_pos(gs[k].handles@, id, 0)->0))
    } else {
        first_hit(gs, node_id, id, k + 1)
    }
}

/// `h` is a listener `id` of type `t` and the given phase.
pub open spec fn handle_is(h: EventListenerHandle, id: u64, t: Seq<char>, capture: bool) -> bool {
    h.id == id && h.event_type@ == t && h.capture == capture
}

/// `n` is `o` with listener `id` of type `t` added for `node_id`: at the end
/// of its group, or in a new group at the end.
pub open spec fn add_result(
    o: Seq<ListenerGroup>,
    n: Seq<ListenerGroup>,
    node_id: u64,
    t: Seq<char>,
    capture: bool,
    id: u64,
) -> bool {
    match group_index(o, node_id, t) {
        Some(g) => {
            &&& n.len() == o.len()
            &&& forall|i: int| 0 <= i < o.len() && i != g ==> n[i] == o[i]
            &&& n[g].node_id == o[g].node_id
            &&& n[g].event_type == o[g].event_type
            &&& n[g].handles@.len() == o[g].handles@.len() + 1
            &&& n[g].handles@.drop_last() == o[g].handles@
            &&& handle_is(n[g].handles@.last(), id, t, capture)
        },
        None => {
            &&& n.len() == o.len() + 1
            &&& n.drop_last() == o
            &&& n.last().node_id == node_id
            &&& n.last().event_type@ == t
            &&& n.last().handles@.len() == 1
            &&& handle_is(n.last().handles@[0], id, t, capture)
        },
    }
}

/// The copies `r` list the handles `w` by identifier, type and phase.
pub open spec fn handles_copied(r: Seq<EventListenerHandle>, w: Seq<EventListenerHandle>) -> bool {
    r.len() == w.len() && forall|i: int| 0 <= i < r.len() ==> handle_is(#[trigger] r[i], w[i].id, w[i].event_type@, w[i].capture)
}

impl EventRegistry {
    /// Adds a listener of `event_type` for `node_id` in the given phase and
    /// returns its identifier, the next one.
    pub fn add_listener(&mut self, node_id: u64, event_type: &str, capture: bool) -> (r: u64)
        requires
            old(self).next() < u64::MAX,
        ensures
            r == old(self).next(),
            final(self).next() == old(self).next() + 1,
            add_result(old(self).group_seq(), final(self).group_seq(), node_id, event_type@, capture, r),
    {
        proof {
            use_type_invariant(&*self);
        }
        let id = self.next_id;
        let found = self.find_group(node_id, event_type);
        let handle = EventListenerHandle { id, event_type: owned(event_type), capture };
        let mut gs: Vec<ListenerGroup> = Vec::new();
        std::mem::swap(&mut gs, &mut self.groups);
        let ghost og = gs@;
        self.next_id = id + 1;
        match found {
            Some(g) => {
                let mut grp = gs.remove(g);
                grp.handles.push(handle);
                gs.insert(g, grp);
                proof {
                    assert forall|i: int, j: int| 0 <= i < gs@.len() && 0 <= j < gs@[i].handles@.len() implies #[trigger] gs@[i].handles@[j].id < id + 1 by {
                        if i != g as int {
                            assert(gs@[i] == og[i]);
                        } else if j < og[i].handles@.len() {
                            assert(gs@[i].handles@[j] == og[i].handles@[j]);
                        }
                    }
                    assert forall|i: int, j: int| 0 <= i < j < gs@.len() implies !(gs@[i].node_id == gs@[j].node_id
                        && gs@[i].event_type@ == gs@[j].event_type@) by {
                        assert(gs@[i].node_id == og[i].node_id && gs@[i].event_type == og[i].event_type);
                        assert(gs@[j].node_id == og[j].node_id && gs@[j].event_type == og[j].event_type);
                    }
                    assert(gs@[g as int].handles@.drop_last() =~= og[g as int].handles@);
                }
            },
            None => {
                let mut handles: Vec<EventListenerHandle> = Vec::new();
                handles.push(handle);
                gs.push(ListenerGroup { node_id, event_type: owned(event_type), handles });
                proof {
                    assert forall|i: int, j: int| 0 <= i < gs@.len() && 0 <= j < gs@[i].handles@.len() implies #[trigger] gs@[i].handles@[j].id < id + 1 by {
                        if i < og.len() {
                            assert(gs@[i] == og[i]);
                        }
                    }
                    assert forall|i: int, j: int| 0 <= i < j < gs@.len() implies !(gs@[i].node_id == gs@[j].node_id
                        && gs@[i].event_type@ == gs@[j].event_type@) by {
                        if j == og.len() {
                            assert(gs@[i] == og[i]);
                        } else {
                            assert(gs@[i] == og[i] && gs@[j] == og[j]);
                        }
                    }
                    assert(gs@.drop_last() =~= og);
                }
            },
        }
        self.groups = gs;
        id
    }

    /// Removes the listener `listener_id` of node `node_id`; whether one was found.
    pub fn remove_listener(&mut self, node_id: u64, listener_id: u64) -> (r: bool)
        ensures
            final(self).next() == old(self).next(),
            match first_hit(old(self).group_seq(), node_id, listener_id, 0) {
                Some((g, p)) => {
                    &&& r
                    &&& final(self).group_seq().len() == old(self).group_seq().len()
                    &&& forall|i: int| 0 <= i < old(self).group_seq().len() && i != g ==> final(self).group_seq()[i]
                        == old(self).group_seq()[i]
                    &&& final(self).group_seq()[g].node_id == old(self).group_seq()[g].node_id
                    &&& final(self).group_seq()[g].event_type == old(self).group_seq()[g].event_type
                    &&& final(self).group_seq()[g].handles@ == old(self).group_seq()[g].handles@.remove(p)
                },
                None => !r && final(self).group_seq() == old(self).group_seq(),
            },
    {
        proof {
            use_type_invariant(&*self);
        }
        let mut g: usize = 0;
        while g < self.groups.len()
            invariant
                g <= self.groups@.len(),
                self.inv(),
                self.next() == old(self).next(),
                self.group_seq() == old(self).group_seq(),
                first_hit(self.group_seq(), node_id, listener_id, 0) == first_hit(self.group_seq(), node_id, listener_id, g as int),
            decreases self.groups@.len() - g,
        {
            if self.groups[g].node_id == node_id {
                let mut p: usize = 0;
                let n = self.groups[g].handles.len();
                while p < n
                    invariant
                        p <= n,
                        g < self.groups@.len(),
                        n == self.groups@[g as int].handles@.len(),
                        find_pos(self.groups@[g as int].handles@, listener_id, 0) == find_pos(
                            self.groups@[g as int].handles@,
                            listener_id,
                            p as int,
                        ),
                    ensures
                        p <= n,
                        g < self.groups@.len(),
                        n == self.groups@[g as int].handles@.len(),
                        p < n ==> self.groups@[g as int].handles@[p as int].id == listener_id,
                        find_pos(self.groups@[g as int].handles@, listener_id, 0) == find_pos(
                            self.groups@[g as int].handles@,
                            listener_id,
                            p as int,
                        ),
                    decreases n - p,
                {
                    if self.groups[g].handles[p].id == listener_id {
                        break;
                    }
                    p = p + 1;
                }
                if p < n {
                    let ghost og = self.groups@;
                    let mut gs: Vec<ListenerGroup> = Vec::new();
                    std::mem::swap(&mut gs, &mut self.groups);
                    let mut grp = gs.remove(g);
                    grp.handles.remove(p);
                    gs.insert(g, grp);
                    proof {
                        assert forall|i: int, j: int| 0 <= i < gs@.len() && 0 <= j < gs@[i].handles@.len() implies #[trigger] gs@[i].handles@[j].id < self.next_id by {
                            if i != g as int {
                                assert(gs@[i] == og[i]);
                            } else if j < p {
                                assert(gs@[i].handles@[j] == og[i].handles@[j]);
                            } else {
                                assert(gs@[i].handles@[j] == og[i].handles@[j + 1]);
                            }
                        }
                        assert forall|i: int, j: int| 0 <= i < j < gs@.len() implies !(gs@[i].node_id == gs@[j].node_id
                            && gs@[i].event_type@ == gs@[j].event_type@) by {
                            assert(gs@[i].node_id == og[i].node_id && gs@[i].event_type == og[i].event_type);
                            assert(gs@[j].node_id == og[j].node_id && gs@[j].event_type == og[j].event_type);
                        }
                    }
                    self.groups = gs;
                    return true;
                }
            }
            g = g + 1;
        }
        false
    }

    /// Copies of the listeners of `event_type` for `node_id` in the given phase,
    /// in the order they were added.
    pub fn get_listeners(&self, node_id: u64, event_type: &str, capture: bool) -> (r: Vec<EventListenerHandle>)
        ensures
            match group_index(self.group_seq(), node_id, event_type@) {
                Some(g) => handles_copied(
                    r@,
                    with_phase(self.group_seq()[g].handles@, capture, self.group_seq()[g].handles@.len() as int),
                ),
                None => r@.len() == 0,
            },
    {
        let mut out: Vec<EventListenerHandle> = Vec::new();
        match self.find_group(node_id, event_type) {
            Some(g) => {
                let hs = &self.groups[g].handles;
                let mut i: usize = 0;
                while i < hs.len()
                    invariant
                        i <= hs@.len(),
                        handles_copied(out@, with_phase(hs@, capture, i as int)),
                    decreases hs@.len() - i,
                {
                    if hs[i].capture == capture {
                        let h = hs[i].copy();
                        out.push(h);
                    }
                    i = i + 1;
                    proof {
                        let w = with_phase(hs@, capture, i as int);
                        assert forall|j: int| 0 <= j < out@.len() implies handle_is(#[trigger] out@[j], w[j].id, w[j].event_type@, w[j].capture) by {
                            if j < with_phase(hs@, capture, i - 1).len() {
                                assert(w[j] == with_phase(hs@, capture, i - 1)[j]);
                            }
                        }
                    }
                }
            },
            None => {},
        }
        out
    }

    /// Whether node `node_id` has had listeners of `event_type` registered.
    pub fn has_listeners(&self, node_id: u64, event_type: &str) -> (r: bool)
        ensures
            r == group_index(self.group_seq(), node_id, event_type@) is Some,
    {
        self.find_group(node_id, event_type).is_some()
    }
}

/// A listener just added is found first among the listeners of its node
/// with that identifier, when the identifier is new.
pub proof fn lemma_added_listener_found(
    o: Seq<ListenerGroup>,
    n: Seq<ListenerGroup>,
    node_id: u64,
    t: Seq<char>,
    capture: bool,
    id: u64,
)
    requires
        add_result(o, n, node_id, t, capture, id),
        forall|i: int, j: int| 0 <= i < o.len() && 0 <= j < o[i].handles@.len() ==> #[trigger] o[i].handles@[j].id != id,
    ensures
        first_hit(n, node_id, id, 0) matches Some((g, p)) && n[g].node_id == node_id && n[g].event_type@ == t
            && p == n[g].handles@.len() - 1,
{
    let g = match group_index(o, node_id, t) {
        Some(g) => g,
        None => o.len() as int,
    };
    assert forall|j: int| 0 <= j < n[g].handles@.len() - 1 implies #[trigger] n[g].handles@[j].id != id by {
        if g < o.len() {
            assert(n[g].handles@[j] == n[g].handles@.drop_last()[j]);
        }
    }
    lemma_find_pos_last(n[g].handles@, id, 0);
    lemma_first_hit_before(o, n, node_id, id, g, 0);
}

/// The last handle is found when no earlier one has the identifier.
proof fn lemma_find_pos_last(hs: Seq<EventListenerHandle>, id: u64, j: int)
    requires
        hs.len() > 0,
        0 <= j < hs.len(),
        hs.last().id == id,
        forall|k: int| 0 <= k < hs.len() - 1 ==> #[trigger] hs[k].id != id,
    ensures
        find_pos(hs, id, j) == Some(hs.len() - 1),
    decreases hs.len() - j,
{
    if j < hs.len() - 1 {
        lemma_find_pos_last(hs, id, j + 1);
    }
}

/// Groups before `g` hold no listener `id`, so the first hit is at `g`.
proof fn lemma_first_hit_before(o: Seq<ListenerGroup>, n: Seq<ListenerGroup>, node_id: u64, id: u64, g: int, k: int)
    requires
        0 <= k <= g < n.len(),
        n[g].node_id == node_id,
        find_pos(n[g].handles@, id, 0) is Some,
        forall|i: int| 0 <= i < g ==> n[i] == o[i],
        g <= o.len(),
        forall|i: int, j: int| 0 <= i < o.len() && 0 <= j < o[i].handles@.len() ==> #[trigger] o[i].handles@[j].id != id,
    ensures
        first_hit(n, node_id, id, k) == Some((g, find_pos(n[g].handles@, id, 0)->0)),
    decreases g - k,
{
    if k < g {
        lemma_find_pos_none(n[k].handles@, id, 0);
        lemma_first_hit_before(o, n, node_id, id, g, k + 1);
    }
}

/// A list without the identifier has no position for it.
proof fn lemma_find_pos_none(hs: Seq<EventListenerHandle>, id: u64, j: int)
    requires
        0 <= j,
        forall|k: int| 0 <= k < hs.len() ==> #[trigger] hs[k].id != id,
    ensures
        find_pos(hs, id, j) is None,
    decreases hs.len() - j,
{
    if j < hs.len() {
        lemma_find_pos_none(hs, id, j + 1);
    }
}

} // verus!
