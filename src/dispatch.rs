use vstd::prelude::*;
use crate::event::{Event, Membership, Room, RoomState};

verus! {

/// Which handler entry point a delivery invokes.
#[derive(Clone, Debug)]
pub enum Call {
    /// `onMembershipChange`: a membership change whose target is the bot itself.
    MembershipChange { change: Membership },
    /// `onRoomMessage`: the plain-text body, empty when the message has none.
    RoomMessage { text: String },
}

/// One invocation of one handler for one event of a batch.
#[derive(Clone, Debug)]
pub struct Delivery {
    /// Position of the handler in the registry.
    pub handler: usize,
    /// Position of the event in the batch.
    pub event: usize,
    pub room: Room,
    pub call: Call,
}

/// Whether handlers see the event at all: messages only in joined rooms,
/// membership changes only when they target the bot's own identity.
pub open spec fn forwarded(own_id: Seq<char>, e: Event) -> bool {
    match e {
        Event::Message { room, .. } => room.state == RoomState::Joined,
        Event::Member { target, .. } => target@ == own_id,
    }
}

/// The text a message handler receives for an optional plain-text body.
pub open spec fn text_of(body: Option<String>) -> Seq<char> {
    match body {
        Some(b) => b@,
        None => Seq::empty(),
    }
}

/// The call that event `e` gives rise to.
pub open spec fn call_fits(c: Call, e: Event) -> bool {
    match (c, e) {
        (Call::MembershipChange { change }, Event::Member { change: ec, .. }) => change == ec,
        (Call::RoomMessage { text }, Event::Message { body, .. }) => text@ == text_of(body),
        _ => false,
    }
}

/// The (handler, event) pairs of a batch: events in server order and, for each
/// forwarded event, every handler in registration order.
pub open spec fn routed(own_id: Seq<char>, events: Seq<Event>, n: nat) -> Seq<(nat, nat)>
    decreases events.len(),
{
    if events.len() == 0 {
        Seq::empty()
    } else {
        let k = (events.len() - 1) as nat;
        let before = routed(own_id, events.drop_last(), n);
        if forwarded(own_id, events.last()) {
            before + Seq::new(n, |h: int| (h as nat, k))
        } else {
            before
        }
    }
}

/// The (handler, event) pair of each delivery.
pub open spec fn pairs_of(ds: Seq<Delivery>) -> Seq<(nat, nat)> {
    ds.map_values(|d: Delivery| (d.handler as nat, d.event as nat))
}

/// Each delivery carries the room and the call of the event it stands for.
pub open spec fn deliveries_fit(ds: Seq<Delivery>, events: Seq<Event>) -> bool {
    forall|i: int|
        0 <= i < ds.len() ==> {
            &&& (#[trigger] ds[i]).event < events.len()
            &&& ds[i].room == events[ds[i].event as int].room_of()
            &&& call_fits(ds[i].call, events[ds[i].event as int])
        }
}

/// Whether handlers see `e`.
pub fn is_forwarded(own_id: &str, e: &Event) -> (r: bool)
    ensures
        r == forwarded(own_id@, *e),
{
    match e {
        Event::Message { room, .. } => room.state == RoomState::Joined,
        Event::Member { target, .. } => string_eq(target.as_str(), own_id),
    }
}

/// Character-wise equality of two strings.
pub fn string_eq(a: &str, b: &str) -> (r: bool)
    ensures
        r == (a@ == b@),
{
    let n = a.unicode_len();
    if n != b.unicode_len() {
        return false;
    }
    let mut i: usize = 0;
    while i < n
        invariant
            n == a@.len(),
            n == b@.len(),
            i <= n,
            forall|j: int| 0 <= j < i ==> a@[j] == b@[j],
        decreases n - i,
    {
        if a.get_char(i) != b.get_char(i) {
            return false;
        }
        i = i + 1;
    }
    assert(a@ =~= b@);
    true
}

fn call_for(e: &Event) -> (r: Call)
    ensures
        call_fits(r, *e),
{
    match e {
        Event::Message { body, .. } => {
            let text = match body {
                Some(b) => b.clone(),
                None => String::new(),
            };
            Call::RoomMessage { text }
        },
        Event::Member { change, .. } => Call::MembershipChange { change: *change },
    }
}

/// Fans a batch of events out to `n_handlers` handlers: one delivery per
/// forwarded event and handler, events in server order, handlers in
/// registration order.
pub fn route(own_id: &str, events: &Vec<Event>, n_handlers: usize) -> (r: Vec<Delivery>)
    ensures
        pairs_of(r@) == routed(own_id@, events@, n_handlers as nat),
        r@.len() == routed(own_id@, events@, n_handlers as nat).len(),
        deliveries_fit(r@, events@),
{
    let mut out: Vec<Delivery> = Vec::new();
    let mut k: usize = 0;
    while k < events.len()
        invariant
            k <= events@.len(),
            pairs_of(out@) == routed(own_id@, events@.subrange(0, k as int), n_handlers as nat),
            deliveries_fit(out@, events@),
        decreases events@.len() - k,
    {
        let e = &events[k];
        let ghost before = out@;
        proof {
            assert(events@.subrange(0, k + 1).drop_last() =~= events@.subrange(0, k as int));
        }
        if is_forwarded(own_id, e) {
            let mut h: usize = 0;
            while h < n_handlers
                invariant
                    k < events@.len(),
                    *e == events@[k as int],
                    h <= n_handlers,
                    pairs_of(out@) == pairs_of(before) + Seq::new(h as nat, |j: int| (j as nat, k as nat)),
                    deliveries_fit(out@, events@),
                decreases n_handlers - h,
            {
                let d = Delivery { handler: h, event: k, room: e.room().duplicate(), call: call_for(e) };
                let ghost prev = out@;
                out.push(d);
                proof {
                    assert(pairs_of(out@) =~= pairs_of(prev).push((h as nat, k as nat)));
                    assert(Seq::new((h + 1) as nat, |j: int| (j as nat, k as nat)) =~= Seq::new(
                        h as nat,
                        |j: int| (j as nat, k as nat),
                    ).push((h as nat, k as nat)));
                    assert(pairs_of(out@) =~= pairs_of(before) + Seq::new(
                        (h + 1) as nat,
                        |j: int| (j as nat, k as nat),
                    ));
                }
                h = h + 1;
            }
        }
        k = k + 1;
    }
    proof {
        assert(events@.subrange(0, events@.len() as int) =~= events@);
        assert(pairs_of(out@).len() == out@.len());
    }
    out
}

/// A membership change that does not target the bot's own identity is never
/// handed to any handler.
pub proof fn lemma_foreign_membership_not_forwarded(own_id: Seq<char>, events: Seq<Event>, n: nat, i: int)
    requires
        0 <= i < routed(own_id, events, n).len(),
    ensures
        ({
            let e = events[routed(own_id, events, n)[i].1 as int];
            &&& routed(own_id, events, n)[i].1 < events.len()
            &&& forwarded(own_id, e)
            &&& (e matches Event::Member { target, .. } ==> target@ == own_id)
        }),
    decreases events.len(),
{
    if events.len() > 0 {
        let before = routed(own_id, events.drop_last(), n);
        if i < before.len() {
            lemma_foreign_membership_not_forwarded(own_id, events.drop_last(), n, i);
        }
    }
}

} // verus!
