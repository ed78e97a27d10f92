use vstd::prelude::*;

verus! {

/// Seconds to wait after the first failed join.
pub const INITIAL_DELAY: u64 = 2;

/// Once the delay has grown past this many seconds the controller gives up.
pub const MAX_DELAY: u64 = 3600;

/// Where one invitation's join-retry state machine stands.
#[derive(PartialEq, Eq, Structural, Clone, Copy, Debug)]
pub enum JoinState {
    /// A join attempt is due; `delay` is the wait that follows if it fails.
    Attempting { delay: u64 },
    Joined,
    GaveUp,
}

/// The join-retry controller of one room.
#[derive(Debug)]
pub struct JoinRetry {
    pub room_id: String,
    pub state: JoinState,
}

/// The transition taken on the outcome of one join attempt: the next state,
/// and the seconds to wait before going on (on a failure).
pub open spec fn next_join(s: JoinState, joined: bool) -> (JoinState, Option<u64>) {
    match s {
        JoinState::Attempting { delay } => {
            if joined {
                (JoinState::Joined, None)
            } else {
                let doubled = 2 * delay;
                if doubled > MAX_DELAY {
                    (JoinState::GaveUp, Some(delay))
                } else {
                    (JoinState::Attempting { delay: doubled as u64 }, Some(delay))
                }
            }
        },
        _ => (s, None),
    }
}

impl JoinState {
    pub open spec fn wf(self) -> bool {
        self matches JoinState::Attempting { delay } ==> INITIAL_DELAY <= delay <= MAX_DELAY
    }
}

impl JoinRetry {
    pub open spec fn wf(&self) -> bool {
        self.state.wf()
    }

    /// A controller for `room_id` whose first attempt is due.
    pub fn new(room_id: String) -> (r: JoinRetry)
        ensures
            r.room_id == room_id,
            r.state == (JoinState::Attempting { delay: INITIAL_DELAY }),
            r.wf(),
    {
        JoinRetry { room_id, state: JoinState::Attempting { delay: INITIAL_DELAY } }
    }

    /// Whether the controller's state is well formed.
    pub fn wf_holds(&self) -> (r: bool)
        ensures
            r == self.wf(),
    {
        match self.state {
            JoinState::Attempting { delay } => INITIAL_DELAY <= delay && delay <= MAX_DELAY,
            _ => true,
        }
    }

    /// Whether another join attempt is due.
    pub fn is_attempting(&self) -> (r: bool)
        ensures
            r == (self.state matches JoinState::Attempting { .. }),
    {
        matches!(self.state, JoinState::Attempting { .. })
    }

    /// Records the outcome of a join attempt. On a failure, returns the seconds
    /// to wait; after that wait a new attempt is due only if the controller is
    /// still attempting.
    pub fn on_attempt(&mut self, joined: bool) -> (r: Option<u64>)
        requires
            old(self).wf(),
        ensures
            final(self).wf(),
            final(self).room_id == old(self).room_id,
            (final(self).state, r) == next_join(old(self).state, joined),
    {
        match self.state {
            JoinState::Attempting { delay } => {
                if joined {
                    self.state = JoinState::Joined;
                    None
                } else {
                    let doubled = 2 * delay;
                    if doubled > MAX_DELAY {
                        self.state = JoinState::GaveUp;
                    } else {
                        self.state = JoinState::Attempting { delay: doubled };
                    }
                    Some(delay)
                }
            },
            _ => None,
        }
    }
}

/// The wait after the `i`-th consecutive failure, counting from zero.
pub open spec fn backoff_delay(i: nat) -> nat
    decreases i,
{
    if i == 0 {
        INITIAL_DELAY as nat
    } else {
        2 * backoff_delay((i - 1) as nat)
    }
}

/// The state after `n` failed attempts from `s`.
pub open spec fn after_failures(s: JoinState, n: nat) -> JoinState
    decreases n,
{
    if n == 0 {
        s
    } else {
        next_join(after_failures(s, (n - 1) as nat), false).0
    }
}

/// The waits recorded over `n` failed attempts from `s`.
pub open spec fn failure_waits(s: JoinState, n: nat) -> Seq<u64>
    decreases n,
{
    if n == 0 {
        Seq::empty()
    } else {
        let before = failure_waits(s, (n - 1) as nat);
        match next_join(after_failures(s, (n - 1) as nat), false).1 {
            Some(d) => before.push(d),
            None => before,
        }
    }
}

/// Against a join that always fails, the waits are 2, 4, 8, ... doubling; the
/// eleventh wait (2048 s) doubles past the ceiling, after which the controller
/// has given up and makes no further attempt, whatever it is told.
pub proof fn lemma_join_backoff(n: nat)
    ensures
        failure_waits(JoinState::Attempting { delay: INITIAL_DELAY }, n).len() == if n <= 11 {
            n
        } else {
            11
        },
        forall|i: int|
            0 <= i < failure_waits(JoinState::Attempting { delay: INITIAL_DELAY }, n).len()
                ==> failure_waits(JoinState::Attempting { delay: INITIAL_DELAY }, n)[i]
                == backoff_delay(i as nat),
        n < 11 ==> after_failures(JoinState::Attempting { delay: INITIAL_DELAY }, n)
            == (JoinState::Attempting { delay: backoff_delay(n) as u64 }),
        n >= 11 ==> after_failures(JoinState::Attempting { delay: INITIAL_DELAY }, n)
            == JoinState::GaveUp,
        backoff_delay(10) <= MAX_DELAY < 2 * backoff_delay(10),
    decreases n,
{
    reveal_with_fuel(backoff_delay, 11);
    if n > 0 {
        lemma_join_backoff((n - 1) as nat);
        lemma_backoff_delay_grows((n - 1) as nat);
    }
}

proof fn lemma_backoff_delay_grows(i: nat)
    ensures
        i < 11 ==> backoff_delay(i) <= backoff_delay(10),
    decreases 10 - i,
{
    if i < 10 {
        lemma_backoff_delay_grows(i + 1);
        assert(backoff_delay(i + 1) == 2 * backoff_delay(i));
    }
}

/// Once given up or joined, no outcome moves the controller again.
pub proof fn lemma_join_final(s: JoinState, joined: bool)
    requires
        s == JoinState::GaveUp || s == JoinState::Joined,
    ensures
        next_join(s, joined) == (s, None::<u64>),
{
}

/// The rooms whose join-retry task is live; at most one task per room.
#[derive(Debug)]
pub struct JoinTasks {
    pub rooms: Vec<String>,
}

/// The identifiers of `rooms`, as character sequences.
pub open spec fn room_ids(rooms: Seq<String>) -> Seq<Seq<char>> {
    rooms.map_values(|r: String| r@)
}

impl JoinTasks {
    /// Whether no room is listed twice.
    pub open spec fn wf(&self) -> bool {
        room_ids(self.rooms@).no_duplicates()
    }

    pub fn new() -> (r: JoinTasks)
        ensures
            r.rooms@.len() == 0,
            r.wf(),
    {
        JoinTasks { rooms: Vec::new() }
    }

    /// Position of `room_id` in the list, if it is there.
    fn position(&self, room_id: &str) -> (r: Option<usize>)
        ensures
            r matches Some(i) ==> i < self.rooms@.len() && self.rooms@[i as int]@ == room_id@,
            r is None ==> !room_ids(self.rooms@).contains(room_id@),
    {
        let mut i: usize = 0;
        while i < self.rooms.len()
            invariant
                i <= self.rooms@.len(),
                forall|j: int| 0 <= j < i ==> self.rooms@[j]@ != room_id@,
            decreases self.rooms@.len() - i,
        {
            if crate::dispatch::string_eq(self.rooms[i].as_str(), room_id) {
                return Some(i);
            }
            i = i + 1;
        }
        proof {
            if room_ids(self.rooms@).contains(room_id@) {
                let j = choose|j: int| 0 <= j < room_ids(self.rooms@).len() && room_ids(self.rooms@)[j] == room_id@;
                assert(self.rooms@[j]@ == room_id@);
            }
        }
        None
    }

    /// Starts a task for `room_id` unless one is live; says whether it started one.
    pub fn claim(&mut self, room_id: &str) -> (r: bool)
        ensures
            old(self).wf() ==> final(self).wf(),
            r == !room_ids(old(self).rooms@).contains(room_id@),
            r ==> room_ids(final(self).rooms@) == room_ids(old(self).rooms@).push(room_id@),
            !r ==> final(self).rooms@ == old(self).rooms@,
    {
        match self.position(room_id) {
            Some(i) => {
                assert(room_ids(self.rooms@)[i as int] == room_id@);
                false
            },
            None => {
                let ghost before = self.rooms@;
                self.rooms.push(room_id.to_owned());
                proof {
                    assert(room_ids(self.rooms@) =~= room_ids(before).push(room_id@));
                    let ids = room_ids(self.rooms@);
                    if room_ids(before).no_duplicates() {
                        assert forall|a: int, b: int| 0 <= a < ids.len() && 0 <= b < ids.len() && a != b
                            implies ids[a] != ids[b] by {
                            if a < before.len() && b < before.len() {
                                assert(ids[a] == room_ids(before)[a]);
                                assert(ids[b] == room_ids(before)[b]);
                            } else if a < before.len() {
                                assert(room_ids(before)[a] == ids[a]);
                            } else {
                                assert(room_ids(before)[b] == ids[b]);
                            }
                        }
                    }
                }
                true
            },
        }
    }

    /// Ends the task for `room_id`, if one is live.
    pub fn release(&mut self, room_id: &str)
        ensures
            old(self).wf() ==> final(self).wf(),
            old(self).wf() ==> !room_ids(final(self).rooms@).contains(room_id@),
            forall|x: Seq<char>| x != room_id@ ==> (room_ids(final(self).rooms@).contains(x)
                <==> room_ids(old(self).rooms@).contains(x)),
    {
        match self.position(room_id) {
            None => {},
            Some(i) => {
                let ghost before = self.rooms@;
                self.rooms.remove(i);
                proof {
                    let ids = room_ids(self.rooms@);
                    let old_ids = room_ids(before);
                    assert(ids =~= old_ids.remove(i as int));
                    assert forall|x: Seq<char>| x != room_id@ implies (ids.contains(x) <==> old_ids.contains(x)) by {
                        if old_ids.contains(x) {
                            let j = choose|j: int| 0 <= j < old_ids.len() && old_ids[j] == x;
                            if j < i {
                                assert(ids[j] == x);
                            } else {
                                assert(ids[j - 1] == x);
                            }
                        }
                        if ids.contains(x) {
                            let j = choose|j: int| 0 <= j < ids.len() && ids[j] == x;
                            if j < i {
                                assert(old_ids[j] == x);
                            } else {
                                assert(old_ids[j + 1] == x);
                            }
                        }
                    }
                    if ids.contains(room_id@) {
                        let j = choose|j: int| 0 <= j < ids.len() && ids[j] == room_id@;
                        if j < i {
                            assert(old_ids[j] == room_id@);
                        } else {
                            assert(old_ids[j + 1] == room_id@);
                        }
                        assert(old_ids[i as int] == room_id@);
                    }
                }
            },
        }
    }
}

} // verus!
