use vstd::prelude::*;
use vstd::string::StrSliceExecFns;
use crate::backoff::{JoinRetry, JoinState, INITIAL_DELAY};
use crate::bacronym::{bacronym, build_word_map, is_bacronym, random_letter, word_map_of_list, WordMap};
use crate::dispatch::{string_eq, Call, Delivery};
use crate::event::{Membership, Room, RoomState};

verus! {

#[verifier::external_type_specification]
#[verifier::external_body]
pub struct ExRegexError(regex::Error);

/// The command that asks for a backronym, with an optional word of up to fifty
/// letters and spaces.
pub const BACRONYM_PATTERN: &'static str = "^\\.(bacronym|b)\\s*(?P<acronym>[a-zA-Z ]{1,50})?$";

/// The capture group that holds the backronym's word.
pub const ACRONYM_GROUP: &'static str = "acronym";

/// The command that starts a party.
pub const PARTY_COMMAND: &'static str = ".party";

/// The reply to the party command.
pub const PARTY_REPLY: &'static str = "🎉🎊🥳 let's PARTY!! 🥳🎊🎉";

/// The command that asks for a number of woops.
pub const WOOP_COMMAND: &'static str = ".woop";

/// Whether `pattern` is a regular expression that `regex` accepts.
pub uninterp spec fn valid_regex(pattern: Seq<char>) -> bool;

/// What matching `text` against `pattern` yields for capture group `group`:
/// `None` where it does not match; else the group's text, if it took part.
pub uninterp spec fn captures_of(pattern: Seq<char>, text: Seq<char>, group: Seq<char>) -> Option<
    Option<Seq<char>>,
>;

/// The character sequences of a capture result.
pub open spec fn capture_view(r: Option<Option<String>>) -> Option<Option<Seq<char>>> {
    match r {
        None => None,
        Some(None) => Some(None),
        Some(Some(g)) => Some(Some(g@)),
    }
}

/// Relies on `regex::Regex::new`, which fails exactly on patterns it does not
/// accept, and on `regex::Regex::captures` with `regex::Captures::name`, whose
/// result depends on the pattern, the text and the group alone.
#[verifier::external_body]
fn capture_group(pattern: &str, text: &str, group: &str) -> (r: Result<Option<Option<String>>, regex::Error>)
    ensures
        r is Ok <==> valid_regex(pattern@),
        r matches Ok(c) ==> capture_view(c) == captures_of(pattern@, text@, group@),
{
    let re = regex::Regex::new(pattern)?;
    Ok(re.captures(text).map(|c| c.name(group).map(|m| m.as_str().to_string())))
}

/// The lower-case form of `s` in Unicode's sense.
pub uninterp spec fn lower_of(s: Seq<char>) -> Seq<char>;

/// Relies on `str::to_lowercase`: Unicode lower-casing, which depends on the
/// characters alone.
#[verifier::external_body]
fn to_lowercase(s: &str) -> (r: String)
    ensures
        r@ == lower_of(s@),
{
    s.to_lowercase()
}

/// Unicode's `White_Space` property, which `char::is_whitespace` and
/// `str::trim` go by.
pub open spec fn white_space(c: char) -> bool {
    ('\u{9}' <= c <= '\u{d}') || c == ' ' || c == '\u{85}' || c == '\u{a0}' || c == '\u{1680}'
        || ('\u{2000}' <= c <= '\u{200a}') || c == '\u{2028}' || c == '\u{2029}' || c
        == '\u{202f}' || c == '\u{205f}' || c == '\u{3000}'
}

/// Whether nothing is left of `s` once surrounding white space is trimmed.
pub open spec fn blank(s: Seq<char>) -> bool {
    forall|i: int| 0 <= i < s.len() ==> white_space(#[trigger] s[i])
}

/// Whether `c` is white space.
pub fn is_white_space(c: char) -> (r: bool)
    ensures
        r == white_space(c),
{
    ('\u{9}' <= c && c <= '\u{d}') || c == ' ' || c == '\u{85}' || c == '\u{a0}' || c
        == '\u{1680}' || ('\u{2000}' <= c && c <= '\u{200a}') || c == '\u{2028}' || c
        == '\u{2029}' || c == '\u{202f}' || c == '\u{205f}' || c == '\u{3000}'
}

/// Whether `s` is empty after trimming white space.
pub fn is_blank(s: &str) -> (r: bool)
    ensures
        r == blank(s@),
{
    let n = s.unicode_len();
    let mut i: usize = 0;
    while i < n
        invariant
            n == s@.len(),
            i <= n,
            forall|j: int| 0 <= j < i ==> white_space(#[trigger] s@[j]),
        decreases n - i,
    {
        if !is_white_space(s.get_char(i)) {
            return false;
        }
        i = i + 1;
    }
    true
}

/// What a handler asks the driver to do.
#[derive(Debug)]
pub enum Reaction {
    /// Send `text` into room `room_id`.
    Send { room_id: String, text: String },
    /// Run this join-retry controller as a task of its own.
    Join(JoinRetry),
    /// Reply into `room` with as many woops as `argument` asks for.
    Woop { room: Room, argument: String },
}

/// A handler that could not do its work; the failure stays with that handler.
#[derive(PartialEq, Eq, Structural, Clone, Copy, Debug)]
pub enum HandlerError {
    /// The handler was not set up completely.
    Unavailable,
}

/// The outcome of one handler invocation.
pub type Outcome = Result<Option<Reaction>, HandlerError>;

/// Whether reaction `x` concerns `room` and no other.
pub open spec fn reaction_in(x: Reaction, room: Room) -> bool {
    match x {
        Reaction::Send { room_id, .. } => room_id == room.room_id,
        Reaction::Join(j) => j.room_id == room.room_id,
        Reaction::Woop { room: r, .. } => r == room,
    }
}

/// A handler: a capability set whose entry points default to doing nothing.
/// Whatever a handler does concerns the room of the event it was handed.
pub trait Plugin {
    /// A membership change that targets the bot itself, in `room`.
    fn membership_change(&self, room: &Room, change: Membership) -> (r: Outcome)
        ensures
            r matches Ok(Some(x)) ==> reaction_in(x, *room),
    {
        Ok(None)
    }

    /// A message in `room`, which the bot has joined; `msg_body` is its
    /// plain-text body, empty when it has none.
    fn room_message(&self, room: &Room, msg_body: &str) -> (r: Outcome)
        ensures
            r matches Ok(Some(x)) ==> reaction_in(x, *room),
    {
        Ok(None)
    }
}

/// Whether `r` is what replying `text` into `room` gives: a message into the
/// room if the bot has joined it and `text` is not blank, else nothing.
pub open spec fn replies(r: Option<Reaction>, room: Room, text: Seq<char>) -> bool {
    if room.state == RoomState::Joined && !blank(text) {
        r matches Some(Reaction::Send { room_id, text: t }) && room_id == room.room_id && t@ == text
    } else {
        r is None
    }
}

/// Sends `text` into `room`, if the bot has joined it and `text` is not blank.
pub fn reply(room: &Room, text: String) -> (r: Option<Reaction>)
    ensures
        replies(r, *room, text@),
{
    if room.state == RoomState::Joined && !is_blank(text.as_str()) {
        Some(Reaction::Send { room_id: room.room_id.clone(), text })
    } else {
        None
    }
}

/// Joins rooms the bot is invited to, retrying with capped exponential backoff.
#[derive(Debug)]
pub struct AutoJoinPlugin {}

impl Plugin for AutoJoinPlugin {
    /// On an invitation to a room the bot is invited to, a join-retry
    /// controller for that room whose first attempt is due.
    fn membership_change(&self, room: &Room, change: Membership) -> (r: Outcome)
        ensures
            r matches Ok(x) && autojoin_reaction(*room, change, x),
    {
        if change == Membership::Invite && room.state == RoomState::Invited {
            Ok(Some(Reaction::Join(JoinRetry::new(room.room_id.clone()))))
        } else {
            Ok(None)
        }
    }
}

/// Replies to `.party` with a party.
#[derive(Debug)]
pub struct PartyPlugin {}

impl Plugin for PartyPlugin {
    fn room_message(&self, room: &Room, msg_body: &str) -> (r: Outcome)
        ensures
            r matches Ok(x) && party_reaction(*room, msg_body@, x),
    {
        if string_eq(msg_body, PARTY_COMMAND) {
            Ok(reply(room, PARTY_REPLY.to_owned()))
        } else {
            Ok(None)
        }
    }
}

/// Whether `s` begins with `prefix`.
pub open spec fn has_prefix(s: Seq<char>, prefix: Seq<char>) -> bool {
    prefix.len() <= s.len() && s.subrange(0, prefix.len() as int) == prefix
}

/// The text after `prefix`, if `s` begins with it.
pub fn strip_prefix(s: &str, prefix: &str) -> (r: Option<String>)
    ensures
        has_prefix(s@, prefix@) ==> (r matches Some(rest) && rest@ == s@.subrange(
            prefix@.len() as int,
            s@.len() as int,
        )),
        !has_prefix(s@, prefix@) ==> r is None,
{
    let n = s.unicode_len();
    let m = prefix.unicode_len();
    if m > n {
        return None;
    }
    let head = s.substring_char(0, m);
    if string_eq(head, prefix) {
        Some(s.substring_char(m, n).to_owned())
    } else {
        None
    }
}

/// Whether `r` is the woop handler's reaction to `msg` in `room`.
pub open spec fn woop_reaction(room: Room, msg: Seq<char>, r: Option<Reaction>) -> bool {
    if has_prefix(msg, WOOP_COMMAND@) {
        r matches Some(Reaction::Woop { room: rr, argument }) && rr == room && argument@
            == msg.subrange(WOOP_COMMAND@.len() as int, msg.len() as int)
    } else {
        r is None
    }
}

/// Replies to `.woop` with woops; the count of woops is read from the rest of
/// the message by the driver.
#[derive(Debug)]
pub struct WoopPlugin {}

impl Plugin for WoopPlugin {
    fn room_message(&self, room: &Room, msg_body: &str) -> (r: Outcome)
        ensures
            r matches Ok(x) && woop_reaction(*room, msg_body@, x),
    {
        proof {
            reveal_strlit(".woop");
        }
        match strip_prefix(msg_body, WOOP_COMMAND) {
            Some(argument) => Ok(Some(Reaction::Woop { room: room.duplicate(), argument })),
            None => Ok(None),
        }
    }
}

/// Whether `r` replies into `room` with a backronym of `acronym` from `m`.
pub open spec fn bacronym_reply(m: Map<u32, Vec<String>>, room: Room, acronym: Seq<char>, r: Option<Reaction>) -> bool {
    exists|t: Seq<char>| is_bacronym(m, lower_of(acronym), t) && replies(r, room, t)
}

/// Replies to `.bacronym WORD` or `.b WORD` with a backronym of the word, or
/// of a random letter when no word is given.
#[derive(Debug)]
pub struct BacronymPlugin {
    pub words: WordMap,
    /// The source of the command pattern.
    pub pattern: String,
}

impl BacronymPlugin {
    /// A handler with the built-in word list and the backronym command pattern.
    pub fn new() -> (r: BacronymPlugin)
        ensures
            r.pattern@ == BACRONYM_PATTERN@,
            word_map_of_list(r.words@),
    {
        BacronymPlugin { words: build_word_map(), pattern: BACRONYM_PATTERN.to_owned() }
    }

    /// `None` where `msg_body` is no backronym command, or the pattern is not
    /// valid; else the word it gives, if any.
    pub fn extract_acronym(&self, msg_body: &str) -> (r: Option<Option<String>>)
        ensures
            valid_regex(self.pattern@) ==> capture_view(r) == captures_of(
                self.pattern@,
                msg_body@,
                ACRONYM_GROUP@,
            ),
            !valid_regex(self.pattern@) ==> r is None,
    {
        match capture_group(self.pattern.as_str(), msg_body, ACRONYM_GROUP) {
            Ok(c) => c,
            Err(_) => None,
        }
    }

    /// The reply to a backronym command whose word is `acronym`, or a random
    /// letter from `a` to `y` when it has none.
    pub fn respond(&self, room: &Room, acronym: Option<String>) -> (r: Option<Reaction>)
        ensures
            acronym matches Some(a) ==> bacronym_reply(self.words@, *room, a@, r),
            acronym is None ==> exists|c: char|
                'a' <= c < 'z' && bacronym_reply(self.words@, *room, seq![c], r),
            r matches Some(x) ==> x is Send && reaction_in(x, *room) && room.state == RoomState::Joined,
    {
        let word = match acronym {
            Some(a) => a,
            None => random_letter(),
        };
        let lower = to_lowercase(word.as_str());
        let text = bacronym(&self.words, lower.as_str());
        let r = reply(room, text);
        assert(is_bacronym(self.words@, lower_of(word@), text@) && replies(r, *room, text@));
        proof {
            if acronym is None {
                assert(word@ =~= seq![word@[0]]);
            }
        }
        r
    }
}

/// Whether `r` is the backronym handler's outcome for message `msg` in `room`.
pub open spec fn bacronym_outcome(h: BacronymPlugin, room: Room, msg: Seq<char>, r: Outcome) -> bool {
    if !valid_regex(h.pattern@) {
        r == Err::<Option<Reaction>, HandlerError>(HandlerError::Unavailable)
    } else {
        match captures_of(h.pattern@, msg, ACRONYM_GROUP@) {
            None => r == Ok::<Option<Reaction>, HandlerError>(None),
            Some(Some(a)) => r matches Ok(x) && bacronym_reply(h.words@, room, a, x),
            Some(None) => r matches Ok(x) && exists|c: char|
                'a' <= c < 'z' && bacronym_reply(h.words@, room, seq![c], x),
        }
    }
}

impl Plugin for BacronymPlugin {
    fn room_message(&self, room: &Room, msg_body: &str) -> (r: Outcome)
        ensures
            bacronym_outcome(*self, *room, msg_body@, r),
            r matches Ok(Some(x)) ==> x is Send && room.state == RoomState::Joined,
    {
        match capture_group(self.pattern.as_str(), msg_body, ACRONYM_GROUP) {
            Err(_) => Err(HandlerError::Unavailable),
            Ok(None) => Ok(None),
            Ok(Some(acronym)) => Ok(self.respond(room, acronym)),
        }
    }
}

/// Whether `r` is the autojoin handler's reaction to `change` in `room`.
pub open spec fn autojoin_reaction(room: Room, change: Membership, r: Option<Reaction>) -> bool {
    if change == Membership::Invite && room.state == RoomState::Invited {
        r matches Some(Reaction::Join(j)) && j.room_id == room.room_id && j.state == (JoinState::Attempting {
            delay: INITIAL_DELAY,
        }) && j.wf()
    } else {
        r is None
    }
}

/// Whether `r` is the party handler's reaction to `msg` in `room`.
pub open spec fn party_reaction(room: Room, msg: Seq<char>, r: Option<Reaction>) -> bool {
    if msg == PARTY_COMMAND@ {
        replies(r, room, PARTY_REPLY@)
    } else {
        r is None
    }
}

/// Number of handlers in the registry.
pub const HANDLER_COUNT: usize = 4;

/// The registry of handlers, in registration order: autojoin, bacronym, party, woop.
#[derive(Debug)]
pub struct EventForwarder {
    pub autojoin: AutoJoinPlugin,
    pub bacronym: BacronymPlugin,
    pub party: PartyPlugin,
    pub woop: WoopPlugin,
}

impl EventForwarder {
    /// Whether `r` is what handler `d.handler` does with delivery `d`.
    pub open spec fn handled(&self, d: Delivery, r: Outcome) -> bool {
        match d.call {
            Call::MembershipChange { change } => if d.handler == 0 {
                r matches Ok(x) && autojoin_reaction(d.room, change, x)
            } else {
                r == Ok::<Option<Reaction>, HandlerError>(None)
            },
            Call::RoomMessage { text } => if d.handler == 1 {
                bacronym_outcome(self.bacronym, d.room, text@, r)
            } else if d.handler == 2 {
                r matches Ok(x) && party_reaction(d.room, text@, x)
            } else if d.handler == 3 {
                r matches Ok(x) && woop_reaction(d.room, text@, x)
            } else {
                r == Ok::<Option<Reaction>, HandlerError>(None)
            },
        }
    }

    /// The registry, built once the catch-up is done: the autojoin, backronym,
    /// party and woop handlers, in that order, the backronym handler as
    /// `BacronymPlugin::new` gives it.
    pub fn new() -> (r: EventForwarder)
        ensures
            r.bacronym.pattern@ == BACRONYM_PATTERN@,
            word_map_of_list(r.bacronym.words@),
    {
        EventForwarder {
            autojoin: AutoJoinPlugin {},
            bacronym: BacronymPlugin::new(),
            party: PartyPlugin {},
            woop: WoopPlugin {},
        }
    }

    /// Runs one delivery through its handler.
    pub fn handle(&self, d: &Delivery) -> (r: Outcome)
        ensures
            self.handled(*d, r),
    {
        match &d.call {
            Call::MembershipChange { change } => {
                if d.handler == 0 {
                    self.autojoin.membership_change(&d.room, *change)
                } else {
                    Ok(None)
                }
            },
            Call::RoomMessage { text } => {
                if d.handler == 1 {
                    self.bacronym.room_message(&d.room, text.as_str())
                } else if d.handler == 2 {
                    self.party.room_message(&d.room, text.as_str())
                } else if d.handler == 3 {
                    self.woop.room_message(&d.room, text.as_str())
                } else {
                    Ok(None)
                }
            },
        }
    }

    /// Runs every delivery of a batch in order; a failed handler's turn yields
    /// nothing, and the deliveries after it still run.
    pub fn dispatch(&self, deliveries: &Vec<Delivery>) -> (r: Vec<Reaction>)
        ensures
            exists|outs: Seq<Outcome>|
                outs.len() == deliveries@.len() && (forall|i: int|
                    0 <= i < outs.len() ==> self.handled(deliveries@[i], #[trigger] outs[i]))
                    && r@ == successes(outs),
    {
        let mut out: Vec<Reaction> = Vec::new();
        let ghost mut outs: Seq<Outcome> = Seq::empty();
        let mut i: usize = 0;
        while i < deliveries.len()
            invariant
                i <= deliveries@.len(),
                outs.len() == i,
                forall|j: int| 0 <= j < i ==> self.handled(deliveries@[j], #[trigger] outs[j]),
                out@ == successes(outs),
            decreases deliveries@.len() - i,
        {
            let o = self.handle(&deliveries[i]);
            let ghost prev = outs;
            proof {
                outs = outs.push(o);
            }
            match o {
                Ok(Some(x)) => {
                    out.push(x);
                },
                _ => {},
            }
            assert(outs.drop_last() =~= prev);
            i = i + 1;
        }
        out
    }
}

/// Runs every delivery of a batch through handler `d.handler` of `plugins`, in
/// order; a failed handler's turn yields nothing, and the deliveries after it
/// still run. A delivery to no handler in the list yields nothing either.
pub fn dispatch_to<P: Plugin>(plugins: &Vec<P>, deliveries: &Vec<Delivery>) -> (r: Vec<Reaction>)
    ensures
        exists|outs: Seq<Outcome>|
            {
                &&& outs.len() == deliveries@.len()
                &&& forall|i: int|
                    0 <= i < outs.len() && deliveries@[i].handler >= plugins@.len() ==> (#[trigger] outs[i])
                        == Ok::<Option<Reaction>, HandlerError>(None)
                &&& forall|i: int|
                    0 <= i < outs.len() ==> ((#[trigger] outs[i]) matches Ok(Some(x)) ==> reaction_in(
                        x,
                        deliveries@[i].room,
                    ))
                &&& r@ == successes(outs)
            },
{
    let mut out: Vec<Reaction> = Vec::new();
    let ghost mut outs: Seq<Outcome> = Seq::empty();
    let mut i: usize = 0;
    while i < deliveries.len()
        invariant
            i <= deliveries@.len(),
            outs.len() == i,
            forall|j: int|
                0 <= j < i && deliveries@[j].handler >= plugins@.len() ==> (#[trigger] outs[j])
                    == Ok::<Option<Reaction>, HandlerError>(None),
            forall|j: int|
                0 <= j < i ==> ((#[trigger] outs[j]) matches Ok(Some(x)) ==> reaction_in(
                    x,
                    deliveries@[j].room,
                )),
            out@ == successes(outs),
        decreases deliveries@.len() - i,
    {
        let d = &deliveries[i];
        let o = if d.handler < plugins.len() {
            match &d.call {
                Call::MembershipChange { change } => plugins[d.handler].membership_change(&d.room, *change),
                Call::RoomMessage { text } => plugins[d.handler].room_message(&d.room, text.as_str()),
            }
        } else {
            Ok(None)
        };
        let ghost prev = outs;
        proof {
            outs = outs.push(o);
        }
        match o {
            Ok(Some(x)) => {
                out.push(x);
            },
            _ => {},
        }
        assert(outs.drop_last() =~= prev);
        i = i + 1;
    }
    out
}

/// The reactions of the successful outcomes, in order.
pub open spec fn successes(outs: Seq<Outcome>) -> Seq<Reaction>
    decreases outs.len(),
{
    if outs.len() == 0 {
        Seq::empty()
    } else {
        match outs.last() {
            Ok(Some(x)) => successes(outs.drop_last()).push(x),
            _ => successes(outs.drop_last()),
        }
    }
}

proof fn lemma_successes_append(a: Seq<Outcome>, b: Seq<Outcome>)
    ensures
        successes(a + b) == successes(a) + successes(b),
    decreases b.len(),
{
    if b.len() == 0 {
        assert(a + b =~= a);
        assert(successes(a) + successes(b) =~= successes(a));
    } else {
        lemma_successes_append(a, b.drop_last());
        assert((a + b).drop_last() =~= a + b.drop_last());
        assert((a + b).last() == b.last());
        match b.last() {
            Ok(Some(x)) => {
                assert(successes(a) + successes(b) =~= (successes(a) + successes(b.drop_last())).push(x));
            },
            _ => {},
        }
    }
}

/// A handler that fails takes nothing from the others: the reactions around
/// its turn are exactly those of the handlers before and after it, and a
/// handler that succeeds with a reaction always has it collected.
pub proof fn lemma_handler_isolation(before: Seq<Outcome>, e: HandlerError, after: Seq<Outcome>, x: Reaction)
    ensures
        successes(before + seq![Err::<Option<Reaction>, HandlerError>(e)] + after) == successes(
            before,
        ) + successes(after),
        successes(before + seq![Ok::<Option<Reaction>, HandlerError>(Some(x))] + after)
            == successes(before) + seq![x] + successes(after),
{
    let f = seq![Err::<Option<Reaction>, HandlerError>(e)];
    reveal_with_fuel(successes, 2);
    let g = seq![Ok::<Option<Reaction>, HandlerError>(Some(x))];
    lemma_successes_append(before, f);
    lemma_successes_append(before + f, after);
    lemma_successes_append(before, g);
    lemma_successes_append(before + g, after);
    assert(f.drop_last() =~= Seq::<Outcome>::empty());
    assert(g.drop_last() =~= Seq::<Outcome>::empty());
    assert(successes(f) =~= Seq::<Reaction>::empty());
    assert(successes(g) =~= seq![x]);
    assert(successes(before) + successes(f) =~= successes(before));
}

} // verus!
