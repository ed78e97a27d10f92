use vstd::prelude::*;
use crate::config::{BotConfig, TokenAuthentication};
use crate::dispatch::{deliveries_fit, pairs_of, route, routed, Delivery};
use crate::event::Event;

verus! {

/// Where the session lifecycle stands.
#[derive(Debug)]
pub enum Phase {
    /// Nothing attempted yet.
    Start,
    /// Restoring the session from stored credentials.
    Restoring,
    /// Waiting for the operator's password.
    AwaitingPassword,
    /// Password login under way.
    LoggingIn,
    /// Writing the new credentials back to the configuration.
    Saving,
    /// The one catch-up fetch is under way.
    CatchingUp,
    /// Streaming; `cursor` is the cursor handed to the pending fetch.
    Streaming { cursor: String },
    /// A fatal error ended the run.
    Stopped,
}

/// A fatal error: it ends the run.
#[derive(PartialEq, Eq, Structural, Clone, Copy, Debug)]
pub enum BotError {
    /// Bad credentials or a rejected stored token.
    Authentication,
    /// The catch-up fetch failed.
    CatchUp,
    /// A streaming fetch failed.
    Stream,
}

/// What the driver reports back to the bot.
#[derive(Debug)]
pub enum Input {
    /// The process has started.
    Start,
    /// Outcome of restoring the session from stored credentials.
    Restored(Result<(), ()>),
    /// The operator typed a password.
    Password(String),
    /// Outcome of the password login.
    LoggedIn(Result<TokenAuthentication, ()>),
    /// Outcome of writing the configuration; a failure is not fatal.
    Saved(Result<(), ()>),
    /// Outcome of the catch-up fetch: the history it returned and the cursor.
    CaughtUp(Result<(Vec<Event>, String), ()>),
    /// Outcome of a streaming fetch: new events and the next cursor.
    Batch(Result<(Vec<Event>, String), ()>),
}

/// What the driver must do next.
#[derive(Debug)]
pub enum Action {
    /// Restore the session with these credentials.
    Restore(TokenAuthentication),
    /// Ask the operator for a password.
    PromptPassword,
    /// Log in with a password.
    Login { user_name: String, password: String, display_name: String },
    /// Write these settings to the configuration file.
    Save(BotConfig),
    /// Run the one catch-up fetch, without a cursor.
    CatchUp,
    /// Run a streaming fetch from `cursor`.
    Stream { cursor: String },
    /// End the run with this error.
    Fail(BotError),
    /// The input did not fit the current phase; nothing to do.
    Ignore,
}

/// The session lifecycle and event multiplexer of one bot.
#[derive(Debug)]
pub struct Bot {
    pub config: BotConfig,
    pub phase: Phase,
    /// The bot's own identity, once a session is established.
    pub user_id: String,
    /// Number of registered handlers.
    pub handlers: usize,
}

/// The result of one step: the next action and the handler deliveries to run.
#[derive(Debug)]
pub struct Step {
    pub action: Action,
    pub deliveries: Vec<Delivery>,
}

/// The lifecycle's transition: next phase, next action and own identity.
pub open spec fn transition(cfg: BotConfig, uid: Seq<char>, phase: Phase, input: Input) -> (
    Phase,
    Action,
    Seq<char>,
) {
    match (phase, input) {
        (Phase::Start, Input::Start) => match cfg.auth_token {
            Some(t) => (Phase::Restoring, Action::Restore(t), t.user_id@),
            None => (Phase::AwaitingPassword, Action::PromptPassword, uid),
        },
        (Phase::Restoring, Input::Restored(Ok(()))) => (Phase::CatchingUp, Action::CatchUp, uid),
        (Phase::Restoring, Input::Restored(Err(()))) => (
            Phase::Stopped,
            Action::Fail(BotError::Authentication),
            uid,
        ),
        (Phase::AwaitingPassword, Input::Password(p)) => if p@.len() == 0 {
            (Phase::AwaitingPassword, Action::PromptPassword, uid)
        } else {
            (
                Phase::LoggingIn,
                Action::Login {
                    user_name: cfg.user_name,
                    password: p,
                    display_name: cfg.display_name,
                },
                uid,
            )
        },
        (Phase::LoggingIn, Input::LoggedIn(Ok(t))) => (
            Phase::Saving,
            Action::Save(cfg.spec_with_token(t)),
            t.user_id@,
        ),
        (Phase::LoggingIn, Input::LoggedIn(Err(()))) => (
            Phase::Stopped,
            Action::Fail(BotError::Authentication),
            uid,
        ),
        (Phase::Saving, Input::Saved(_)) => (Phase::CatchingUp, Action::CatchUp, uid),
        (Phase::CatchingUp, Input::CaughtUp(Ok((_, c)))) => (
            Phase::Streaming { cursor: c },
            Action::Stream { cursor: c },
            uid,
        ),
        (Phase::CatchingUp, Input::CaughtUp(Err(()))) => (
            Phase::Stopped,
            Action::Fail(BotError::CatchUp),
            uid,
        ),
        (Phase::Streaming { .. }, Input::Batch(Ok((_, c)))) => (
            Phase::Streaming { cursor: c },
            Action::Stream { cursor: c },
            uid,
        ),
        (Phase::Streaming { .. }, Input::Batch(Err(()))) => (
            Phase::Stopped,
            Action::Fail(BotError::Stream),
            uid,
        ),
        (p, _) => (p, Action::Ignore, uid),
    }
}

/// The events that a step hands to handlers: only those of a streamed batch.
pub open spec fn live_events(phase: Phase, input: Input) -> Seq<Event> {
    match (phase, input) {
        (Phase::Streaming { .. }, Input::Batch(Ok((events, _)))) => events@,
        _ => Seq::empty(),
    }
}

impl Bot {
    /// A bot that has attempted nothing yet, with `handlers` registered handlers.
    pub fn new(config: BotConfig, handlers: usize) -> (r: Bot)
        ensures
            r.config == config,
            r.phase == Phase::Start,
            r.user_id@ == Seq::<char>::empty(),
            r.handlers == handlers,
    {
        Bot { config, phase: Phase::Start, user_id: String::new(), handlers }
    }

    /// Takes one report from the driver and says what to do next. A streamed
    /// batch is fanned out to the handlers; the catch-up's history never is.
    pub fn step(&mut self, input: Input) -> (r: Step)
        ensures
            final(self).config == old(self).config,
            final(self).handlers == old(self).handlers,
            (final(self).phase, r.action, final(self).user_id@) == transition(
                old(self).config,
                old(self).user_id@,
                old(self).phase,
                input,
            ),
            pairs_of(r.deliveries@) == routed(
                old(self).user_id@,
                live_events(old(self).phase, input),
                old(self).handlers as nat,
            ),
            r.deliveries@.len() == routed(
                old(self).user_id@,
                live_events(old(self).phase, input),
                old(self).handlers as nat,
            ).len(),
            deliveries_fit(r.deliveries@, live_events(old(self).phase, input)),
    {
        let mut phase = Phase::Stopped;
        core::mem::swap(&mut phase, &mut self.phase);
        let none: Vec<Delivery> = Vec::new();
        proof {
            assert(pairs_of(none@) =~= Seq::empty());
        }
        let (phase, action, deliveries) = match (phase, input) {
            (Phase::Start, Input::Start) => match &self.config.auth_token {
                Some(t) => {
                    self.user_id = t.user_id.clone();
                    (Phase::Restoring, Action::Restore(t.duplicate()), none)
                },
                None => (Phase::AwaitingPassword, Action::PromptPassword, none),
            },
            (Phase::Restoring, Input::Restored(Ok(()))) => (Phase::CatchingUp, Action::CatchUp, none),
            (Phase::Restoring, Input::Restored(Err(()))) => (
                Phase::Stopped,
                Action::Fail(BotError::Authentication),
                none,
            ),
            (Phase::AwaitingPassword, Input::Password(p)) => {
                if p.as_str().is_empty() {
                    (Phase::AwaitingPassword, Action::PromptPassword, none)
                } else {
                    let login = Action::Login {
                        user_name: self.config.user_name.clone(),
                        password: p,
                        display_name: self.config.display_name.clone(),
                    };
                    (Phase::LoggingIn, login, none)
                }
            },
            (Phase::LoggingIn, Input::LoggedIn(Ok(t))) => {
                self.user_id = t.user_id.clone();
                (Phase::Saving, Action::Save(self.config.with_token(t)), none)
            },
            (Phase::LoggingIn, Input::LoggedIn(Err(()))) => (
                Phase::Stopped,
                Action::Fail(BotError::Authentication),
                none,
            ),
            (Phase::Saving, Input::Saved(_)) => (Phase::CatchingUp, Action::CatchUp, none),
            (Phase::CatchingUp, Input::CaughtUp(Ok((_history, c)))) => {
                let next = Action::Stream { cursor: c.clone() };
                (Phase::Streaming { cursor: c }, next, none)
            },
            (Phase::CatchingUp, Input::CaughtUp(Err(()))) => (
                Phase::Stopped,
                Action::Fail(BotError::CatchUp),
                none,
            ),
            (Phase::Streaming { .. }, Input::Batch(Ok((events, c)))) => {
                let deliveries = route(self.user_id.as_str(), &events, self.handlers);
                let next = Action::Stream { cursor: c.clone() };
                (Phase::Streaming { cursor: c }, next, deliveries)
            },
            (Phase::Streaming { .. }, Input::Batch(Err(()))) => (
                Phase::Stopped,
                Action::Fail(BotError::Stream),
                none,
            ),
            (p, _) => (p, Action::Ignore, none),
        };
        self.phase = phase;
        Step { action, deliveries }
    }
}

/// The actions that a bot with settings `cfg`, identity `uid` and phase `phase`
/// takes on the inputs `inputs`, in order.
pub open spec fn run(cfg: BotConfig, uid: Seq<char>, phase: Phase, inputs: Seq<Input>) -> Seq<Action>
    decreases inputs.len(),
{
    if inputs.len() == 0 {
        Seq::empty()
    } else {
        let (p, a, u) = transition(cfg, uid, phase, inputs[0]);
        seq![a] + run(cfg, u, p, inputs.subrange(1, inputs.len() as int))
    }
}

/// The cursor that a successful fetch returned.
pub open spec fn returned_cursor(input: Input) -> Option<String> {
    match input {
        Input::CaughtUp(Ok((_, c))) => Some(c),
        Input::Batch(Ok((_, c))) => Some(c),
        _ => None,
    }
}

/// Whatever history the catch-up fetch returns, no handler receives any of it:
/// handlers only ever see the events of a streamed batch.
pub proof fn lemma_history_never_delivered(
    cfg: BotConfig,
    uid: Seq<char>,
    phase: Phase,
    input: Input,
    handlers: nat,
)
    requires
        !(input matches Input::Batch(_)),
    ensures
        routed(uid, live_events(phase, input), handlers) == Seq::<(nat, nat)>::empty(),
{
}

/// The first streaming fetch starts from the cursor that the catch-up returned.
pub proof fn lemma_stream_starts_at_catch_up(cfg: BotConfig, uid: Seq<char>, history: Vec<Event>, cursor: String)
    ensures
        transition(cfg, uid, Phase::CatchingUp, Input::CaughtUp(Ok((history, cursor)))).1
            == (Action::Stream { cursor }),
{
}

/// Over successive successful streaming fetches, each fetch starts from the
/// cursor that the one before it returned.
pub proof fn lemma_cursor_follows(cfg: BotConfig, uid: Seq<char>, cursor: String, inputs: Seq<Input>)
    requires
        forall|i: int| 0 <= i < inputs.len() ==> (#[trigger] inputs[i]) matches Input::Batch(Ok(_)),
    ensures
        run(cfg, uid, Phase::Streaming { cursor }, inputs).len() == inputs.len(),
        forall|i: int|
            0 <= i < inputs.len() ==> Some(
                (#[trigger] run(cfg, uid, Phase::Streaming { cursor }, inputs)[i])->Stream_cursor,
            ) == returned_cursor(inputs[i]) && run(
                cfg,
                uid,
                Phase::Streaming { cursor },
                inputs,
            )[i] is Stream,
    decreases inputs.len(),
{
    if inputs.len() > 0 {
        let rest = inputs.subrange(1, inputs.len() as int);
        let c = returned_cursor(inputs[0]).unwrap();
        assert forall|i: int| 0 <= i < rest.len() implies (#[trigger] rest[i]) matches Input::Batch(
            Ok(_),
        ) by {
            assert(rest[i] == inputs[i + 1]);
        }
        lemma_cursor_follows(cfg, uid, c, rest);
        let r = run(cfg, uid, Phase::Streaming { cursor }, inputs);
        assert forall|i: int| 0 <= i < inputs.len() implies Some((#[trigger] r[i])->Stream_cursor)
            == returned_cursor(inputs[i]) && r[i] is Stream by {
            if i > 0 {
                assert(rest[i - 1] == inputs[i]);
            }
        }
    }
}

/// Phases that a run which began by restoring stored credentials can reach.
pub open spec fn on_restore_path(p: Phase) -> bool {
    p is Restoring || p is CatchingUp || p is Streaming || p is Stopped
}

/// Whether an action belongs to the password-login path.
pub open spec fn is_password_path(a: Action) -> bool {
    a is PromptPassword || a is Login || a is Save
}

/// With stored credentials, a run restores them and then catches up, whatever
/// else it is told; it never prompts for a password, logs in or saves.
pub proof fn lemma_restore_skips_password(cfg: BotConfig, t: TokenAuthentication, uid: Seq<char>, inputs: Seq<Input>)
    requires
        cfg.auth_token == Some(t),
    ensures
        run(cfg, uid, Phase::Start, seq![Input::Start, Input::Restored(Ok(()))])
            == seq![Action::Restore(t), Action::CatchUp],
        forall|i: int|
            0 <= i < run(cfg, uid, Phase::Start, inputs).len() ==> !is_password_path(
                #[trigger] run(cfg, uid, Phase::Start, inputs)[i],
            ),
{
    let ins = seq![Input::Start, Input::Restored(Ok(()))];
    reveal_with_fuel(run, 3);
    assert(ins.subrange(1, 2) =~= seq![Input::Restored(Ok(()))]);
    assert(ins.subrange(1, 2).subrange(1, 1) =~= Seq::<Input>::empty());
    assert(run(cfg, t.user_id@, Phase::Restoring, ins.subrange(1, 2)) =~= seq![Action::CatchUp]);
    assert(run(cfg, uid, Phase::Start, ins) =~= seq![Action::Restore(t), Action::CatchUp]);
    lemma_restore_path_from_start(cfg, uid, Phase::Start, inputs);
}

proof fn lemma_restore_path_from_start(cfg: BotConfig, uid: Seq<char>, phase: Phase, inputs: Seq<Input>)
    requires
        cfg.auth_token is Some,
        phase == Phase::Start || on_restore_path(phase),
    ensures
        forall|i: int|
            0 <= i < run(cfg, uid, phase, inputs).len() ==> !is_password_path(
                #[trigger] run(cfg, uid, phase, inputs)[i],
            ),
    decreases inputs.len(),
{
    if inputs.len() > 0 {
        let (p, a, u) = transition(cfg, uid, phase, inputs[0]);
        let rest = inputs.subrange(1, inputs.len() as int);
        lemma_restore_path_from_start(cfg, u, p, rest);
        let r = run(cfg, uid, phase, inputs);
        assert forall|i: int| 0 <= i < r.len() implies !is_password_path(#[trigger] r[i]) by {
            if i > 0 {
                assert(r[i] == run(cfg, u, p, rest)[i - 1]);
            }
        }
    }
}

} // verus!
