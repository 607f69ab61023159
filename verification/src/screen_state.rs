//! Screen state machine of the capture loop.
//!
//! ```text
//! WaitingForBattle --battle start--> InGame { match_id }
//! InGame --timeout (900 s)--> WaitingForBattle
//! ResultScreen --x match extracted--> XPowerScreen { match_id }
//! ResultScreen / XPowerScreen --timeout (30 s)--> WaitingForBattle
//! ```
//!
//! Times are milliseconds on the machine's own monotonic clock, counted
//! from the machine's creation.
use std::time::Instant;
use vstd::prelude::*;

verus! {

#[verifier::external_type_specification]
#[verifier::external_body]
pub struct ExInstant(Instant);

/// `Instant::now`: the current reading of the monotonic clock.
#[verifier::external_body]
fn clock_now() -> Instant {
    Instant::now()
}

/// `Instant::elapsed` in whole milliseconds: time since `origin`.  It
/// depends on the clock, so nothing is stated of it (std documents the
/// clock as monotonic; the machine keeps its readings non-decreasing
/// itself).
#[verifier::external_body]
fn clock_millis_since(origin: &Instant) -> u64 {
    origin.elapsed().as_millis() as u64
}

/// Seconds of cooldown after an event during which a new battle start is
/// ignored.
pub const BATTLE_START_COOLDOWN_SECS: u64 = 20;
/// A battle without a result screen for this long is abandoned.
pub const IN_GAME_TIMEOUT_SECS: u64 = 900;
/// Longest stay on the result screen.
pub const RESULT_SCREEN_TIMEOUT_SECS: u64 = 30;
/// Longest stay on the X power screen.
pub const XPOWER_SCREEN_TIMEOUT_SECS: u64 = 30;

/// The screen the game is on, as far as the tracker knows.
pub enum ScreenState {
    /// Capture stopped / initial state.
    Idle,
    /// Waiting for the battle-start screen.
    WaitingForBattle,
    /// In a battle, waiting for the result screen.
    InGame { match_id: String, started_at: u64 },
    /// Result screen seen; details are being extracted.
    ResultScreen { match_id: String, detected_at: u64 },
    /// X power screen after an X match result.
    XPowerScreen { match_id: String, detected_at: u64 },
}

/// Name of each state.
pub open spec fn state_name(s: ScreenState) -> Seq<char> {
    match s {
        ScreenState::Idle => "Idle"@,
        ScreenState::WaitingForBattle => "WaitingForBattle"@,
        ScreenState::InGame { .. } => "InGame"@,
        ScreenState::ResultScreen { .. } => "ResultScreen"@,
        ScreenState::XPowerScreen { .. } => "XPowerScreen"@,
    }
}

impl ScreenState {
    /// The state's name.
    pub fn name(&self) -> (r: &'static str)
        ensures
            r@ == state_name(*self),
    {
        match self {
            ScreenState::Idle => "Idle",
            ScreenState::WaitingForBattle => "WaitingForBattle",
            ScreenState::InGame { .. } => "InGame",
            ScreenState::ResultScreen { .. } => "ResultScreen",
            ScreenState::XPowerScreen { .. } => "XPowerScreen",
        }
    }
}

/// Time of the last event of a state: the battle start or the detection;
/// `None` for `Idle` and `WaitingForBattle`.
pub open spec fn last_event_time(s: ScreenState) -> Option<u64> {
    match s {
        ScreenState::Idle => None,
        ScreenState::WaitingForBattle => None,
        ScreenState::InGame { started_at, .. } => Some(started_at),
        ScreenState::ResultScreen { detected_at, .. } => Some(detected_at),
        ScreenState::XPowerScreen { detected_at, .. } => Some(detected_at),
    }
}

/// Whole seconds from `earlier` to `now` (zero if `now` is earlier).
pub open spec fn whole_secs(now: u64, earlier: u64) -> int {
    if now >= earlier { (now - earlier) / 1000 } else { 0 }
}

/// A battle start at `now` is accepted: no earlier event, or the cooldown
/// of 20 s since it has passed.
pub open spec fn battle_start_accepted(s: ScreenState, now: u64) -> bool {
    match last_event_time(s) {
        None => true,
        Some(t) => whole_secs(now, t) >= BATTLE_START_COOLDOWN_SECS,
    }
}

/// The match id of the battle in progress, if the state is `InGame`.
pub open spec fn in_game_id(s: ScreenState) -> Option<Seq<char>> {
    match s {
        ScreenState::InGame { match_id, .. } => Some(match_id@),
        _ => None,
    }
}

/// The state has outstayed its timeout at `now`.
pub open spec fn timed_out(s: ScreenState, now: u64) -> bool {
    match s {
        ScreenState::InGame { started_at, .. } => whole_secs(now, started_at) > IN_GAME_TIMEOUT_SECS,
        ScreenState::ResultScreen { detected_at, .. } => whole_secs(now, detected_at) > RESULT_SCREEN_TIMEOUT_SECS,
        ScreenState::XPowerScreen { detected_at, .. } => whole_secs(now, detected_at) > XPOWER_SCREEN_TIMEOUT_SECS,
        _ => false,
    }
}

/// The state after a battle start seen at `now` with id `match_id`: the
/// new battle when accepted, otherwise unchanged.
pub open spec fn start_step(s: ScreenState, match_id: String, now: u64) -> ScreenState {
    if battle_start_accepted(s, now) { ScreenState::InGame { match_id, started_at: now } } else { s }
}

/// The state after the timeouts are applied at `now`.
pub open spec fn tick_step(s: ScreenState, now: u64) -> ScreenState {
    if timed_out(s, now) { ScreenState::WaitingForBattle } else { s }
}

fn secs_between(now: u64, earlier: u64) -> (r: u64)
    ensures
        r == whole_secs(now, earlier),
{
    if now >= earlier { (now - earlier) / 1000 } else { 0 }
}

/// The screen state machine, with its clock.
pub struct ScreenStateMachine {
    state: ScreenState,
    clock: Instant,
    /// The latest reading of the clock, in milliseconds.
    latest: u64,
}

impl View for ScreenStateMachine {
    type V = ScreenState;

    closed spec fn view(&self) -> ScreenState {
        self.state
    }
}

impl ScreenStateMachine {
    /// The latest reading of the machine's clock, in milliseconds since
    /// the machine was created.
    pub closed spec fn latest_reading(&self) -> u64 {
        self.latest
    }

    /// A machine waiting for the battle start.
    pub fn new() -> (m: Self)
        ensures
            m@ == ScreenState::WaitingForBattle,
            m.latest_reading() == 0,
    {
        ScreenStateMachine { state: ScreenState::WaitingForBattle, clock: clock_now(), latest: 0 }
    }

    /// The current state.
    pub fn state(&self) -> (r: &ScreenState)
        ensures
            *r == self@,
    {
        &self.state
    }

    /// Milliseconds on the machine's clock, now: never less than an
    /// earlier reading, and kept as the latest reading.  The state does not
    /// change.
    pub fn now_millis(&mut self) -> (r: u64)
        ensures
            r >= old(self).latest_reading(),
            final(self).latest_reading() == r,
            final(self)@ == old(self)@,
    {
        let t = clock_millis_since(&self.clock);
        let r = if t >= self.latest { t } else { self.latest };
        self.latest = r;
        r
    }

    /// Battle start seen at `now`: moves to `InGame` with `match_id` unless
    /// the last event was less than 20 s before; returns whether it moved.
    pub fn on_battle_started_at(&mut self, match_id: String, now: u64) -> (moved: bool)
        ensures
            moved == battle_start_accepted(old(self)@, now),
            final(self)@ == start_step(old(self)@, match_id, now),
            final(self).latest_reading() == old(self).latest_reading(),
    {
        let last: Option<u64> = match &self.state {
            ScreenState::Idle => None,
            ScreenState::WaitingForBattle => None,
            ScreenState::InGame { started_at, .. } => Some(*started_at),
            ScreenState::ResultScreen { detected_at, .. } => Some(*detected_at),
            ScreenState::XPowerScreen { detected_at, .. } => Some(*detected_at),
        };
        if let Some(t) = last {
            if secs_between(now, t) < BATTLE_START_COOLDOWN_SECS {
                return false;
            }
        }
        self.state = ScreenState::InGame { match_id, started_at: now };
        true
    }

    /// Battle start seen now (see `on_battle_started_at`): the clock is
    /// read and the start is judged at that reading.
    pub fn on_battle_started(&mut self, match_id: String) -> (moved: bool)
        ensures
            final(self).latest_reading() >= old(self).latest_reading(),
            moved == battle_start_accepted(old(self)@, final(self).latest_reading()),
            final(self)@ == start_step(old(self)@, match_id, final(self).latest_reading()),
            old(self)@ is Idle || old(self)@ is WaitingForBattle ==> moved,
            moved ==> in_game_id(final(self)@) == Some(match_id@),
            !moved ==> final(self)@ == old(self)@,
    {
        let now = self.now_millis();
        self.on_battle_started_at(match_id, now)
    }

    /// Result screen seen: the match id while `InGame`, `None` otherwise.
    /// The state does not change.
    pub fn on_result_detected(&mut self) -> (r: Option<String>)
        ensures
            final(self)@ == old(self)@,
            final(self).latest_reading() == old(self).latest_reading(),
            match in_game_id(old(self)@) {
                Some(id) => r matches Some(s) && s@ == id,
                None => r is None,
            },
    {
        match &self.state {
            ScreenState::InGame { match_id, .. } => Some(match_id.clone()),
            _ => None,
        }
    }

    /// Result extracted for an X match at `now`: `ResultScreen` moves to
    /// `XPowerScreen` with the same match id, which is returned; any other
    /// state stays and `None` is returned.
    pub fn on_result_extracted_x_match_at(&mut self, now: u64) -> (r: Option<String>)
        ensures
            match old(self)@ {
                ScreenState::ResultScreen { match_id, .. } => {
                    &&& r matches Some(s) && s@ == match_id@
                    &&& final(self)@ == (ScreenState::XPowerScreen { match_id: match_id, detected_at: now })
                },
                _ => r is None && final(self)@ == old(self)@,
            },
            final(self).latest_reading() == old(self).latest_reading(),
    {
        let id: Option<String> = match &self.state {
            ScreenState::ResultScreen { match_id, .. } => Some(match_id.clone()),
            _ => None,
        };
        match id {
            Some(id) => {
                let kept = id.clone();
                self.state = ScreenState::XPowerScreen { match_id: id, detected_at: now };
                Some(kept)
            },
            None => None,
        }
    }

    /// Result extracted for an X match now (see
    /// `on_result_extracted_x_match_at`): the clock is read and the X power
    /// screen is dated at that reading.
    pub fn on_result_extracted_x_match(&mut self) -> (r: Option<String>)
        ensures
            final(self).latest_reading() >= old(self).latest_reading(),
            match old(self)@ {
                ScreenState::ResultScreen { match_id, .. } => {
                    &&& r matches Some(s) && s@ == match_id@
                    &&& final(self)@ == (ScreenState::XPowerScreen {
                        match_id: match_id,
                        detected_at: final(self).latest_reading(),
                    })
                },
                _ => r is None && final(self)@ == old(self)@,
            },
    {
        let now = self.now_millis();
        self.on_result_extracted_x_match_at(now)
    }

    /// Returns to `WaitingForBattle` when the state has outstayed its
    /// timeout at `now` (900 s in a battle, 30 s on the result and X power
    /// screens); otherwise nothing changes.
    pub fn tick_timeouts_at(&mut self, now: u64)
        ensures
            final(self)@ == tick_step(old(self)@, now),
            final(self).latest_reading() == old(self).latest_reading(),
    {
        let should_reset = match &self.state {
            ScreenState::InGame { started_at, .. } => secs_between(now, *started_at) > IN_GAME_TIMEOUT_SECS,
            ScreenState::ResultScreen { detected_at, .. } => secs_between(now, *detected_at)
                > RESULT_SCREEN_TIMEOUT_SECS,
            ScreenState::XPowerScreen { detected_at, .. } => secs_between(now, *detected_at)
                > XPOWER_SCREEN_TIMEOUT_SECS,
            _ => false,
        };
        if should_reset {
            self.state = ScreenState::WaitingForBattle;
        }
    }

    /// Applies the timeouts now (see `tick_timeouts_at`): the clock is read
    /// and the state's timeout is checked at that reading.
    pub fn tick_timeouts(&mut self)
        ensures
            final(self).latest_reading() >= old(self).latest_reading(),
            final(self)@ == tick_step(old(self)@, final(self).latest_reading()),
    {
        let now = self.now_millis();
        self.tick_timeouts_at(now);
    }
}


impl Default for ScreenStateMachine {
    /// A machine waiting for the battle start.
    fn default() -> (m: Self)
        ensures
            m@ == ScreenState::WaitingForBattle,
    {
        ScreenStateMachine::new()
    }
}

// ---------------------------------------------------------------------------
// Laws
// ---------------------------------------------------------------------------

/// A battle start accepted at `now` puts the machine in that battle: the
/// result screen seen next is reported under the battle's id.
pub proof fn law_result_names_started_battle(s: ScreenState, match_id: String, now: u64)
    requires
        battle_start_accepted(s, now),
    ensures
        in_game_id(start_step(s, match_id, now)) == Some(match_id@),
{
}

/// While waiting (or idle) every battle start is accepted.
pub proof fn law_waiting_accepts_start(s: ScreenState, now: u64)
    requires
        s is Idle || s is WaitingForBattle,
    ensures
        battle_start_accepted(s, now),
{
}

/// A second battle start less than 20 s after an accepted one is ignored:
/// the first battle stays in progress.
pub proof fn law_no_restart_within_cooldown(s: ScreenState, first: String, second: String, t1: u64, t2: u64)
    requires
        battle_start_accepted(s, t1),
        whole_secs(t2, t1) < BATTLE_START_COOLDOWN_SECS,
    ensures
        start_step(start_step(s, first, t1), second, t2) == start_step(s, first, t1),
        in_game_id(start_step(start_step(s, first, t1), second, t2)) == Some(first@),
{
}

/// From 20 s after an accepted battle start on, a new battle start is
/// accepted and replaces the battle.
pub proof fn law_restart_after_cooldown(s: ScreenState, first: String, second: String, t1: u64, t2: u64)
    requires
        battle_start_accepted(s, t1),
        whole_secs(t2, t1) >= BATTLE_START_COOLDOWN_SECS,
    ensures
        start_step(start_step(s, first, t1), second, t2) == (ScreenState::InGame { match_id: second, started_at: t2 }),
{
}

/// A battle stays in progress, and its result is still reported under its
/// id, until 900 whole seconds have passed since its start; after that the
/// timeout returns the machine to waiting.
pub proof fn law_battle_lasts_until_timeout(s: ScreenState, match_id: String, t: u64, now: u64)
    requires
        battle_start_accepted(s, t),
    ensures
        whole_secs(now, t) <= IN_GAME_TIMEOUT_SECS ==> in_game_id(tick_step(start_step(s, match_id, t), now))
            == Some(match_id@),
        whole_secs(now, t) > IN_GAME_TIMEOUT_SECS ==> tick_step(start_step(s, match_id, t), now)
            == ScreenState::WaitingForBattle,
{
}

/// Timeouts only ever return the machine to waiting.
pub proof fn law_tick_only_resets(s: ScreenState, now: u64)
    ensures
        tick_step(s, now) == s || tick_step(s, now) == ScreenState::WaitingForBattle,
{
}

/// The states a machine reaches from `new` through battle starts, result
/// detections, X-match extractions and timeouts: waiting or in a battle.
pub open spec fn reachable_state(s: ScreenState) -> bool {
    s is WaitingForBattle || s is InGame
}

/// Every step the capture loop takes keeps the machine waiting or in a
/// battle: a battle start and a timeout lead to a reachable state, and a
/// reachable state is never the result screen, so an X-match extraction
/// and a result detection leave it as it is.  With `new` starting in
/// `WaitingForBattle`, the result and X power screens are never reached.
pub proof fn law_only_waiting_or_in_game(s: ScreenState, match_id: String, now: u64)
    requires
        reachable_state(s),
    ensures
        reachable_state(start_step(s, match_id, now)),
        reachable_state(tick_step(s, now)),
        !(s is ResultScreen),
        reachable_state(ScreenState::WaitingForBattle),
{
}

} // verus!
