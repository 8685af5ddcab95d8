//! The game service's shell: the stage it is in and the players it holds.
//! Gameplay itself is out of scope; the stage machine consumes chat
//! events and timer deliveries and, as yet, stands still. What matters
//! to the rest of the pipeline is only that every event is drained.
use vstd::prelude::*;

use crate::chat::{GameEvent, Player};
use crate::table::Table;
use crate::timer::Timer;

verus! {

/// Where a player stands in the lobby.
pub enum PlayerState {
    Active,
    Observer,
}

/// A player as the lobby tracks it.
pub struct PlayerInfo {
    pub player: Player,
    pub state: PlayerState,
}

impl View for PlayerInfo {
    type V = crate::login::UserView;

    open spec fn view(&self) -> crate::login::UserView {
        self.player@
    }
}

/// The lobby: who is present, the lobby epoch, and whether a game may
/// start.
pub struct LobbyStage {
    pub players: Table<u64, PlayerInfo>,
    pub epoch: u64,
    pub can_start: bool,
}

pub struct DayStage {}

pub struct NightStage {}

/// The stage the game is in.
pub enum GameStage {
    Lobby(LobbyStage),
    Day(DayStage),
    Night(NightStage),
}

impl GameStage {
    /// Consume one chat event. The gameplay rules are out of scope: the
    /// stage stands still, and the timer is untouched.
    pub fn handle_game_event(self, event: GameEvent, timer: &mut Timer<u64>) -> (r: GameStage)
        ensures
            r == self,
            *final(timer) == *old(timer),
    {
        let _ = event;
        self
    }

    /// Consume one timer delivery. The stage stands still.
    pub fn handle_timer_event(self, timer: &mut Timer<u64>) -> (r: GameStage)
        ensures
            r == self,
            *final(timer) == *old(timer),
    {
        self
    }
}

/// The game service's state: its stage and its timer.
pub struct GameService {
    pub stage: GameStage,
    pub timer: Timer<u64>,
}

impl GameService {
    pub fn new() -> (s: GameService)
        ensures
            s.stage matches GameStage::Lobby(l) && l.players.map() == Map::<
                u64,
                crate::login::UserView,
            >::empty() && l.epoch == 0 && l.can_start,
            s.timer.alarms() == Seq::<(u64, u64)>::empty(),
    {
        let stage = GameStage::Lobby(
            LobbyStage { players: Table::new(), epoch: 0, can_start: true },
        );
        GameService { stage, timer: Timer::new() }
    }

    /// One turn of the service's loop on a chat event.
    pub fn step_event(&mut self, event: GameEvent)
        ensures
            final(self).stage == old(self).stage,
            final(self).timer == old(self).timer,
    {
        let mut stage = GameStage::Day(DayStage {});
        core::mem::swap(&mut stage, &mut self.stage);
        let next = stage.handle_game_event(event, &mut self.timer);
        self.stage = next;
    }

    /// One turn of the service's loop on a timer delivery.
    pub fn step_timer(&mut self)
        ensures
            final(self).stage == old(self).stage,
            final(self).timer == old(self).timer,
    {
        let mut stage = GameStage::Day(DayStage {});
        core::mem::swap(&mut stage, &mut self.stage);
        let next = stage.handle_timer_event(&mut self.timer);
        self.stage = next;
    }
}

} // verus!
