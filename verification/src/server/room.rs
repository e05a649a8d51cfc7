//! A room: seats, host, lobby settings, the game being played, and the
//! turn timer. Times are whole seconds on a clock the caller reads; messages
//! for clients are queued in `outbox` as `(seat, message)` for the caller
//! to deliver.

use crate::interactive::{ActionNeeded, InteractiveGame, PlayerAction, PlayerView, same_game};
use crate::server::messages::{LobbyPlayer, PlayerSlotType, RoomLobbyState, ServerMessage};
use crate::server::session::SessionToken;
use crate::strategies::{available_rules, available_strategies, kind_name, make_rules, make_strategy, RandomStrategy, StrategyKind};
use crate::text::{decimal, has_prefix, joined, usize_text};
use crate::board::PlayerId;
use vstd::prelude::*;

verus! {

/// Seconds a lobby may sit idle before it is reaped.
pub const LOBBY_IDLE_SECS: u64 = 1800;

/// Seconds a human has for each decision unless the host changes it.
pub const DEFAULT_TURN_TIMER_SECS: u64 = 60;

#[derive(Debug, Clone, Copy, PartialEq, Eq, Structural)]
pub enum RoomPhase {
    Lobby,
    InGame,
    GameOver,
}

#[derive(Debug, Clone)]
pub struct PlayerSlot {
    pub name: String,
    pub slot_type: PlayerSlotType,
    pub session_token: Option<SessionToken>,
    pub connected: bool,
    /// When the occupant disconnected, if they are away.
    pub disconnected_at: Option<u64>,
}

/// A seat nobody holds.
pub open spec fn is_empty_slot(s: PlayerSlot) -> bool {
    &&& s.name@ == Seq::<char>::empty()
    &&& s.slot_type is Empty
    &&& s.session_token is None
    &&& !s.connected
    &&& s.disconnected_at is None
}

impl PlayerSlot {
    pub fn empty() -> (r: Self)
        ensures
            is_empty_slot(r),
    {
        PlayerSlot {
            name: String::new(),
            slot_type: PlayerSlotType::Empty,
            session_token: None,
            connected: false,
            disconnected_at: None,
        }
    }
}

pub struct Room {
    pub code: String,
    pub phase: RoomPhase,
    pub num_players: usize,
    pub rules_name: String,
    pub creator: usize,
    pub players: Vec<PlayerSlot>,
    pub game: Option<InteractiveGame>,
    pub last_activity: u64,
    pub last_winners: Vec<usize>,
    pub turn_timer_secs: Option<u64>,
    pub turn_start: Option<u64>,
    /// Messages waiting to be delivered, as `(seat, message)`.
    pub outbox: Vec<(usize, ServerMessage)>,
}

/// The text of each phase, as clients see it.
pub open spec fn phase_text(p: RoomPhase) -> Seq<char> {
    match p {
        RoomPhase::Lobby => "lobby"@,
        RoomPhase::InGame => "in_game"@,
        RoomPhase::GameOver => "game_over"@,
    }
}

/// The first seat of `players` below `k` of the kind `bot` selects (an
/// empty seat, or a bot seat).
pub open spec fn first_seat(players: Seq<PlayerSlot>, bot: bool, k: int) -> Option<usize>
    decreases k,
{
    if k <= 0 {
        None
    } else {
        match first_seat(players, bot, k - 1) {
            Some(i) => Some(i),
            None => if (bot && players[k - 1].slot_type is Bot) || (!bot && players[k - 1].slot_type is Empty) {
                Some((k - 1) as usize)
            } else {
                None
            },
        }
    }
}

proof fn lemma_first_seat_stable(players: Seq<PlayerSlot>, bot: bool, k: int, n: int)
    requires
        0 <= k <= n,
        first_seat(players, bot, k) is Some,
    ensures
        first_seat(players, bot, n) == first_seat(players, bot, k),
    decreases n - k,
{
    if n > k {
        lemma_first_seat_stable(players, bot, k, n - 1);
    }
}

/// Seconds from `start` to `now`, or 0 if the clock reads earlier.
pub open spec fn elapsed(start: u64, now: u64) -> u64 {
    if now >= start {
        (now - start) as u64
    } else {
        0
    }
}

impl Room {
    /// The room is consistent: one slot per seat, a seated host, and a
    /// game (when there is one) for exactly these seats.
    pub open spec fn wf(&self) -> bool {
        &&& self.players@.len() == self.num_players
        &&& 1 <= self.num_players <= 255
        &&& self.creator < self.num_players
        &&& !(self.players@[self.creator as int].slot_type is Empty)
        &&& self.phase == RoomPhase::Lobby ==> self.game is None
        &&& self.game matches Some(g) ==> g.wf() && g.num_players_model() == self.num_players
    }

    /// `other` is `self` with only the activity clock moved to `now`.
    pub open spec fn touched(&self, other: &Self, now: u64) -> bool {
        &&& other.last_activity == now
        &&& other.code == self.code
        &&& other.phase == self.phase
        &&& other.num_players == self.num_players
        &&& other.rules_name == self.rules_name
        &&& other.creator == self.creator
        &&& other.players == self.players
        &&& other.game == self.game
        &&& other.last_winners == self.last_winners
        &&& other.turn_timer_secs == self.turn_timer_secs
        &&& other.turn_start == self.turn_start
        &&& other.outbox == self.outbox
    }

    /// A lobby with the creator in seat 0 and every other seat empty.
    pub fn new(code: String, creator_name: String, num_players: usize, rules: Option<String>, now: u64) -> (r: Self)
        requires
            1 <= num_players <= 255,
        ensures
            r.wf(),
            r.code == code,
            r.phase == RoomPhase::Lobby,
            r.num_players == num_players,
            r.rules_name@ == (match rules {
                Some(name) => name@,
                None => "Standard"@,
            }),
            r.creator == 0,
            r.players@[0].name == creator_name,
            r.players@[0].slot_type is Human,
            r.players@[0].session_token is None,
            !r.players@[0].connected,
            r.players@[0].disconnected_at is None,
            forall|i: int| 1 <= i < num_players ==> is_empty_slot(#[trigger] r.players@[i]),
            r.game is None,
            r.last_activity == now,
            r.last_winners@.len() == 0,
            r.turn_timer_secs == Some(DEFAULT_TURN_TIMER_SECS),
            r.turn_start is None,
            r.outbox@.len() == 0,
    {
        let rules_name = match rules {
            Some(name) => name,
            None => "Standard".to_owned(),
        };
        let mut players: Vec<PlayerSlot> = Vec::new();
        players.push(
            PlayerSlot {
                name: creator_name,
                slot_type: PlayerSlotType::Human,
                session_token: None,
                connected: false,
                disconnected_at: None,
            },
        );
        let mut i: usize = 1;
        while i < num_players
            invariant
                1 <= i <= num_players,
                players@.len() == i,
                players@[0].name == creator_name,
                players@[0].slot_type is Human,
                players@[0].session_token is None,
                !players@[0].connected,
                players@[0].disconnected_at is None,
                forall|k: int| 1 <= k < i ==> is_empty_slot(#[trigger] players@[k]),
            decreases num_players - i,
        {
            players.push(PlayerSlot::empty());
            i = i + 1;
        }
        Room {
            code,
            phase: RoomPhase::Lobby,
            num_players,
            rules_name,
            creator: 0,
            players,
            game: None,
            last_activity: now,
            last_winners: Vec::new(),
            turn_timer_secs: Some(DEFAULT_TURN_TIMER_SECS),
            turn_start: None,
            outbox: Vec::new(),
        }
    }

    /// Records activity at `now`.
    pub fn touch(&mut self, now: u64)
        ensures
            old(self).touched(final(self), now),
    {
        self.last_activity = now;
    }

    pub fn phase_label(&self) -> (r: &'static str)
        ensures
            r@ == phase_text(self.phase),
    {
        match self.phase {
            RoomPhase::Lobby => "lobby",
            RoomPhase::InGame => "in_game",
            RoomPhase::GameOver => "game_over",
        }
    }

    /// The seat a newcomer takes: the first empty seat, else the first bot
    /// seat, else none.
    pub fn next_available_slot(&self) -> (r: Option<usize>)
        ensures
            r == (match first_seat(self.players@, false, self.players@.len() as int) {
                Some(i) => Some(i),
                None => first_seat(self.players@, true, self.players@.len() as int),
            }),
    {
        let mut i: usize = 0;
        while i < self.players.len()
            invariant
                i <= self.players@.len(),
                first_seat(self.players@, false, i as int) is None,
            decreases self.players@.len() - i,
        {
            if let PlayerSlotType::Empty = self.players[i].slot_type {
                proof {
                    lemma_first_seat_stable(self.players@, false, i + 1, self.players@.len() as int);
                }
                return Some(i);
            }
            i = i + 1;
        }
        let mut j: usize = 0;
        while j < self.players.len()
            invariant
                j <= self.players@.len(),
                first_seat(self.players@, true, j as int) is None,
                first_seat(self.players@, false, self.players@.len() as int) is None,
            decreases self.players@.len() - j,
        {
            if let PlayerSlotType::Bot { .. } = self.players[j].slot_type {
                proof {
                    lemma_first_seat_stable(self.players@, true, j + 1, self.players@.len() as int);
                }
                return Some(j);
            }
            j = j + 1;
        }
        None
    }

    /// Every seat is taken, by a human or a bot.
    pub fn all_slots_filled(&self) -> (r: bool)
        ensures
            r == (forall|i: int| 0 <= i < self.players@.len() ==> !(#[trigger] self.players@[i].slot_type is Empty)),
    {
        let mut i: usize = 0;
        while i < self.players.len()
            invariant
                i <= self.players@.len(),
                forall|k: int| 0 <= k < i ==> !(#[trigger] self.players@[k].slot_type is Empty),
            decreases self.players@.len() - i,
        {
            if let PlayerSlotType::Empty = self.players[i].slot_type {
                return false;
            }
            i = i + 1;
        }
        true
    }
}


/// The highest seat in `lo..hi` that is not empty.
pub open spec fn highest_occupied(players: Seq<PlayerSlot>, lo: int, hi: int) -> Option<int>
    decreases hi - lo,
{
    if hi <= lo {
        None
    } else if !(players[hi - 1].slot_type is Empty) {
        Some(hi - 1)
    } else {
        highest_occupied(players, lo, hi - 1)
    }
}

/// The first connected human seat other than `creator` below `k`.
pub open spec fn first_connected_human(players: Seq<PlayerSlot>, creator: usize, k: int) -> Option<usize>
    decreases k,
{
    if k <= 0 {
        None
    } else {
        match first_connected_human(players, creator, k - 1) {
            Some(i) => Some(i),
            None => if k - 1 != creator && players[k - 1].connected && players[k - 1].slot_type is Human {
                Some((k - 1) as usize)
            } else {
                None
            },
        }
    }
}

/// Seat `i` has been away for at least `timeout` seconds at `now`, is
/// held by a human, and is not the host's.
pub open spec fn kick_due(r: &Room, i: int, timeout: u64, now: u64) -> bool {
    &&& i != r.creator
    &&& r.players@[i].slot_type is Human
    &&& r.players@[i].disconnected_at matches Some(t) && elapsed(t, now) >= timeout
}

/// The text of a session token, if any.
pub open spec fn token_text(t: Option<SessionToken>) -> Option<Seq<char>> {
    match t {
        Some(tok) => Some(tok@),
        None => None,
    }
}

pub open spec fn opt_text(t: Option<String>) -> Option<Seq<char>> {
    match t {
        Some(s) => Some(s@),
        None => None,
    }
}

fn token_string(t: &Option<SessionToken>) -> (r: Option<String>)
    ensures
        opt_text(r) == token_text(*t),
{
    match t {
        Some(tok) => Some(tok.as_str().to_owned()),
        None => None,
    }
}

/// `r` is the error `msg`.
pub open spec fn refused<T>(r: Result<T, String>, msg: Seq<char>) -> bool {
    r matches Err(e) && e@ == msg
}

fn lobby_error(msg: &str) -> (r: Result<(), String>)
    ensures
        refused(r, msg@),
{
    Err(msg.to_owned())
}

impl Room {
    /// `other` is `self` with seat `slot` replaced by `s` and the activity
    /// clock moved to `now`.
    pub open spec fn reseated(&self, other: &Self, slot: int, s: PlayerSlot, now: u64) -> bool {
        &&& other.players@ == self.players@.update(slot, s)
        &&& other.last_activity == now
        &&& other.code == self.code
        &&& other.phase == self.phase
        &&& other.num_players == self.num_players
        &&& other.rules_name == self.rules_name
        &&& other.creator == self.creator
        &&& other.game == self.game
        &&& other.last_winners == self.last_winners
        &&& other.turn_timer_secs == self.turn_timer_secs
        &&& other.turn_start == self.turn_start
    }

    /// What `configure_slot` does: `after` is `before` once it ran and answered `r`.
    pub open spec fn slot_configured(before: &Room, after: &Room, slot: usize, player_type: Seq<char>, now: u64, r: Result<(), String>) -> bool {
        &&& (before.phase != RoomPhase::Lobby ==> refused(r, "Cannot configure slots during game"@) && *after == *before)
        &&& (before.phase == RoomPhase::Lobby && slot >= before.num_players ==> refused(r, "Invalid slot"@) && *after == *before)
        &&& (before.phase == RoomPhase::Lobby && slot < before.num_players ==> {
                let human = before.players@[slot as int].slot_type is Human;
                if player_type == "Empty"@ {
                    if slot == before.creator {
                        refused(r, "Cannot remove the creator"@) && *after == *before
                    } else if human {
                        refused(r, "Use KickPlayer to remove a human player"@) && *after == *before
                    } else {
                        r is Ok && is_empty_slot(after.players@[slot as int]) && before.reseated(
                            after,
                            slot as int,
                            after.players@[slot as int],
                            now,
                        ) && after.outbox == before.outbox
                    }
                } else if 4 <= player_type.len() && player_type.subrange(0, 4) == "Bot:"@ {
                    let strategy = player_type.subrange(4, player_type.len() as int);
                    if !(exists|k: crate::strategies::StrategyKind| kind_name(k) == strategy) {
                        refused(r, "unknown strategy: "@ + strategy) && *after == *before
                    } else if human {
                        refused(r, "Use KickPlayer to remove a human before assigning a bot"@) && *after == *before
                    } else {
                        let seat = after.players@[slot as int];
                        &&& r is Ok
                        &&& seat.name@ == "Bot ("@ + strategy + ")"@
                        &&& seat.slot_type matches PlayerSlotType::Bot { strategy: st } && st@ == strategy
                        &&& seat.session_token is None
                        &&& !seat.connected
                        &&& seat.disconnected_at is None
                        &&& before.reseated(after, slot as int, seat, now)
                        &&& after.outbox == before.outbox
                    }
                } else {
                    refused(r, "Unknown player type: "@ + player_type) && *after == *before
                }
            })
    }

    /// Sets seat `slot` to "Empty", or to a bot with `"Bot:<strategy>"`.
    /// Only in the lobby; the host's seat cannot be emptied and a human
    /// must be kicked rather than replaced.
    pub fn configure_slot(&mut self, slot: usize, player_type: &str, now: u64) -> (r: Result<(), String>)
        requires
            old(self).wf(),
        ensures
            final(self).wf(),
            Self::slot_configured(old(self), final(self), slot, player_type@, now, r),
    {
        if self.phase != RoomPhase::Lobby {
            return lobby_error("Cannot configure slots during game");
        }
        if slot >= self.num_players {
            return lobby_error("Invalid slot");
        }
        let human = match self.players[slot].slot_type {
            PlayerSlotType::Human => true,
            _ => false,
        };
        if crate::text::str_eq(player_type, "Empty") {
            if slot == self.creator {
                return lobby_error("Cannot remove the creator");
            }
            if human {
                return lobby_error("Use KickPlayer to remove a human player");
            }
            self.players.set(slot, PlayerSlot::empty());
        } else if has_prefix(player_type, "Bot:") {
            proof {
                reveal_strlit("Bot:");
            }
            let strategy = player_type.substring_char(4, player_type.unicode_len());
            match make_strategy(strategy) {
                Ok(_) => {},
                Err(e) => {
                    return Err(e);
                },
            }
            if human {
                return lobby_error("Use KickPlayer to remove a human before assigning a bot");
            }
            let name = joined(joined("Bot (", strategy).as_str(), ")");
            self.players.set(
                slot,
                PlayerSlot {
                    name,
                    slot_type: PlayerSlotType::Bot { strategy: strategy.to_owned() },
                    session_token: None,
                    connected: false,
                    disconnected_at: None,
                },
            );
        } else {
            return Err(joined("Unknown player type: ", player_type));
        }
        self.touch(now);
        Ok(())
    }

    /// What `set_rules` does: `after` is `before` once it ran and answered `r`.
    pub open spec fn rules_set(before: &Room, after: &Room, rules: Seq<char>, now: u64, r: Result<(), String>) -> bool {
        &&& (before.phase != RoomPhase::Lobby ==> refused(r, "Cannot change rules during game"@) && *after == *before)
        &&& (before.phase == RoomPhase::Lobby && !(rules == "Standard"@ || rules == ""@) ==> refused(r, "unknown rules variant: "@ + rules) && *after == *before)
        &&& (before.phase == RoomPhase::Lobby && (rules == "Standard"@ || rules == ""@) ==> r is Ok
                && after.rules_name@ == rules && after.last_activity == now && after.players
                == before.players && after.phase == before.phase && after.creator == before.creator && after.num_players == before.num_players && after.game == before.game
                && after.outbox == before.outbox)
    }

    /// Chooses the rule set by name; only in the lobby, and only a name
    /// `make_rules` accepts.
    pub fn set_rules(&mut self, rules: &str, now: u64) -> (r: Result<(), String>)
        requires
            old(self).wf(),
        ensures
            final(self).wf(),
            Self::rules_set(old(self), final(self), rules@, now, r),
    {
        if self.phase != RoomPhase::Lobby {
            return lobby_error("Cannot change rules during game");
        }
        match make_rules(rules) {
            Ok(_) => {},
            Err(e) => {
                return Err(e);
            },
        }
        self.rules_name = rules.to_owned();
        self.touch(now);
        Ok(())
    }

    /// What `set_num_players` does: `after` is `before` once it ran and answered `r`.
    pub open spec fn player_count_set(before: &Room, after: &Room, num_players: usize, now: u64, r: Result<(), String>) -> bool {
        &&& (before.phase != RoomPhase::Lobby ==> refused(r, "Cannot change player count during game"@) && *after == *before)
        &&& (before.phase == RoomPhase::Lobby && !(2 <= num_players <= 4) ==> refused(r, "Player count must be 2-4"@) && *after == *before)
        &&& (before.phase == RoomPhase::Lobby && 2 <= num_players <= 4 ==> match highest_occupied(
                before.players@,
                num_players as int,
                before.num_players as int,
            ) {
                Some(i) => refused(r, "Cannot reduce to "@ + decimal(num_players as nat)
                    + " players: slot "@ + decimal((i + 1) as nat) + " is occupied"@) && *after == *before,
                None => {
                    &&& r is Ok
                    &&& after.num_players == num_players
                    &&& after.players@.len() == num_players
                    &&& forall|i: int|
                        0 <= i < num_players ==> if i < before.num_players {
                            #[trigger] after.players@[i] == before.players@[i]
                        } else {
                            is_empty_slot(after.players@[i])
                        }
                    &&& after.last_activity == now
                    &&& after.phase == before.phase
                    &&& after.creator == before.creator
                    &&& after.game == before.game
                    &&& after.outbox == before.outbox
                },
            })
    }

    /// Changes the number of seats (2 to 4) in the lobby: new seats are
    /// empty; seats removed must be empty.
    pub fn set_num_players(&mut self, num_players: usize, now: u64) -> (r: Result<(), String>)
        requires
            old(self).wf(),
        ensures
            final(self).wf(),
            Self::player_count_set(old(self), final(self), num_players, now, r),
    {
        if self.phase != RoomPhase::Lobby {
            return lobby_error("Cannot change player count during game");
        }
        if !(2 <= num_players && num_players <= 4) {
            return lobby_error("Player count must be 2-4");
        }
        let ghost p0 = self.players@;
        if num_players > self.num_players {
            let mut k: usize = self.num_players;
            while k < num_players
                invariant
                    old(self).num_players <= k <= num_players,
                    old(self).wf(),
                    p0 == old(self).players@,
                    self.players@.len() == k,
                    self.num_players == old(self).num_players,
                    self.phase == old(self).phase,
                    self.creator == old(self).creator,
                    self.game == old(self).game,
                    self.outbox == old(self).outbox,
                    forall|i: int| 0 <= i < old(self).num_players ==> #[trigger] self.players@[i] == p0[i],
                    forall|i: int| old(self).num_players <= i < k ==> is_empty_slot(#[trigger] self.players@[i]),
                decreases num_players - k,
            {
                self.players.push(PlayerSlot::empty());
                k = k + 1;
            }
        } else if num_players < self.num_players {
            let mut i: usize = self.num_players;
            while i > num_players
                invariant
                    num_players <= i <= old(self).num_players,
                    *self == *old(self),
                    self.wf(),
                    p0 == self.players@,
                    self.phase == RoomPhase::Lobby,
                    2 <= num_players <= 4,
                    highest_occupied(p0, num_players as int, i as int) == highest_occupied(
                        p0,
                        num_players as int,
                        old(self).num_players as int,
                    ),
                decreases i,
            {
                match self.players[i - 1].slot_type {
                    PlayerSlotType::Empty => {},
                    _ => {
                        let msg = joined(
                            joined(
                                joined(
                                    joined("Cannot reduce to ", usize_text(num_players).as_str()).as_str(),
                                    " players: slot ",
                                ).as_str(),
                                usize_text(i).as_str(),
                            ).as_str(),
                            " is occupied",
                        );
                        return Err(msg);
                    },
                }
                i = i - 1;
            }
            proof {
                lemma_none_occupied(p0, num_players as int, old(self).num_players as int);
            }
            self.players.truncate(num_players);
        }
        self.num_players = num_players;
        self.touch(now);
        Ok(())
    }

    /// What `set_turn_timer` does: `after` is `before` once it ran and answered `r`.
    pub open spec fn turn_timer_set(before: &Room, after: &Room, secs: Option<u64>, now: u64, r: Result<(), String>) -> bool {
        &&& (before.phase != RoomPhase::Lobby ==> refused(r, "Cannot change turn timer during game"@) && *after == *before)
        &&& (before.phase == RoomPhase::Lobby && secs == Some(0u64) ==> refused(r, "Turn timer must be positive"@) && *after == *before)
        &&& (before.phase == RoomPhase::Lobby && secs != Some(0u64) ==> r is Ok && after.turn_timer_secs
                == secs && after.last_activity == now && after.players == before.players
                && after.phase == before.phase && after.creator == before.creator
                && after.game == before.game && after.outbox == before.outbox)
    }

    /// Sets (or clears) the per-decision timer, in the lobby only; a timer
    /// must be positive.
    pub fn set_turn_timer(&mut self, secs: Option<u64>, now: u64) -> (r: Result<(), String>)
        requires
            old(self).wf(),
        ensures
            final(self).wf(),
            Self::turn_timer_set(old(self), final(self), secs, now, r),
    {
        if self.phase != RoomPhase::Lobby {
            return lobby_error("Cannot change turn timer during game");
        }
        if let Some(0) = secs {
            return lobby_error("Turn timer must be positive");
        }
        self.turn_timer_secs = secs;
        self.touch(now);
        Ok(())
    }

    /// What `kick_player` does: `after` is `before` once it ran and answered `r`.
    pub open spec fn player_kicked(before: &Room, after: &Room, slot: usize, now: u64, r: Result<Option<String>, String>) -> bool {
        &&& (before.phase != RoomPhase::Lobby ==> refused(r, "Cannot kick players during game"@) && *after == *before)
        &&& (before.phase == RoomPhase::Lobby && slot >= before.num_players ==> refused(r, "Invalid slot"@) && *after == *before)
        &&& (before.phase == RoomPhase::Lobby && slot < before.num_players && slot == before.creator ==> refused(r, "Cannot kick the room creator"@) && *after == *before)
        &&& (before.phase == RoomPhase::Lobby && slot < before.num_players && slot != before.creator
                && before.players@[slot as int].slot_type is Empty ==> refused(r, "Slot is already empty"@) && *after == *before)
        &&& (before.phase == RoomPhase::Lobby && slot < before.num_players && slot != before.creator
                && !(before.players@[slot as int].slot_type is Empty) ==> {
                &&& r is Ok
                &&& opt_text(r->Ok_0) == token_text(before.players@[slot as int].session_token)
                &&& is_empty_slot(after.players@[slot as int])
                &&& before.reseated(after, slot as int, after.players@[slot as int], now)
                &&& after.outbox@.len() == before.outbox@.len() + 1
                &&& after.outbox@.subrange(0, before.outbox@.len() as int) == before.outbox@
                &&& after.outbox@.last().0 == slot
                &&& after.outbox@.last().1 matches ServerMessage::Kicked { reason } && reason@
                    == "You were kicked by the room host"@
            })
    }

    /// Removes the occupant of `slot` (lobby only, not the host, not an
    /// empty seat), tells them so, and returns their session token.
    pub fn kick_player(&mut self, slot: usize, now: u64) -> (r: Result<Option<String>, String>)
        requires
            old(self).wf(),
        ensures
            final(self).wf(),
            Self::player_kicked(old(self), final(self), slot, now, r),
    {
        if self.phase != RoomPhase::Lobby {
            return Err("Cannot kick players during game".to_owned());
        }
        if slot >= self.num_players {
            return Err("Invalid slot".to_owned());
        }
        if slot == self.creator {
            return Err("Cannot kick the room creator".to_owned());
        }
        if let PlayerSlotType::Empty = self.players[slot].slot_type {
            return Err("Slot is already empty".to_owned());
        }
        let token = token_string(&self.players[slot].session_token);
        self.outbox.push((slot, ServerMessage::Kicked { reason: "You were kicked by the room host".to_owned() }));
        self.players.set(slot, PlayerSlot::empty());
        self.touch(now);
        assert(self.outbox@.subrange(0, old(self).outbox@.len() as int) =~= old(self).outbox@);
        Ok(token)
    }

    /// What `promote_host` does: `after` is `before` once it ran and answered `r`.
    pub open spec fn host_promoted(before: &Room, after: &Room, slot: usize, now: u64, r: Result<(), String>) -> bool {
        &&& (slot >= before.num_players ==> refused(r, "Invalid slot"@) && *after == *before)
        &&& (slot < before.num_players && !(before.players@[slot as int].slot_type is Human) ==> refused(r, "Can only promote human players"@) && *after == *before)
        &&& (slot < before.num_players && before.players@[slot as int].slot_type is Human ==> r is Ok
                && after.creator == slot && after.last_activity == now && after.players == before.players && after.phase == before.phase && after.game == before.game
                && after.outbox == before.outbox)
    }

    /// Makes the human in `slot` the host.
    pub fn promote_host(&mut self, slot: usize, now: u64) -> (r: Result<(), String>)
        requires
            old(self).wf(),
        ensures
            final(self).wf(),
            Self::host_promoted(old(self), final(self), slot, now, r),
    {
        if slot >= self.num_players {
            return lobby_error("Invalid slot");
        }
        match self.players[slot].slot_type {
            PlayerSlotType::Human => {},
            _ => {
                return lobby_error("Can only promote human players");
            },
        }
        self.creator = slot;
        self.touch(now);
        Ok(())
    }

    /// When the host is disconnected, hands the host role to the first
    /// connected human; returns whether the host changed.
    pub fn auto_promote_host(&mut self, now: u64) -> (r: bool)
        requires
            old(self).wf(),
        ensures
            final(self).wf(),
            old(self).players@[old(self).creator as int].connected ==> !r && *final(self) == *old(self),
            !old(self).players@[old(self).creator as int].connected ==> match first_connected_human(
                old(self).players@,
                old(self).creator,
                old(self).num_players as int,
            ) {
                Some(i) => r && final(self).creator == i && final(self).last_activity == now && final(self).players
                    == old(self).players && final(self).phase == old(self).phase && final(self).game == old(
                    self,
                ).game && final(self).outbox == old(self).outbox,
                None => !r && *final(self) == *old(self),
            },
    {
        if self.players[self.creator].connected {
            return false;
        }
        let mut i: usize = 0;
        while i < self.num_players
            invariant
                i <= self.num_players,
                *self == *old(self),
                self.wf(),
                !self.players@[self.creator as int].connected,
                first_connected_human(self.players@, self.creator, i as int) is None,
            decreases self.num_players - i,
        {
            let seat = &self.players[i];
            let human = match seat.slot_type {
                PlayerSlotType::Human => true,
                _ => false,
            };
            if i != self.creator && seat.connected && human {
                proof {
                    lemma_first_human_stable(self.players@, self.creator, i + 1, self.num_players as int);
                }
                self.creator = i;
                self.touch(now);
                return true;
            }
            i = i + 1;
        }
        false
    }

    /// In the lobby, empties every non-host human seat whose occupant has
    /// been away for at least `timeout` seconds, tells each of them, and
    /// returns `(seat, session token)` for each, in seat order.
    pub fn auto_kick_disconnected(&mut self, timeout: u64, now: u64) -> (r: Vec<(usize, Option<String>)>)
        requires
            old(self).wf(),
        ensures
            final(self).wf(),
            old(self).phase != RoomPhase::Lobby ==> r@.len() == 0 && *final(self) == *old(self),
            old(self).phase == RoomPhase::Lobby ==> {
                &&& final(self).players@.len() == old(self).players@.len()
                &&& forall|i: int|
                    0 <= i < old(self).num_players ==> if kick_due(old(self), i, timeout, now) {
                        is_empty_slot(#[trigger] final(self).players@[i])
                    } else {
                        final(self).players@[i] == old(self).players@[i]
                    }
                &&& forall|k: int|
                    0 <= k < r@.len() ==> kick_due(old(self), (#[trigger] r@[k]).0 as int, timeout, now)
                        && opt_text(r@[k].1) == token_text(old(self).players@[r@[k].0 as int].session_token)
                &&& forall|k1: int, k2: int| 0 <= k1 < k2 < r@.len() ==> (#[trigger] r@[k1]).0 < (#[trigger] r@[k2]).0
                &&& forall|i: int|
                    0 <= i < old(self).num_players && kick_due(old(self), i, timeout, now) ==> exists|k: int|
                        0 <= k < r@.len() && (#[trigger] r@[k]).0 == i
                &&& final(self).outbox@.len() == old(self).outbox@.len() + r@.len()
                &&& final(self).outbox@.subrange(0, old(self).outbox@.len() as int) == old(self).outbox@
                &&& forall|k: int|
                    0 <= k < r@.len() ==> (#[trigger] final(self).outbox@[old(self).outbox@.len() + k]).0 == r@[k].0
                        && final(self).outbox@[old(self).outbox@.len() + k].1 is Kicked
                &&& r@.len() > 0 ==> final(self).last_activity == now
                &&& r@.len() == 0 ==> final(self).last_activity == old(self).last_activity
                &&& final(self).phase == old(self).phase
                &&& final(self).creator == old(self).creator
                &&& final(self).num_players == old(self).num_players
                &&& final(self).game == old(self).game
            },
    {
        let mut kicked: Vec<(usize, Option<String>)> = Vec::new();
        if self.phase != RoomPhase::Lobby {
            return kicked;
        }
        let ghost r0 = *self;
        let mut i: usize = 0;
        while i < self.num_players
            invariant
                i <= self.num_players == r0.num_players,
                self.wf(),
                self.phase == r0.phase,
                self.creator == r0.creator,
                self.game == r0.game,
                self.last_activity == r0.last_activity,
                self.players@.len() == r0.players@.len(),
                forall|q: int|
                    0 <= q < i ==> if kick_due(&r0, q, timeout, now) {
                        is_empty_slot(#[trigger] self.players@[q])
                    } else {
                        self.players@[q] == r0.players@[q]
                    },
                forall|q: int| i <= q < r0.num_players ==> #[trigger] self.players@[q] == r0.players@[q],
                forall|k: int|
                    0 <= k < kicked@.len() ==> kick_due(&r0, (#[trigger] kicked@[k]).0 as int, timeout, now)
                        && opt_text(kicked@[k].1) == token_text(r0.players@[kicked@[k].0 as int].session_token)
                        && kicked@[k].0 < i,
                forall|k1: int, k2: int|
                    0 <= k1 < k2 < kicked@.len() ==> (#[trigger] kicked@[k1]).0 < (#[trigger] kicked@[k2]).0,
                forall|q: int|
                    0 <= q < i && kick_due(&r0, q, timeout, now) ==> exists|k: int|
                        0 <= k < kicked@.len() && (#[trigger] kicked@[k]).0 == q,
                self.outbox@.len() == r0.outbox@.len() + kicked@.len(),
                self.outbox@.subrange(0, r0.outbox@.len() as int) == r0.outbox@,
                forall|k: int|
                    0 <= k < kicked@.len() ==> (#[trigger] self.outbox@[r0.outbox@.len() + k]).0 == kicked@[k].0
                        && self.outbox@[r0.outbox@.len() + k].1 is Kicked,
            decreases self.num_players - i,
        {
            if i != self.creator {
                let due = match self.players[i].disconnected_at {
                    Some(dc_at) => (if now >= dc_at {
                        now - dc_at
                    } else {
                        0
                    }) >= timeout && match self.players[i].slot_type {
                        PlayerSlotType::Human => true,
                        _ => false,
                    },
                    None => false,
                };
                if due {
                    let token = token_string(&self.players[i].session_token);
                    let ghost kicked0 = kicked@;
                    self.outbox.push((i, ServerMessage::Kicked { reason: "Disconnected for too long".to_owned() }));
                    self.players.set(i, PlayerSlot::empty());
                    kicked.push((i, token));
                    proof {
                        assert forall|q: int|
                            0 <= q < i + 1 && kick_due(&r0, q, timeout, now) implies exists|k: int|
                            0 <= k < kicked@.len() && (#[trigger] kicked@[k]).0 == q by {
                            if q < i {
                                let k = choose|k: int| 0 <= k < kicked0.len() && (#[trigger] kicked0[k]).0 == q;
                                assert(kicked@[k].0 == q);
                            } else {
                                assert(kicked@[kicked@.len() - 1].0 == q);
                            }
                        }
                    }
                }
            }
            i = i + 1;
        }
        if kicked.len() > 0 {
            self.touch(now);
        }
        kicked
    }
}

proof fn lemma_none_occupied(players: Seq<PlayerSlot>, lo: int, hi: int)
    requires
        highest_occupied(players, lo, hi) is None,
    ensures
        forall|i: int| lo <= i < hi ==> (#[trigger] players[i]).slot_type is Empty,
    decreases hi - lo,
{
    if hi > lo {
        lemma_none_occupied(players, lo, hi - 1);
    }
}

proof fn lemma_first_human_stable(players: Seq<PlayerSlot>, creator: usize, k: int, n: int)
    requires
        0 <= k <= n,
        first_connected_human(players, creator, k) is Some,
    ensures
        first_connected_human(players, creator, n) == first_connected_human(players, creator, k),
    decreases n - k,
{
    if n > k {
        lemma_first_human_stable(players, creator, k, n - 1);
    }
}


/// The seat whose decision the game awaits, if it is still running.
pub open spec fn seat_to_move(g: Option<InteractiveGame>) -> Option<usize> {
    match g {
        Some(game) => match game.needed() {
            ActionNeeded::GameOver { .. } => None,
            ActionNeeded::ChooseCard { player, .. } => Some(player.0 as usize),
            ActionNeeded::ChooseMove { player, .. } => Some(player.0 as usize),
        },
        None => None,
    }
}

/// The seats, below `k`, that are connected (and held by a human when
/// `humans` is set), in seat order.
pub open spec fn listeners(players: Seq<PlayerSlot>, humans: bool, k: int) -> Seq<usize>
    decreases k,
{
    if k <= 0 {
        Seq::empty()
    } else if players[k - 1].connected && (!humans || players[k - 1].slot_type is Human) {
        listeners(players, humans, k - 1).push((k - 1) as usize)
    } else {
        listeners(players, humans, k - 1)
    }
}

/// The text a seat's occupant is recorded under in the game history.
pub open spec fn seat_label(s: PlayerSlot) -> Seq<char> {
    match s.slot_type {
        PlayerSlotType::Human => "Human"@,
        PlayerSlotType::Bot { strategy } => strategy@,
        PlayerSlotType::Empty => "Empty"@,
    }
}

/// The game accepts `action` from the seat to move.
pub open spec fn accepts(g: InteractiveGame, action: PlayerAction) -> bool {
    g.needed() is ChooseMove && action is PlayMove && g.needed()->ChooseMove_legal_moves@.contains(action->PlayMove_mv)
}

/// `h` is `g` after the seat to move plays `action` (the generator may have
/// moved on first, when a bot chose it).
pub open spec fn played(g: InteractiveGame, h: InteractiveGame, action: PlayerAction) -> bool {
    &&& action is PlayMove
    &&& exists|m: InteractiveGame|
        #[trigger] InteractiveGame::after_play(&m, &h, g.needed()->ChooseMove_card, action->PlayMove_mv) && same_game(
            &g,
            &m,
        )
}

fn seat_labels(players: &Vec<PlayerSlot>) -> (r: Vec<String>)
    ensures
        r@.len() == players@.len(),
        forall|i: int| 0 <= i < players@.len() ==> (#[trigger] r@[i])@ == seat_label(players@[i]),
{
    let mut out: Vec<String> = Vec::new();
    let mut i: usize = 0;
    while i < players.len()
        invariant
            i <= players@.len(),
            out@.len() == i,
            forall|k: int| 0 <= k < i ==> (#[trigger] out@[k])@ == seat_label(players@[k]),
        decreases players@.len() - i,
    {
        let label = match &players[i].slot_type {
            PlayerSlotType::Human => "Human".to_owned(),
            PlayerSlotType::Bot { strategy } => strategy.clone(),
            PlayerSlotType::Empty => "Empty".to_owned(),
        };
        out.push(label);
        i = i + 1;
    }
    out
}

fn seat_indices(winners: &Vec<PlayerId>) -> (r: Vec<usize>)
    ensures
        r@.len() == winners@.len(),
        forall|k: int| 0 <= k < winners@.len() ==> #[trigger] r@[k] == winners@[k].0 as usize,
{
    let mut out: Vec<usize> = Vec::new();
    let mut i: usize = 0;
    while i < winners.len()
        invariant
            i <= winners@.len(),
            out@.len() == i,
            forall|k: int| 0 <= k < i ==> #[trigger] out@[k] == winners@[k].0 as usize,
        decreases winners@.len() - i,
    {
        out.push(winners[i].0 as usize);
        i = i + 1;
    }
    out
}

impl Room {
    /// Starts a game with the given seed: only from the lobby with every
    /// seat taken and known rules. Seats carry "Human" or their bot's
    /// strategy name into the history.
    pub fn start_game_with_seed(&mut self, seed: u64, now: u64) -> (r: Result<(), String>)
        requires
            old(self).wf(),
        ensures
            final(self).wf(),
            old(self).phase != RoomPhase::Lobby ==> refused(r, "Game already started"@) && *final(self) == *old(self),
            old(self).phase == RoomPhase::Lobby && (exists|i: int|
                0 <= i < old(self).players@.len() && (#[trigger] old(self).players@[i]).slot_type is Empty)
                ==> refused(r, "Not all player slots are filled"@) && *final(self) == *old(self),
            r is Ok ==> {
                &&& old(self).phase == RoomPhase::Lobby
                &&& 2 <= old(self).num_players <= 4
                &&& final(self).phase == RoomPhase::InGame
                &&& final(self).game is Some
                &&& final(self).game->Some_0.hist().seed == seed
                &&& final(self).game->Some_0.hist().strategy_names@.len() == old(self).num_players
                &&& forall|i: int|
                    0 <= i < old(self).num_players ==> (#[trigger] final(self).game->Some_0.hist().strategy_names@[i])@
                        == seat_label(old(self).players@[i])
                &&& final(self).last_winners@.len() == 0
                &&& final(self).last_activity == now
                &&& final(self).players == old(self).players
                &&& final(self).creator == old(self).creator
                &&& final(self).outbox == old(self).outbox
            },
            old(self).phase == RoomPhase::Lobby && (forall|i: int|
                0 <= i < old(self).players@.len() ==> !(#[trigger] old(self).players@[i].slot_type is Empty)) && (
            old(self).rules_name@ == "Standard"@ || old(self).rules_name@ == ""@) && 2 <= old(self).num_players
                <= 4 ==> r is Ok,
    {
        if self.phase != RoomPhase::Lobby {
            return lobby_error("Game already started");
        }
        if !self.all_slots_filled() {
            return lobby_error("Not all player slots are filled");
        }
        let rules = match make_rules(self.rules_name.as_str()) {
            Ok(rules) => rules,
            Err(e) => {
                return Err(e);
            },
        };
        let names = seat_labels(&self.players);
        let ghost names_v = names;
        let game = match InteractiveGame::new_with_strategy_names(rules, names, seed) {
            Ok(game) => game,
            Err(e) => {
                return Err(e.message());
            },
        };
        self.game = Some(game);
        self.phase = RoomPhase::InGame;
        self.last_winners = Vec::new();
        self.touch(now);
        self.reset_turn_start(now);
        Ok(())
    }

    /// What `start_game` does: `after` is `before` once it ran and answered `r`.
    pub open spec fn game_started(before: &Room, after: &Room, now: u64, r: Result<(), String>) -> bool {
        &&& (before.phase != RoomPhase::Lobby ==> refused(r, "Game already started"@) && *after == *before)
        &&& (r is Ok ==> after.phase == RoomPhase::InGame && after.game is Some && after.players
                == before.players)
        &&& (before.phase == RoomPhase::Lobby && (forall|i: int|
                0 <= i < before.players@.len() ==> !(#[trigger] before.players@[i].slot_type is Empty)) && (
            before.rules_name@ == "Standard"@ || before.rules_name@ == ""@) && 2 <= before.num_players
                <= 4 ==> r is Ok)
    }

    /// Starts a game with a fresh random seed; see `start_game_with_seed`.
    pub fn start_game(&mut self, now: u64) -> (r: Result<(), String>)
        requires
            old(self).wf(),
        ensures
            final(self).wf(),
            Self::game_started(old(self), final(self), now, r),
    {
        let seed = crate::rng::random_seed();
        self.start_game_with_seed(seed, now)
    }

    /// What `play_again` does: `after` is `before` once it ran and answered `r`.
    pub open spec fn replay_prepared(before: &Room, after: &Room, now: u64, r: Result<(), String>) -> bool {
        &&& (before.phase != RoomPhase::GameOver ==> refused(r, "Game is not over"@) && *after == *before)
        &&& (before.phase == RoomPhase::GameOver ==> r is Ok && after.phase == RoomPhase::Lobby
                && after.game is None && after.turn_start is None && after.last_activity == now
                && after.players == before.players && after.last_winners == before.last_winners)
    }

    /// Leaves a finished game for the lobby.
    pub fn play_again(&mut self, now: u64) -> (r: Result<(), String>)
        requires
            old(self).wf(),
        ensures
            final(self).wf(),
            Self::replay_prepared(old(self), final(self), now, r),
    {
        if self.phase != RoomPhase::GameOver {
            return lobby_error("Game is not over");
        }
        self.game = None;
        self.phase = RoomPhase::Lobby;
        self.turn_start = None;
        self.touch(now);
        Ok(())
    }

    /// What `return_to_lobby` does: `after` is `before` once it ran and answered `r`.
    pub open spec fn returned_to_lobby(before: &Room, after: &Room, now: u64, r: Result<(), String>) -> bool {
        &&& (before.phase != RoomPhase::GameOver ==> refused(r, "Game is not over"@) && *after == *before)
        &&& (before.phase == RoomPhase::GameOver ==> r is Ok && after.phase == RoomPhase::Lobby
                && after.game is None && after.turn_start is None && after.last_activity == now
                && after.players == before.players && after.last_winners == before.last_winners)
    }

    /// Leaves a finished game for the lobby.
    pub fn return_to_lobby(&mut self, now: u64) -> (r: Result<(), String>)
        requires
            old(self).wf(),
        ensures
            final(self).wf(),
            Self::returned_to_lobby(old(self), final(self), now, r),
    {
        if self.phase != RoomPhase::GameOver {
            return lobby_error("Game is not over");
        }
        self.game = None;
        self.phase = RoomPhase::Lobby;
        self.turn_start = None;
        self.touch(now);
        Ok(())
    }

    /// The seat whose turn it is, if a game is running.
    pub fn current_player_index(&self) -> (r: Option<usize>)
        ensures
            r == seat_to_move(self.game),
    {
        match &self.game {
            None => None,
            Some(game) => match game.action_needed() {
                ActionNeeded::GameOver { .. } => None,
                ActionNeeded::ChooseCard { player, .. } => Some(player.0 as usize),
                ActionNeeded::ChooseMove { player, .. } => Some(player.0 as usize),
            },
        }
    }

    /// Whether the seat to move is a bot.
    pub fn is_current_player_bot(&self) -> (r: bool)
        requires
            self.wf(),
        ensures
            r == (seat_to_move(self.game) matches Some(i) && self.players@[i as int].slot_type is Bot),
    {
        match self.current_player_index() {
            Some(idx) => {
                proof {
                    crate::interactive::lemma_running_game_offers_legal_moves(&self.game->Some_0);
                }
                match self.players[idx].slot_type {
                    PlayerSlotType::Bot { .. } => true,
                    _ => false,
                }
            },
            None => false,
        }
    }

    /// Starts the turn clock when the seat to move is a human and a timer
    /// is set; clears it otherwise.
    pub fn reset_turn_start(&mut self, now: u64)
        requires
            old(self).wf(),
        ensures
            final(self).wf(),
            final(self).turn_start == (if old(self).turn_timer_secs is Some && old(self).phase == RoomPhase::InGame
                && seat_to_move(old(self).game) is Some && old(self).players@[seat_to_move(
                old(self).game,
            )->Some_0 as int].slot_type is Human {
                Some(now)
            } else {
                None::<u64>
            }),
            final(self).code == old(self).code,
            final(self).phase == old(self).phase,
            final(self).num_players == old(self).num_players,
            final(self).rules_name == old(self).rules_name,
            final(self).creator == old(self).creator,
            final(self).players == old(self).players,
            final(self).game == old(self).game,
            final(self).last_activity == old(self).last_activity,
            final(self).last_winners == old(self).last_winners,
            final(self).turn_timer_secs == old(self).turn_timer_secs,
            final(self).outbox == old(self).outbox,
    {
        if self.turn_timer_secs.is_none() || self.phase != RoomPhase::InGame {
            self.turn_start = None;
            return;
        }
        match self.current_player_index() {
            Some(idx) => {
                proof {
                    crate::interactive::lemma_running_game_offers_legal_moves(&self.game->Some_0);
                }
                match self.players[idx].slot_type {
                    PlayerSlotType::Human => {
                        self.turn_start = Some(now);
                    },
                    _ => {
                        self.turn_start = None;
                    },
                }
            },
            None => {
                self.turn_start = None;
            },
        }
    }

    /// Moves a finished game's result into the room.
    fn check_game_over(&mut self)
        requires
            old(self).wf(),
            old(self).phase != RoomPhase::Lobby,
        ensures
            final(self).wf(),
            final(self).phase != RoomPhase::Lobby,
            old(self).game matches Some(g) && g.needed() is GameOver ==> {
                &&& final(self).phase == RoomPhase::GameOver
                &&& final(self).last_winners@.len() == old(self).game->Some_0.needed()->GameOver_winners@.len()
                &&& forall|k: int|
                    0 <= k < final(self).last_winners@.len() ==> #[trigger] final(self).last_winners@[k]
                        == old(self).game->Some_0.needed()->GameOver_winners@[k].0 as usize
                &&& final(self).turn_start is None
            },
            !(old(self).game matches Some(g) && g.needed() is GameOver) ==> *final(self) == *old(self),
            final(self).game == old(self).game,
            final(self).players == old(self).players,
            final(self).turn_timer_secs == old(self).turn_timer_secs,
            final(self).last_activity == old(self).last_activity,
            final(self).creator == old(self).creator,
            final(self).outbox == old(self).outbox,
    {
        let winners = match &self.game {
            Some(game) => match game.action_needed() {
                ActionNeeded::GameOver { winners, .. } => Some(seat_indices(winners)),
                _ => None,
            },
            None => None,
        };
        if let Some(w) = winners {
            self.phase = RoomPhase::GameOver;
            self.last_winners = w;
            self.turn_start = None;
        }
    }

    /// What `apply_human_action` does: `after` is `before` once it ran and answered `r`.
    pub open spec fn human_action_applied(before: &Room, after: &Room, player_index: usize, action: PlayerAction, now: u64, r: Result<(), String>) -> bool {
        &&& (before.game is None ==> refused(r, "No active game"@) && *after == *before)
        &&& (before.game matches Some(g) && g.needed() is GameOver ==> refused(r, "Game is over"@) && *after
                == *before)
        &&& (seat_to_move(before.game) is Some && seat_to_move(before.game)->Some_0 != player_index ==> refused(
                r,
                "Not your turn: expected player "@ + decimal(seat_to_move(before.game)->Some_0 as nat) + ", got "@
                    + decimal(player_index as nat),
            ) && *after == *before)
        &&& (r is Ok ==> {
                &&& seat_to_move(before.game) == Some(player_index)
                &&& accepts(before.game->Some_0, action)
                &&& after.game is Some
                &&& played(before.game->Some_0, after.game->Some_0, action)
                &&& after.last_activity == now
                &&& after.players == before.players
            })
        &&& (seat_to_move(before.game) == Some(player_index) && accepts(before.game->Some_0, action) ==> r is Ok)
    }

    /// Applies a human's `action` for seat `player_index`, which must be the
    /// seat to move.
    pub fn apply_human_action(&mut self, player_index: usize, action: PlayerAction, now: u64) -> (r: Result<(), String>)
        requires
            old(self).wf(),
        ensures
            final(self).wf(),
            Self::human_action_applied(old(self), final(self), player_index, action, now, r),
    {
        if self.game.is_none() {
            return lobby_error("No active game");
        }
        let mut game = self.game.take().unwrap();
        let current = match game.action_needed() {
            ActionNeeded::GameOver { .. } => None,
            ActionNeeded::ChooseCard { player, .. } => Some(player.0 as usize),
            ActionNeeded::ChooseMove { player, .. } => Some(player.0 as usize),
        };
        let current = match current {
            Some(c) => c,
            None => {
                self.game = Some(game);
                return lobby_error("Game is over");
            },
        };
        if current != player_index {
            self.game = Some(game);
            return Err(
                joined(
                    joined(joined("Not your turn: expected player ", usize_text(current).as_str()).as_str(), ", got ").as_str(),
                    usize_text(player_index).as_str(),
                ),
            );
        }
        proof {
            crate::interactive::lemma_running_game_offers_legal_moves(&game);
        }
        let res: Result<(), crate::error::SorryError> = match game.apply_action(action) {
            Ok(_) => Ok(()),
            Err(e) => Err(e),
        };
        self.game = Some(game);
        match res {
            Ok(()) => {},
            Err(e) => {
                return Err(e.message());
            },
        }
        self.touch(now);
        self.check_game_over();
        self.reset_turn_start(now);
        Ok(())
    }
}


/// The seconds left on a turn clock started at `start` with `timer`
/// seconds, at `now` (never below zero).
pub open spec fn time_left(timer: u64, start: u64, now: u64) -> u64 {
    if timer >= elapsed(start, now) {
        (timer - elapsed(start, now)) as u64
    } else {
        0
    }
}

/// The lobby's view of seat `i` at `now`.
pub open spec fn describes_seat(p: LobbyPlayer, i: int, s: PlayerSlot, now: u64) -> bool {
    &&& p.slot == i
    &&& p.name@ == s.name@
    &&& p.connected == s.connected
    &&& p.disconnect_secs == (match s.disconnected_at {
        Some(t) => Some(elapsed(t, now)),
        None => None::<u64>,
    })
    &&& match (p.player_type, s.slot_type) {
        (PlayerSlotType::Human, PlayerSlotType::Human) => true,
        (PlayerSlotType::Empty, PlayerSlotType::Empty) => true,
        (PlayerSlotType::Bot { strategy: a }, PlayerSlotType::Bot { strategy: b }) => a@ == b@,
        _ => false,
    }
}

/// The same occupant kind, bots compared by strategy name.
pub open spec fn same_kind(a: PlayerSlotType, b: PlayerSlotType) -> bool {
    match (a, b) {
        (PlayerSlotType::Human, PlayerSlotType::Human) => true,
        (PlayerSlotType::Empty, PlayerSlotType::Empty) => true,
        (PlayerSlotType::Bot { strategy: x }, PlayerSlotType::Bot { strategy: y }) => x@ == y@,
        _ => false,
    }
}

fn copy_slot_type(t: &PlayerSlotType) -> (r: PlayerSlotType)
    ensures
        same_kind(r, *t),
{
    match t {
        PlayerSlotType::Human => PlayerSlotType::Human,
        PlayerSlotType::Bot { strategy } => PlayerSlotType::Bot { strategy: strategy.clone() },
        PlayerSlotType::Empty => PlayerSlotType::Empty,
    }
}

fn copy_usizes(v: &Vec<usize>) -> (r: Vec<usize>)
    ensures
        r@ == v@,
{
    let mut out: Vec<usize> = Vec::new();
    let mut i: usize = 0;
    while i < v.len()
        invariant
            i <= v@.len(),
            out@ == v@.subrange(0, i as int),
        decreases v@.len() - i,
    {
        out.push(v[i]);
        i = i + 1;
    }
    assert(out@ =~= v@);
    out
}

impl Room {
    /// Plays the bot in the seat to move: asks its strategy for an action
    /// and applies it. Returns the seat and the action.
    pub fn apply_bot_action(&mut self, now: u64) -> (r: Result<(usize, PlayerAction), String>)
        requires
            old(self).wf(),
        ensures
            final(self).wf(),
            old(self).game is None ==> refused(r, "No active game"@) && *final(self) == *old(self),
            old(self).game matches Some(g) && g.needed() is GameOver ==> refused(r, "Game is over"@) && *final(self)
                == *old(self),
            seat_to_move(old(self).game) is Some && !(old(self).players@[seat_to_move(
                old(self).game,
            )->Some_0 as int].slot_type is Bot) ==> refused(r, "Current player is not a bot"@) && *final(self) == *old(
                self,
            ),
            seat_to_move(old(self).game) is Some && old(self).players@[seat_to_move(
                old(self).game,
            )->Some_0 as int].slot_type is Bot ==> {
                let strategy = old(self).players@[seat_to_move(old(self).game)->Some_0 as int].slot_type->Bot_strategy@;
                if exists|k: StrategyKind| kind_name(k) == strategy {
                    &&& r is Ok
                    &&& r->Ok_0.0 == seat_to_move(old(self).game)->Some_0
                    &&& accepts(old(self).game->Some_0, r->Ok_0.1)
                    &&& final(self).game is Some
                    &&& played(old(self).game->Some_0, final(self).game->Some_0, r->Ok_0.1)
                    &&& final(self).last_activity == now
                    &&& final(self).players == old(self).players
                } else {
                    refused(r, "unknown strategy: "@ + strategy)
                }
            },
    {
        if self.game.is_none() {
            return Err("No active game".to_owned());
        }
        let mut game = self.game.take().unwrap();
        let current = match game.action_needed() {
            ActionNeeded::GameOver { .. } => None,
            ActionNeeded::ChooseCard { player, .. } => Some(player.0 as usize),
            ActionNeeded::ChooseMove { player, .. } => Some(player.0 as usize),
        };
        let current = match current {
            Some(c) => c,
            None => {
                self.game = Some(game);
                return Err("Game is over".to_owned());
            },
        };
        proof {
            crate::interactive::lemma_running_game_offers_legal_moves(&game);
        }
        let strategy_name = match &self.players[current].slot_type {
            PlayerSlotType::Bot { strategy } => strategy.clone(),
            _ => {
                self.game = Some(game);
                return Err("Current player is not a bot".to_owned());
            },
        };
        let strategy = match make_strategy(strategy_name.as_str()) {
            Ok(k) => k,
            Err(e) => {
                self.game = Some(game);
                return Err(e);
            },
        };
        let action = match game.get_bot_action(&strategy) {
            Ok(a) => a,
            Err(e) => {
                self.game = Some(game);
                return Err(e.message());
            },
        };
        proof {
            crate::interactive::lemma_running_game_offers_legal_moves(&game);
        }
        let res: Result<(), crate::error::SorryError> = match game.apply_action(action) {
            Ok(_) => Ok(()),
            Err(e) => Err(e),
        };
        self.game = Some(game);
        match res {
            Ok(()) => {},
            Err(e) => {
                return Err(e.message());
            },
        }
        self.touch(now);
        self.check_game_over();
        self.reset_turn_start(now);
        Ok((current, action))
    }

    /// Seconds left on the turn clock at `now`, when one is running.
    pub fn turn_deadline_secs(&self, now: u64) -> (r: Option<u64>)
        ensures
            r == (match (self.turn_timer_secs, self.turn_start) {
                (Some(timer), Some(start)) => Some(time_left(timer, start, now)),
                _ => None::<u64>,
            }),
    {
        let timer = match self.turn_timer_secs {
            Some(t) => t,
            None => {
                return None;
            },
        };
        let start = match self.turn_start {
            Some(s) => s,
            None => {
                return None;
            },
        };
        let spent = if now >= start {
            now - start
        } else {
            0
        };
        Some(timer.saturating_sub(spent))
    }

    /// When the human to move has run out of time, plays a random legal
    /// move for them; returns the seat and the action when that happened.
    pub fn check_turn_timeout(&mut self, now: u64) -> (r: Result<Option<(usize, PlayerAction)>, String>)
        requires
            old(self).wf(),
        ensures
            final(self).wf(),
            !(old(self).turn_timer_secs is Some && old(self).turn_start is Some && elapsed(
                old(self).turn_start->Some_0,
                now,
            ) >= old(self).turn_timer_secs->Some_0) ==> r == Ok::<Option<(usize, PlayerAction)>, String>(None)
                && *final(self) == *old(self),
            old(self).turn_timer_secs is Some && old(self).turn_start is Some && elapsed(
                old(self).turn_start->Some_0,
                now,
            ) >= old(self).turn_timer_secs->Some_0 ==> {
                &&& old(self).game is None ==> refused(r, "No active game"@) && *final(self) == *old(self)
                &&& old(self).game is Some && old(self).game->Some_0.needed() is GameOver ==> r
                    == Ok::<Option<(usize, PlayerAction)>, String>(None) && *final(self) == *old(self)
                &&& seat_to_move(old(self).game) is Some ==> {
                    &&& r is Ok
                    &&& r->Ok_0 is Some
                    &&& r->Ok_0->Some_0.0 == seat_to_move(old(self).game)->Some_0
                    &&& accepts(old(self).game->Some_0, r->Ok_0->Some_0.1)
                    &&& final(self).game is Some
                    &&& played(old(self).game->Some_0, final(self).game->Some_0, r->Ok_0->Some_0.1)
                    &&& final(self).last_activity == now
                    &&& final(self).players == old(self).players
                }
            },
    {
        let timer = match self.turn_timer_secs {
            Some(t) => t,
            None => {
                return Ok(None);
            },
        };
        let start = match self.turn_start {
            Some(s) => s,
            None => {
                return Ok(None);
            },
        };
        let spent = if now >= start {
            now - start
        } else {
            0
        };
        if spent < timer {
            return Ok(None);
        }
        if self.game.is_none() {
            return Err("No active game".to_owned());
        }
        let mut game = self.game.take().unwrap();
        let current = match game.action_needed() {
            ActionNeeded::GameOver { .. } => None,
            ActionNeeded::ChooseCard { player, .. } => Some(player.0 as usize),
            ActionNeeded::ChooseMove { player, .. } => Some(player.0 as usize),
        };
        let current = match current {
            Some(c) => c,
            None => {
                self.game = Some(game);
                return Ok(None);
            },
        };
        proof {
            crate::interactive::lemma_running_game_offers_legal_moves(&game);
        }
        let action = match game.get_bot_action(&RandomStrategy) {
            Ok(a) => a,
            Err(e) => {
                self.game = Some(game);
                return Err(e.message());
            },
        };
        proof {
            crate::interactive::lemma_running_game_offers_legal_moves(&game);
        }
        let res: Result<(), crate::error::SorryError> = match game.apply_action(action) {
            Ok(_) => Ok(()),
            Err(e) => Err(e),
        };
        self.game = Some(game);
        match res {
            Ok(()) => {},
            Err(e) => {
                return Err(e.message());
            },
        }
        self.touch(now);
        self.check_game_over();
        self.reset_turn_start(now);
        Ok(Some((current, action)))
    }

    /// Seat `viewer`'s view of the game, if one is running.
    pub fn player_view(&self, viewer: usize) -> (r: Option<PlayerView>)
        requires
            self.wf(),
        ensures
            self.game is None ==> r is None,
            self.game is Some ==> r is Some && InteractiveGame::shows(
                &self.game->Some_0,
                r->Some_0,
                Some(PlayerId(viewer as u8)),
            ),
    {
        match &self.game {
            Some(game) => Some(game.get_player_view(PlayerId(viewer as u8))),
            None => None,
        }
    }

    /// `r` is what the lobby of `room` shows at `now`.
    pub open spec fn shows_lobby(room: &Room, now: u64, r: RoomLobbyState) -> bool {
        &&& r.room_code@ == room.code@
        &&& r.phase@ == phase_text(room.phase)
        &&& r.players@.len() == room.players@.len()
        &&& forall|i: int| 0 <= i < room.players@.len() ==> describes_seat(#[trigger] r.players@[i], i, room.players@[i], now)
        &&& r.num_players == room.num_players
        &&& r.rules@ == room.rules_name@
        &&& r.creator == room.creator
        &&& r.available_strategies@.len() == crate::strategies::all_kinds().len()
        &&& forall|k: int|
                0 <= k < r.available_strategies@.len() ==> (#[trigger] r.available_strategies@[k])@ == kind_name(
                    crate::strategies::all_kinds()[k],
                )
        &&& r.available_rules@.len() == 1
        &&& r.available_rules@[0]@ == "Standard"@
        &&& r.idle_timeout_secs == (if room.phase == RoomPhase::Lobby {
                Some(time_left(LOBBY_IDLE_SECS, room.last_activity, now))
            } else {
                None::<u64>
            })
        &&& r.turn_timer_secs == room.turn_timer_secs
        &&& r.last_winners@ == room.last_winners@
    }

    /// What the lobby shows at `now`.
    pub fn lobby_state(&self, now: u64) -> (r: RoomLobbyState)
        ensures
            Room::shows_lobby(self, now, r),
    {
        let mut players: Vec<LobbyPlayer> = Vec::new();
        let mut i: usize = 0;
        while i < self.players.len()
            invariant
                i <= self.players@.len(),
                players@.len() == i,
                forall|k: int| 0 <= k < i ==> describes_seat(#[trigger] players@[k], k, self.players@[k], now),
            decreases self.players@.len() - i,
        {
            let p = &self.players[i];
            let disconnect_secs = match p.disconnected_at {
                Some(t) => Some(
                    if now >= t {
                        now - t
                    } else {
                        0
                    },
                ),
                None => None,
            };
            players.push(
                LobbyPlayer {
                    slot: i,
                    name: p.name.clone(),
                    player_type: copy_slot_type(&p.slot_type),
                    connected: p.connected,
                    disconnect_secs,
                },
            );
            i = i + 1;
        }
        let idle_timeout_secs = if self.phase == RoomPhase::Lobby {
            let spent = if now >= self.last_activity {
                now - self.last_activity
            } else {
                0
            };
            Some(LOBBY_IDLE_SECS.saturating_sub(spent))
        } else {
            None
        };
        RoomLobbyState {
            room_code: self.code.clone(),
            phase: self.phase_label().to_owned(),
            players,
            num_players: self.num_players,
            rules: self.rules_name.clone(),
            creator: self.creator,
            available_strategies: available_strategies(),
            available_rules: available_rules(),
            idle_timeout_secs,
            turn_timer_secs: self.turn_timer_secs,
            last_winners: copy_usizes(&self.last_winners),
        }
    }
}


/// `m` announces the lobby of `room` at `now`.
pub open spec fn lobby_msg(room: &Room, now: u64, m: ServerMessage) -> bool {
    match m {
        ServerMessage::RoomState { state } => Room::shows_lobby(room, now, state),
        _ => false,
    }
}

/// `m` gives seat `seat` its view of `g`, with the turn clock `deadline`.
pub open spec fn view_msg(g: InteractiveGame, seat: usize, deadline: Option<u64>, m: ServerMessage) -> bool {
    match m {
        ServerMessage::GameState { state, turn_deadline_secs } => InteractiveGame::shows(
            &g,
            state,
            Some(PlayerId(seat as u8)),
        ) && turn_deadline_secs == deadline,
        _ => false,
    }
}

/// `m` tells seat `seat` that `player` timed out and `action` was played.
pub open spec fn timeout_msg(g: InteractiveGame, seat: usize, player: usize, action: PlayerAction, m: ServerMessage) -> bool {
    match m {
        ServerMessage::TimeoutAction { player: p, action: a, state } => p == player && a == action
            && InteractiveGame::shows(&g, state, Some(PlayerId(seat as u8))),
        _ => false,
    }
}

impl Room {
    /// `other` is `self` with `msgs` (as `(seat, message)`) queued.
    pub open spec fn queued(&self, other: &Self, seats: Seq<usize>) -> bool {
        &&& other.outbox@.len() == self.outbox@.len() + seats.len()
        &&& other.outbox@.subrange(0, self.outbox@.len() as int) == self.outbox@
        &&& forall|k: int| 0 <= k < seats.len() ==> (#[trigger] other.outbox@[self.outbox@.len() + k]).0 == seats[k]
        &&& other.code == self.code
        &&& other.phase == self.phase
        &&& other.num_players == self.num_players
        &&& other.rules_name == self.rules_name
        &&& other.creator == self.creator
        &&& other.players == self.players
        &&& other.game == self.game
        &&& other.last_activity == self.last_activity
        &&& other.last_winners == self.last_winners
        &&& other.turn_timer_secs == self.turn_timer_secs
        &&& other.turn_start == self.turn_start
    }

    /// What `broadcast_lobby_state` does: `after` is `before` once it ran.
    pub open spec fn lobby_broadcast(before: &Room, after: &Room, now: u64) -> bool {
        &&& (before.queued(after, listeners(before.players@, false, before.players@.len() as int)))
        &&& (forall|k: int|
                0 <= k < listeners(before.players@, false, before.players@.len() as int).len() ==> lobby_msg(
                    before,
                    now,
                    (#[trigger] after.outbox@[before.outbox@.len() + k]).1,
                ))
    }

    /// Sends the lobby state to every connected seat.
    pub fn broadcast_lobby_state(&mut self, now: u64)
        requires
            old(self).wf(),
        ensures
            final(self).wf(),
            Self::lobby_broadcast(old(self), final(self), now),
    {
        let ghost r0 = *self;
        assert(self.outbox@.subrange(0, r0.outbox@.len() as int) =~= r0.outbox@);
        let mut i: usize = 0;
        while i < self.players.len()
            invariant
                i <= self.players@.len(),
                self.wf(),
                r0.queued(self, listeners(r0.players@, false, i as int)),
                forall|k: int|
                    0 <= k < listeners(r0.players@, false, i as int).len() ==> lobby_msg(
                        &r0,
                        now,
                        (#[trigger] self.outbox@[r0.outbox@.len() + k]).1,
                    ),
            decreases self.players@.len() - i,
        {
            if self.players[i].connected {
                let state = self.lobby_state(now);
                self.outbox.push((i, ServerMessage::RoomState { state }));
            }
            proof {
                assert(self.outbox@.subrange(0, r0.outbox@.len() as int) =~= r0.outbox@);
            }
            i = i + 1;
        }
    }

    /// What `broadcast_game_state` does: `after` is `before` once it ran.
    pub open spec fn game_broadcast(before: &Room, after: &Room, now: u64) -> bool {
        &&& (before.game is None ==> *after == *before)
        &&& (before.game is Some ==> {
                let seats = listeners(before.players@, true, before.players@.len() as int);
                &&& before.queued(after, seats)
                &&& forall|k: int|
                    0 <= k < seats.len() ==> view_msg(
                        before.game->Some_0,
                        seats[k],
                        before.turn_deadline_spec(now),
                        (#[trigger] after.outbox@[before.outbox@.len() + k]).1,
                    )
            })
    }

    /// Sends every connected human their view of the game.
    pub fn broadcast_game_state(&mut self, now: u64)
        requires
            old(self).wf(),
        ensures
            final(self).wf(),
            Self::game_broadcast(old(self), final(self), now),
    {
        if self.game.is_none() {
            return;
        }
        let ghost r0 = *self;
        let deadline = self.turn_deadline_secs(now);
        assert(self.outbox@.subrange(0, r0.outbox@.len() as int) =~= r0.outbox@);
        let mut i: usize = 0;
        while i < self.players.len()
            invariant
                i <= self.players@.len(),
                self.wf(),
                self.game is Some,
                deadline == r0.turn_deadline_spec(now),
                r0.queued(self, listeners(r0.players@, true, i as int)),
                forall|k: int|
                    0 <= k < listeners(r0.players@, true, i as int).len() ==> view_msg(
                        r0.game->Some_0,
                        listeners(r0.players@, true, i as int)[k],
                        deadline,
                        (#[trigger] self.outbox@[r0.outbox@.len() + k]).1,
                    ),
            decreases self.players@.len() - i,
        {
            let human = match self.players[i].slot_type {
                PlayerSlotType::Human => true,
                _ => false,
            };
            if self.players[i].connected && human {
                let state = match &self.game {
                    Some(game) => game.get_player_view(PlayerId(i as u8)),
                    None => {
                        return;
                    },
                };
                self.outbox.push((i, ServerMessage::GameState { state, turn_deadline_secs: deadline }));
            }
            proof {
                assert(self.outbox@.subrange(0, r0.outbox@.len() as int) =~= r0.outbox@);
            }
            i = i + 1;
        }
    }

    /// What `broadcast_action` does: `after` is `before` once it ran.
    pub open spec fn action_broadcast(before: &Room, after: &Room, player: usize, action: PlayerAction, is_bot: bool, now: u64) -> bool {
        &&& (before.game is None ==> *after == *before)
        &&& (before.game is Some ==> {
                let seats = listeners(before.players@, true, before.players@.len() as int);
                &&& before.queued(after, seats)
                &&& forall|k: int|
                    0 <= k < seats.len() ==> match (#[trigger] after.outbox@[before.outbox@.len() + k]).1 {
                        ServerMessage::BotAction { player: p, action: a, state, turn_deadline_secs } => is_bot && p
                            == player && a == action && InteractiveGame::shows(
                            &before.game->Some_0,
                            state,
                            Some(PlayerId(seats[k] as u8)),
                        ) && turn_deadline_secs == before.turn_deadline_spec(now),
                        ServerMessage::ActionApplied { player: p, action: a, state, turn_deadline_secs } => !is_bot
                            && p == player && a == action && InteractiveGame::shows(
                            &before.game->Some_0,
                            state,
                            Some(PlayerId(seats[k] as u8)),
                        ) && turn_deadline_secs == before.turn_deadline_spec(now),
                        _ => false,
                    }
            })
    }

    /// Tells every connected human that `player` played `action` (as a bot
    /// when `is_bot`), with their new view.
    pub fn broadcast_action(&mut self, player: usize, action: &PlayerAction, is_bot: bool, now: u64)
        requires
            old(self).wf(),
        ensures
            final(self).wf(),
            Self::action_broadcast(old(self), final(self), player, *action, is_bot, now),
    {
        if self.game.is_none() {
            return;
        }
        let ghost r0 = *self;
        let deadline = self.turn_deadline_secs(now);
        assert(self.outbox@.subrange(0, r0.outbox@.len() as int) =~= r0.outbox@);
        let mut i: usize = 0;
        while i < self.players.len()
            invariant
                i <= self.players@.len(),
                self.wf(),
                self.game is Some,
                deadline == r0.turn_deadline_spec(now),
                r0.queued(self, listeners(r0.players@, true, i as int)),
                forall|k: int|
                    0 <= k < listeners(r0.players@, true, i as int).len() ==> match (#[trigger] self.outbox@[r0.outbox@.len()
                        + k]).1 {
                        ServerMessage::BotAction { player: p, action: a, state, turn_deadline_secs } => is_bot && p
                            == player && a == *action && InteractiveGame::shows(
                            &r0.game->Some_0,
                            state,
                            Some(PlayerId(listeners(r0.players@, true, i as int)[k] as u8)),
                        ) && turn_deadline_secs == deadline,
                        ServerMessage::ActionApplied { player: p, action: a, state, turn_deadline_secs } => !is_bot
                            && p == player && a == *action && InteractiveGame::shows(
                            &r0.game->Some_0,
                            state,
                            Some(PlayerId(listeners(r0.players@, true, i as int)[k] as u8)),
                        ) && turn_deadline_secs == deadline,
                        _ => false,
                    },
            decreases self.players@.len() - i,
        {
            let human = match self.players[i].slot_type {
                PlayerSlotType::Human => true,
                _ => false,
            };
            if self.players[i].connected && human {
                let state = match &self.game {
                    Some(game) => game.get_player_view(PlayerId(i as u8)),
                    None => {
                        return;
                    },
                };
                let msg = if is_bot {
                    ServerMessage::BotAction { player, action: *action, state, turn_deadline_secs: deadline }
                } else {
                    ServerMessage::ActionApplied { player, action: *action, state, turn_deadline_secs: deadline }
                };
                self.outbox.push((i, msg));
            }
            proof {
                assert(self.outbox@.subrange(0, r0.outbox@.len() as int) =~= r0.outbox@);
            }
            i = i + 1;
        }
    }

    /// Tells every connected human that `player` ran out of time and
    /// `action` was played for them, with their new view.
    pub fn broadcast_timeout_action(&mut self, player: usize, action: &PlayerAction)
        requires
            old(self).wf(),
        ensures
            final(self).wf(),
            old(self).game is None ==> *final(self) == *old(self),
            old(self).game is Some ==> {
                let seats = listeners(old(self).players@, true, old(self).players@.len() as int);
                &&& old(self).queued(final(self), seats)
                &&& forall|k: int|
                    0 <= k < seats.len() ==> timeout_msg(
                        old(self).game->Some_0,
                        seats[k],
                        player,
                        *action,
                        (#[trigger] final(self).outbox@[old(self).outbox@.len() + k]).1,
                    )
            },
    {
        if self.game.is_none() {
            return;
        }
        let ghost r0 = *self;
        assert(self.outbox@.subrange(0, r0.outbox@.len() as int) =~= r0.outbox@);
        let mut i: usize = 0;
        while i < self.players.len()
            invariant
                i <= self.players@.len(),
                self.wf(),
                self.game is Some,
                r0.queued(self, listeners(r0.players@, true, i as int)),
                forall|k: int|
                    0 <= k < listeners(r0.players@, true, i as int).len() ==> timeout_msg(
                        r0.game->Some_0,
                        listeners(r0.players@, true, i as int)[k],
                        player,
                        *action,
                        (#[trigger] self.outbox@[r0.outbox@.len() + k]).1,
                    ),
            decreases self.players@.len() - i,
        {
            let human = match self.players[i].slot_type {
                PlayerSlotType::Human => true,
                _ => false,
            };
            if self.players[i].connected && human {
                let state = match &self.game {
                    Some(game) => game.get_player_view(PlayerId(i as u8)),
                    None => {
                        return;
                    },
                };
                self.outbox.push((i, ServerMessage::TimeoutAction { player, action: *action, state }));
            }
            proof {
                assert(self.outbox@.subrange(0, r0.outbox@.len() as int) =~= r0.outbox@);
            }
            i = i + 1;
        }
    }

    /// The turn clock reading `turn_deadline_secs` gives at `now`.
    pub open spec fn turn_deadline_spec(&self, now: u64) -> Option<u64> {
        match (self.turn_timer_secs, self.turn_start) {
            (Some(timer), Some(start)) => Some(time_left(timer, start, now)),
            _ => None::<u64>,
        }
    }
}


/// The connected seats below `k` other than `seat`, in seat order.
pub open spec fn others_listening(players: Seq<PlayerSlot>, seat: usize, k: int) -> Seq<usize>
    decreases k,
{
    if k <= 0 {
        Seq::empty()
    } else if k - 1 != seat && players[k - 1].connected {
        others_listening(players, seat, k - 1).push((k - 1) as usize)
    } else {
        others_listening(players, seat, k - 1)
    }
}

impl Room {
    /// Queues `notice(seat)` for every connected seat other than `seat`.
    fn notify_others(&mut self, seat: usize, msg: &ServerMessage)
        requires
            old(self).wf(),
        ensures
            final(self).wf(),
            old(self).queued(final(self), others_listening(old(self).players@, seat, old(self).players@.len() as int)),
    {
        let ghost r0 = *self;
        assert(self.outbox@.subrange(0, r0.outbox@.len() as int) =~= r0.outbox@);
        let mut i: usize = 0;
        while i < self.players.len()
            invariant
                i <= self.players@.len(),
                self.wf(),
                r0.queued(self, others_listening(r0.players@, seat, i as int)),
            decreases self.players@.len() - i,
        {
            if i != seat && self.players[i].connected {
                self.outbox.push((i, msg.clone()));
            }
            proof {
                assert(self.outbox@.subrange(0, r0.outbox@.len() as int) =~= r0.outbox@);
            }
            i = i + 1;
        }
    }

    /// Seats a newcomer called `name` holding `token` in the lobby's next
    /// available seat, and tells the others.
    pub fn seat_newcomer(&mut self, name: String, token: SessionToken, now: u64) -> (r: Result<usize, String>)
        requires
            old(self).wf(),
        ensures
            final(self).wf(),
            old(self).phase != RoomPhase::Lobby ==> refused(r, "Game already started"@) && *final(self) == *old(self),
            old(self).phase == RoomPhase::Lobby && old(self).next_seat_spec() is None ==> refused(
                r,
                "Room is full (all slots are taken by human players)"@,
            ) && *final(self) == *old(self),
            old(self).phase == RoomPhase::Lobby && old(self).next_seat_spec() is Some ==> {
                let slot = old(self).next_seat_spec()->Some_0;
                let seat = final(self).players@[slot as int];
                &&& r == Ok::<usize, String>(slot)
                &&& seat.name == name
                &&& seat.slot_type is Human
                &&& seat.session_token == Some(token)
                &&& !seat.connected
                &&& seat.disconnected_at is None
                &&& final(self).players@ == old(self).players@.update(slot as int, seat)
                &&& final(self).last_activity == now
                &&& final(self).phase == old(self).phase
                &&& final(self).creator == old(self).creator
                &&& final(self).outbox@.len() >= old(self).outbox@.len()
                &&& final(self).outbox@.subrange(0, old(self).outbox@.len() as int) == old(self).outbox@
            },
    {
        if self.phase != RoomPhase::Lobby {
            return Err("Game already started".to_owned());
        }
        let slot = match self.next_available_slot() {
            Some(s) => s,
            None => {
                return Err("Room is full (all slots are taken by human players)".to_owned());
            },
        };
        proof {
            lemma_first_seat_bound(self.players@, false, self.players@.len() as int);
            lemma_first_seat_bound(self.players@, true, self.players@.len() as int);
        }
        let notice = ServerMessage::PlayerJoined { player_index: slot, name: name.clone() };
        self.players.set(
            slot,
            PlayerSlot { name, slot_type: PlayerSlotType::Human, session_token: Some(token), connected: false, disconnected_at: None },
        );
        self.touch(now);
        let ghost r1 = *self;
        self.notify_others(slot, &notice);
        proof {
            assert(self.outbox@.subrange(0, old(self).outbox@.len() as int) =~= old(self).outbox@);
        }
        Ok(slot)
    }

    /// Hands seat `slot` the session `token`; nothing else changes.
    pub fn give_token(&mut self, slot: usize, token: SessionToken)
        requires
            old(self).wf(),
            slot < old(self).players@.len(),
        ensures
            final(self).wf(),
            final(self).players@ == old(self).players@.update(
                slot as int,
                PlayerSlot { session_token: Some(token), ..old(self).players@[slot as int] },
            ),
            final(self).code == old(self).code,
            final(self).phase == old(self).phase,
            final(self).num_players == old(self).num_players,
            final(self).rules_name == old(self).rules_name,
            final(self).creator == old(self).creator,
            final(self).game == old(self).game,
            final(self).last_activity == old(self).last_activity,
            final(self).last_winners == old(self).last_winners,
            final(self).turn_timer_secs == old(self).turn_timer_secs,
            final(self).turn_start == old(self).turn_start,
            final(self).outbox == old(self).outbox,
    {
        let mut seat = self.players.remove(slot);
        seat.session_token = Some(token);
        self.players.insert(slot, seat);
        assert(self.players@ =~= old(self).players@.update(
            slot as int,
            PlayerSlot { session_token: Some(token), ..old(self).players@[slot as int] },
        ));
    }

    /// The seat `next_available_slot` returns.
    pub open spec fn next_seat_spec(&self) -> Option<usize> {
        match first_seat(self.players@, false, self.players@.len() as int) {
            Some(i) => Some(i),
            None => first_seat(self.players@, true, self.players@.len() as int),
        }
    }

    /// Seat `slot`'s connection opened at `now`: marks it present, tells the
    /// others, and returns the first message for the new connection (its
    /// game view while a game runs, the lobby otherwise).
    pub fn connect_seat(&mut self, slot: usize, now: u64) -> (r: ServerMessage)
        requires
            old(self).wf(),
            slot < old(self).num_players,
        ensures
            final(self).wf(),
            final(self).players@[slot as int].connected,
            final(self).players@[slot as int].disconnected_at is None,
            final(self).last_activity == now,
            final(self).phase == old(self).phase,
            final(self).game == old(self).game,
            old(self).phase == RoomPhase::InGame && old(self).game is Some ==> view_msg(
                old(self).game->Some_0,
                slot,
                old(self).turn_deadline_spec(now),
                r,
            ),
            !(old(self).phase == RoomPhase::InGame && old(self).game is Some) ==> r is RoomState,
    {
        let seat = &self.players[slot];
        let updated = PlayerSlot {
            name: seat.name.clone(),
            slot_type: copy_slot_type(&seat.slot_type),
            session_token: seat.session_token.clone(),
            connected: true,
            disconnected_at: None,
        };
        self.players.set(slot, updated);
        self.touch(now);
        let initial = if self.phase == RoomPhase::InGame {
            match self.player_view(slot) {
                Some(state) => ServerMessage::GameState { state, turn_deadline_secs: self.turn_deadline_secs(now) },
                None => ServerMessage::RoomState { state: self.lobby_state(now) },
            }
        } else {
            ServerMessage::RoomState { state: self.lobby_state(now) }
        };
        self.notify_others(slot, &ServerMessage::PlayerReconnected { player_index: slot });
        initial
    }

    /// Seat `slot`'s connection closed at `now`: marks it away and tells the
    /// others.
    pub fn disconnect_seat(&mut self, slot: usize, now: u64)
        requires
            old(self).wf(),
            slot < old(self).num_players,
        ensures
            final(self).wf(),
            !final(self).players@[slot as int].connected,
            final(self).players@[slot as int].disconnected_at == Some(now),
            same_kind(final(self).players@[slot as int].slot_type, old(self).players@[slot as int].slot_type),
            final(self).last_activity == now,
            final(self).phase == old(self).phase,
            final(self).creator == old(self).creator,
            final(self).game == old(self).game,
    {
        let seat = &self.players[slot];
        let updated = PlayerSlot {
            name: seat.name.clone(),
            slot_type: copy_slot_type(&seat.slot_type),
            session_token: seat.session_token.clone(),
            connected: false,
            disconnected_at: Some(now),
        };
        self.players.set(slot, updated);
        self.touch(now);
        self.notify_others(slot, &ServerMessage::PlayerLeft { player_index: slot });
    }
}

proof fn lemma_first_seat_bound(players: Seq<PlayerSlot>, bot: bool, k: int)
    requires
        k <= usize::MAX,
    ensures
        first_seat(players, bot, k) matches Some(i) ==> i < k && (bot ==> players[i as int].slot_type is Bot) && (!bot
            ==> players[i as int].slot_type is Empty),
    decreases k,
{
    if k > 0 {
        lemma_first_seat_bound(players, bot, k - 1);
    }
}

} // verus!
