//! Chips over a whole heads-up game: folding the events of any accepted
//! command neither makes nor loses a chip.
use vstd::prelude::*;
use crate::holdem::{
    action_check, action_ok, action_spec, after_hand, blinds_events, chips, dealt_street, fold_ok,
    fold_spec, game_end_spec, hand_end_spec, hand_started_event, hand_started_spec, initial_state,
    law_settling_keeps_chips, match_over, resolve_events, resolve_ok, round_closed, settle_events,
    settle_ok, settled_state, showdown_winner, start_params, start_scratch, started_spec,
    street_event, street_ok, street_spec, validate_ok, validate_spec, winner_word, zero2, no2,
    Phase, StateView, Street, MAX_PLAYERS,
};
use crate::lobby::{index_of, lobby_host_changed, lobby_joined, lobby_left, EventView};
use crate::text::{dec, int_dec, tokens};

verus! {

// ---------------------------------------------------------------------------
// Chips over a whole game
// ---------------------------------------------------------------------------

/// The state after folding `evs` in order.
#[verifier::opaque]
pub open spec fn fold_all(s: StateView, evs: Seq<EventView>) -> StateView
    decreases evs.len(),
{
    if evs.len() == 0 {
        s
    } else {
        fold_all(fold_spec(s, evs[0].0, evs[0].1), evs.drop_first())
    }
}

/// Each of `evs`, in turn, is an event the fold takes.
#[verifier::opaque]
pub open spec fn folds_ok(s: StateView, evs: Seq<EventView>) -> bool
    decreases evs.len(),
{
    evs.len() == 0 || (fold_ok(s, evs[0].0, evs[0].1) && folds_ok(
        fold_spec(s, evs[0].0, evs[0].1),
        evs.drop_first(),
    ))
}

pub open spec fn sized(s: StateView) -> bool {
    &&& s.stacks.len() == 2
    &&& s.committed.len() == 2
    &&& s.bet.len() == 2
    &&& s.all_in.len() == 2
    &&& s.acted.len() == 2
    &&& s.folded.len() == 2
    &&& s.players.len() <= MAX_PLAYERS
}

/// The chips in play are twice the starting stack, and outside a running
/// game nothing is committed: both stacks hold all of them.
pub open spec fn chips_in_play(s: StateView) -> bool {
    &&& sized(s)
    &&& chips(s) == 2 * s.starting_stack
    &&& s.phase != Phase::Playing ==> s.committed == zero2()
}

proof fn lemma_fold_all_append(s: StateView, a: Seq<EventView>, b: Seq<EventView>)
    ensures
        fold_all(s, a + b) == fold_all(fold_all(s, a), b),
        folds_ok(s, a + b) == (folds_ok(s, a) && folds_ok(fold_all(s, a), b)),
    decreases a.len(),
{
    reveal(fold_all);
    reveal(folds_ok);
    if a.len() == 0 {
        assert(a + b =~= b);
    } else {
        assert((a + b).drop_first() =~= a.drop_first() + b);
        assert((a + b)[0] == a[0]);
        lemma_fold_all_append(fold_spec(s, a[0].0, a[0].1), a.drop_first(), b);
    }
}

proof fn lemma_fold_one(s: StateView, e: EventView)
    ensures
        fold_all(s, seq![e]) == fold_spec(s, e.0, e.1),
        folds_ok(s, seq![e]) == fold_ok(s, e.0, e.1),
{
    reveal_with_fuel(fold_all, 2);
    reveal_with_fuel(folds_ok, 2);
    assert(seq![e].drop_first() =~= Seq::<EventView>::empty());
    assert(seq![e][0] == e);
}

/// What the fold does with each kind of event the game writes.
proof fn lemma_kind_action(x: StateView, p: Seq<char>)
    ensures
        fold_spec(x, "ACTION"@, p) == action_spec(x, p),
        fold_ok(x, "ACTION"@, p) == action_ok(x, p),
{
    reveal_strlit("ACTION");
    reveal_strlit("POT");
    reveal_strlit("CHAT");
    reveal_strlit("STREET");
    reveal_strlit("HAND_END");
    reveal_strlit("GAME_END");
    reveal_strlit("HAND_STARTED");
    reveal_strlit("GAME_STARTED");
    reveal_strlit("WINNER");
    reveal_strlit("DRAW");
    reveal_strlit("PLAYER_JOINED");
    reveal_strlit("PLAYER_LEFT");
    reveal_strlit("HOST_CHANGED");
    assert("ACTION"@.len() != "POT"@.len());
    assert("ACTION"@.len() != "CHAT"@.len());
    assert("ACTION"@[0] != "STREET"@[0]);
    assert("ACTION"@.len() != "HAND_END"@.len());
    assert("ACTION"@.len() != "GAME_END"@.len());
    assert("ACTION"@.len() != "HAND_STARTED"@.len());
    assert("ACTION"@.len() != "GAME_STARTED"@.len());
    assert("ACTION"@[0] != "WINNER"@[0]);
    assert("ACTION"@.len() != "DRAW"@.len());
    assert("ACTION"@.len() != "PLAYER_JOINED"@.len());
    assert("ACTION"@.len() != "PLAYER_LEFT"@.len());
    assert("ACTION"@.len() != "HOST_CHANGED"@.len());
}

proof fn lemma_kind_pot(x: StateView, p: Seq<char>)
    ensures
        fold_spec(x, "POT"@, p) == x,
        fold_ok(x, "POT"@, p),
{
    reveal_strlit("POT");
    reveal_strlit("ACTION");
    reveal_strlit("CHAT");
    reveal_strlit("STREET");
    reveal_strlit("HAND_END");
    reveal_strlit("GAME_END");
    reveal_strlit("HAND_STARTED");
    reveal_strlit("GAME_STARTED");
    reveal_strlit("WINNER");
    reveal_strlit("DRAW");
    reveal_strlit("PLAYER_JOINED");
    reveal_strlit("PLAYER_LEFT");
    reveal_strlit("HOST_CHANGED");
    assert("POT"@.len() != "ACTION"@.len());
    assert("POT"@.len() != "CHAT"@.len());
    assert("POT"@.len() != "STREET"@.len());
    assert("POT"@.len() != "HAND_END"@.len());
    assert("POT"@.len() != "GAME_END"@.len());
    assert("POT"@.len() != "HAND_STARTED"@.len());
    assert("POT"@.len() != "GAME_STARTED"@.len());
    assert("POT"@.len() != "WINNER"@.len());
    assert("POT"@.len() != "DRAW"@.len());
    assert("POT"@.len() != "PLAYER_JOINED"@.len());
    assert("POT"@.len() != "PLAYER_LEFT"@.len());
    assert("POT"@.len() != "HOST_CHANGED"@.len());
}

proof fn lemma_kind_chat(x: StateView, p: Seq<char>)
    ensures
        fold_spec(x, "CHAT"@, p) == x,
        fold_ok(x, "CHAT"@, p),
{
    reveal_strlit("CHAT");
    reveal_strlit("ACTION");
    reveal_strlit("POT");
    reveal_strlit("STREET");
    reveal_strlit("HAND_END");
    reveal_strlit("GAME_END");
    reveal_strlit("HAND_STARTED");
    reveal_strlit("GAME_STARTED");
    reveal_strlit("WINNER");
    reveal_strlit("DRAW");
    reveal_strlit("PLAYER_JOINED");
    reveal_strlit("PLAYER_LEFT");
    reveal_strlit("HOST_CHANGED");
    assert("CHAT"@.len() != "ACTION"@.len());
    assert("CHAT"@.len() != "POT"@.len());
    assert("CHAT"@.len() != "STREET"@.len());
    assert("CHAT"@.len() != "HAND_END"@.len());
    assert("CHAT"@.len() != "GAME_END"@.len());
    assert("CHAT"@.len() != "HAND_STARTED"@.len());
    assert("CHAT"@.len() != "GAME_STARTED"@.len());
    assert("CHAT"@.len() != "WINNER"@.len());
    assert("CHAT"@[0] != "DRAW"@[0]);
    assert("CHAT"@.len() != "PLAYER_JOINED"@.len());
    assert("CHAT"@.len() != "PLAYER_LEFT"@.len());
    assert("CHAT"@.len() != "HOST_CHANGED"@.len());
}

proof fn lemma_kind_street(x: StateView, p: Seq<char>)
    ensures
        fold_spec(x, "STREET"@, p) == street_spec(x, p),
        fold_ok(x, "STREET"@, p) == street_ok(x, p),
{
    reveal_strlit("STREET");
    reveal_strlit("ACTION");
    reveal_strlit("POT");
    reveal_strlit("CHAT");
    reveal_strlit("HAND_END");
    reveal_strlit("GAME_END");
    reveal_strlit("HAND_STARTED");
    reveal_strlit("GAME_STARTED");
    reveal_strlit("WINNER");
    reveal_strlit("DRAW");
    reveal_strlit("PLAYER_JOINED");
    reveal_strlit("PLAYER_LEFT");
    reveal_strlit("HOST_CHANGED");
    assert("STREET"@[0] != "ACTION"@[0]);
    assert("STREET"@.len() != "POT"@.len());
    assert("STREET"@.len() != "CHAT"@.len());
    assert("STREET"@.len() != "HAND_END"@.len());
    assert("STREET"@.len() != "GAME_END"@.len());
    assert("STREET"@.len() != "HAND_STARTED"@.len());
    assert("STREET"@.len() != "GAME_STARTED"@.len());
    assert("STREET"@[0] != "WINNER"@[0]);
    assert("STREET"@.len() != "DRAW"@.len());
    assert("STREET"@.len() != "PLAYER_JOINED"@.len());
    assert("STREET"@.len() != "PLAYER_LEFT"@.len());
    assert("STREET"@.len() != "HOST_CHANGED"@.len());
}

proof fn lemma_kind_hand_end(x: StateView, p: Seq<char>)
    ensures
        fold_spec(x, "HAND_END"@, p) == hand_end_spec(x, p),
        fold_ok(x, "HAND_END"@, p),
{
    reveal_strlit("HAND_END");
    reveal_strlit("ACTION");
    reveal_strlit("POT");
    reveal_strlit("CHAT");
    reveal_strlit("STREET");
    reveal_strlit("GAME_END");
    reveal_strlit("HAND_STARTED");
    reveal_strlit("GAME_STARTED");
    reveal_strlit("WINNER");
    reveal_strlit("DRAW");
    reveal_strlit("PLAYER_JOINED");
    reveal_strlit("PLAYER_LEFT");
    reveal_strlit("HOST_CHANGED");
    assert("HAND_END"@.len() != "ACTION"@.len());
    assert("HAND_END"@.len() != "POT"@.len());
    assert("HAND_END"@.len() != "CHAT"@.len());
    assert("HAND_END"@.len() != "STREET"@.len());
    assert("HAND_END"@[0] != "GAME_END"@[0]);
    assert("HAND_END"@.len() != "HAND_STARTED"@.len());
    assert("HAND_END"@.len() != "GAME_STARTED"@.len());
    assert("HAND_END"@.len() != "WINNER"@.len());
    assert("HAND_END"@.len() != "DRAW"@.len());
    assert("HAND_END"@.len() != "PLAYER_JOINED"@.len());
    assert("HAND_END"@.len() != "PLAYER_LEFT"@.len());
    assert("HAND_END"@.len() != "HOST_CHANGED"@.len());
}

proof fn lemma_kind_game_end(x: StateView, p: Seq<char>)
    ensures
        fold_spec(x, "GAME_END"@, p) == game_end_spec(x, p),
        fold_ok(x, "GAME_END"@, p),
{
    reveal_strlit("GAME_END");
    reveal_strlit("ACTION");
    reveal_strlit("POT");
    reveal_strlit("CHAT");
    reveal_strlit("STREET");
    reveal_strlit("HAND_END");
    reveal_strlit("HAND_STARTED");
    reveal_strlit("GAME_STARTED");
    reveal_strlit("WINNER");
    reveal_strlit("DRAW");
    reveal_strlit("PLAYER_JOINED");
    reveal_strlit("PLAYER_LEFT");
    reveal_strlit("HOST_CHANGED");
    assert("GAME_END"@.len() != "ACTION"@.len());
    assert("GAME_END"@.len() != "POT"@.len());
    assert("GAME_END"@.len() != "CHAT"@.len());
    assert("GAME_END"@.len() != "STREET"@.len());
    assert("GAME_END"@[0] != "HAND_END"@[0]);
    assert("GAME_END"@.len() != "HAND_STARTED"@.len());
    assert("GAME_END"@.len() != "GAME_STARTED"@.len());
    assert("GAME_END"@.len() != "WINNER"@.len());
    assert("GAME_END"@.len() != "DRAW"@.len());
    assert("GAME_END"@.len() != "PLAYER_JOINED"@.len());
    assert("GAME_END"@.len() != "PLAYER_LEFT"@.len());
    assert("GAME_END"@.len() != "HOST_CHANGED"@.len());
}

proof fn lemma_kind_hand_started(x: StateView, p: Seq<char>)
    ensures
        fold_spec(x, "HAND_STARTED"@, p) == hand_started_spec(x, p),
        fold_ok(x, "HAND_STARTED"@, p),
{
    reveal_strlit("HAND_STARTED");
    reveal_strlit("ACTION");
    reveal_strlit("POT");
    reveal_strlit("CHAT");
    reveal_strlit("STREET");
    reveal_strlit("HAND_END");
    reveal_strlit("GAME_END");
    reveal_strlit("GAME_STARTED");
    reveal_strlit("WINNER");
    reveal_strlit("DRAW");
    reveal_strlit("PLAYER_JOINED");
    reveal_strlit("PLAYER_LEFT");
    reveal_strlit("HOST_CHANGED");
    assert("HAND_STARTED"@.len() != "ACTION"@.len());
    assert("HAND_STARTED"@.len() != "POT"@.len());
    assert("HAND_STARTED"@.len() != "CHAT"@.len());
    assert("HAND_STARTED"@.len() != "STREET"@.len());
    assert("HAND_STARTED"@.len() != "HAND_END"@.len());
    assert("HAND_STARTED"@.len() != "GAME_END"@.len());
    assert("HAND_STARTED"@[0] != "GAME_STARTED"@[0]);
    assert("HAND_STARTED"@.len() != "WINNER"@.len());
    assert("HAND_STARTED"@.len() != "DRAW"@.len());
    assert("HAND_STARTED"@.len() != "PLAYER_JOINED"@.len());
    assert("HAND_STARTED"@.len() != "PLAYER_LEFT"@.len());
    assert("HAND_STARTED"@[1] != "HOST_CHANGED"@[1]);
}

proof fn lemma_kind_game_started(x: StateView, p: Seq<char>)
    ensures
        fold_spec(x, "GAME_STARTED"@, p) == started_spec(x, p),
        fold_ok(x, "GAME_STARTED"@, p),
{
    reveal_strlit("GAME_STARTED");
    reveal_strlit("ACTION");
    reveal_strlit("POT");
    reveal_strlit("CHAT");
    reveal_strlit("STREET");
    reveal_strlit("HAND_END");
    reveal_strlit("GAME_END");
    reveal_strlit("HAND_STARTED");
    reveal_strlit("WINNER");
    reveal_strlit("DRAW");
    reveal_strlit("PLAYER_JOINED");
    reveal_strlit("PLAYER_LEFT");
    reveal_strlit("HOST_CHANGED");
    assert("GAME_STARTED"@.len() != "ACTION"@.len());
    assert("GAME_STARTED"@.len() != "POT"@.len());
    assert("GAME_STARTED"@.len() != "CHAT"@.len());
    assert("GAME_STARTED"@.len() != "STREET"@.len());
    assert("GAME_STARTED"@.len() != "HAND_END"@.len());
    assert("GAME_STARTED"@.len() != "GAME_END"@.len());
    assert("GAME_STARTED"@[0] != "HAND_STARTED"@[0]);
    assert("GAME_STARTED"@.len() != "WINNER"@.len());
    assert("GAME_STARTED"@.len() != "DRAW"@.len());
    assert("GAME_STARTED"@.len() != "PLAYER_JOINED"@.len());
    assert("GAME_STARTED"@.len() != "PLAYER_LEFT"@.len());
    assert("GAME_STARTED"@[0] != "HOST_CHANGED"@[0]);
}

proof fn lemma_kind_winner(x: StateView, p: Seq<char>)
    ensures
        fold_spec(x, "WINNER"@, p) == (StateView { phase: Phase::Finished, ..x }),
        fold_ok(x, "WINNER"@, p),
{
    reveal_strlit("WINNER");
    reveal_strlit("ACTION");
    reveal_strlit("POT");
    reveal_strlit("CHAT");
    reveal_strlit("STREET");
    reveal_strlit("HAND_END");
    reveal_strlit("GAME_END");
    reveal_strlit("HAND_STARTED");
    reveal_strlit("GAME_STARTED");
    reveal_strlit("DRAW");
    reveal_strlit("PLAYER_JOINED");
    reveal_strlit("PLAYER_LEFT");
    reveal_strlit("HOST_CHANGED");
    assert("WINNER"@[0] != "ACTION"@[0]);
    assert("WINNER"@.len() != "POT"@.len());
    assert("WINNER"@.len() != "CHAT"@.len());
    assert("WINNER"@[0] != "STREET"@[0]);
    assert("WINNER"@.len() != "HAND_END"@.len());
    assert("WINNER"@.len() != "GAME_END"@.len());
    assert("WINNER"@.len() != "HAND_STARTED"@.len());
    assert("WINNER"@.len() != "GAME_STARTED"@.len());
    assert("WINNER"@.len() != "DRAW"@.len());
    assert("WINNER"@.len() != "PLAYER_JOINED"@.len());
    assert("WINNER"@.len() != "PLAYER_LEFT"@.len());
    assert("WINNER"@.len() != "HOST_CHANGED"@.len());
}

proof fn lemma_kind_draw(x: StateView, p: Seq<char>)
    ensures
        fold_spec(x, "DRAW"@, p) == (StateView { phase: Phase::Finished, ..x }),
        fold_ok(x, "DRAW"@, p),
{
    reveal_strlit("DRAW");
    reveal_strlit("ACTION");
    reveal_strlit("POT");
    reveal_strlit("CHAT");
    reveal_strlit("STREET");
    reveal_strlit("HAND_END");
    reveal_strlit("GAME_END");
    reveal_strlit("HAND_STARTED");
    reveal_strlit("GAME_STARTED");
    reveal_strlit("WINNER");
    reveal_strlit("PLAYER_JOINED");
    reveal_strlit("PLAYER_LEFT");
    reveal_strlit("HOST_CHANGED");
    assert("DRAW"@.len() != "ACTION"@.len());
    assert("DRAW"@.len() != "POT"@.len());
    assert("DRAW"@[0] != "CHAT"@[0]);
    assert("DRAW"@.len() != "STREET"@.len());
    assert("DRAW"@.len() != "HAND_END"@.len());
    assert("DRAW"@.len() != "GAME_END"@.len());
    assert("DRAW"@.len() != "HAND_STARTED"@.len());
    assert("DRAW"@.len() != "GAME_STARTED"@.len());
    assert("DRAW"@.len() != "WINNER"@.len());
    assert("DRAW"@.len() != "PLAYER_JOINED"@.len());
    assert("DRAW"@.len() != "PLAYER_LEFT"@.len());
    assert("DRAW"@.len() != "HOST_CHANGED"@.len());
}

proof fn lemma_kind_player_joined(x: StateView, p: Seq<char>)
    ensures
        fold_spec(x, "PLAYER_JOINED"@, p) == x.with_lobby(lobby_joined(x.lobby(), p, MAX_PLAYERS as nat)),
        fold_ok(x, "PLAYER_JOINED"@, p),
{
    reveal_strlit("PLAYER_JOINED");
    reveal_strlit("ACTION");
    reveal_strlit("POT");
    reveal_strlit("CHAT");
    reveal_strlit("STREET");
    reveal_strlit("HAND_END");
    reveal_strlit("GAME_END");
    reveal_strlit("HAND_STARTED");
    reveal_strlit("GAME_STARTED");
    reveal_strlit("WINNER");
    reveal_strlit("DRAW");
    reveal_strlit("PLAYER_LEFT");
    reveal_strlit("HOST_CHANGED");
    assert("PLAYER_JOINED"@.len() != "ACTION"@.len());
    assert("PLAYER_JOINED"@.len() != "POT"@.len());
    assert("PLAYER_JOINED"@.len() != "CHAT"@.len());
    assert("PLAYER_JOINED"@.len() != "STREET"@.len());
    assert("PLAYER_JOINED"@.len() != "HAND_END"@.len());
    assert("PLAYER_JOINED"@.len() != "GAME_END"@.len());
    assert("PLAYER_JOINED"@.len() != "HAND_STARTED"@.len());
    assert("PLAYER_JOINED"@.len() != "GAME_STARTED"@.len());
    assert("PLAYER_JOINED"@.len() != "WINNER"@.len());
    assert("PLAYER_JOINED"@.len() != "DRAW"@.len());
    assert("PLAYER_JOINED"@.len() != "PLAYER_LEFT"@.len());
    assert("PLAYER_JOINED"@.len() != "HOST_CHANGED"@.len());
}

proof fn lemma_kind_player_left(x: StateView, p: Seq<char>)
    ensures
        fold_spec(x, "PLAYER_LEFT"@, p) == x.with_lobby(lobby_left(x.lobby(), p)),
        fold_ok(x, "PLAYER_LEFT"@, p),
{
    reveal_strlit("PLAYER_LEFT");
    reveal_strlit("ACTION");
    reveal_strlit("POT");
    reveal_strlit("CHAT");
    reveal_strlit("STREET");
    reveal_strlit("HAND_END");
    reveal_strlit("GAME_END");
    reveal_strlit("HAND_STARTED");
    reveal_strlit("GAME_STARTED");
    reveal_strlit("WINNER");
    reveal_strlit("DRAW");
    reveal_strlit("PLAYER_JOINED");
    reveal_strlit("HOST_CHANGED");
    assert("PLAYER_LEFT"@.len() != "ACTION"@.len());
    assert("PLAYER_LEFT"@.len() != "POT"@.len());
    assert("PLAYER_LEFT"@.len() != "CHAT"@.len());
    assert("PLAYER_LEFT"@.len() != "STREET"@.len());
    assert("PLAYER_LEFT"@.len() != "HAND_END"@.len());
    assert("PLAYER_LEFT"@.len() != "GAME_END"@.len());
    assert("PLAYER_LEFT"@.len() != "HAND_STARTED"@.len());
    assert("PLAYER_LEFT"@.len() != "GAME_STARTED"@.len());
    assert("PLAYER_LEFT"@.len() != "WINNER"@.len());
    assert("PLAYER_LEFT"@.len() != "DRAW"@.len());
    assert("PLAYER_LEFT"@.len() != "PLAYER_JOINED"@.len());
    assert("PLAYER_LEFT"@.len() != "HOST_CHANGED"@.len());
}

proof fn lemma_kind_host_changed(x: StateView, p: Seq<char>)
    ensures
        fold_spec(x, "HOST_CHANGED"@, p) == x.with_lobby(lobby_host_changed(x.lobby(), p)),
        fold_ok(x, "HOST_CHANGED"@, p),
{
    reveal_strlit("HOST_CHANGED");
    reveal_strlit("ACTION");
    reveal_strlit("POT");
    reveal_strlit("CHAT");
    reveal_strlit("STREET");
    reveal_strlit("HAND_END");
    reveal_strlit("GAME_END");
    reveal_strlit("HAND_STARTED");
    reveal_strlit("GAME_STARTED");
    reveal_strlit("WINNER");
    reveal_strlit("DRAW");
    reveal_strlit("PLAYER_JOINED");
    reveal_strlit("PLAYER_LEFT");
    assert("HOST_CHANGED"@.len() != "ACTION"@.len());
    assert("HOST_CHANGED"@.len() != "POT"@.len());
    assert("HOST_CHANGED"@.len() != "CHAT"@.len());
    assert("HOST_CHANGED"@.len() != "STREET"@.len());
    assert("HOST_CHANGED"@.len() != "HAND_END"@.len());
    assert("HOST_CHANGED"@.len() != "GAME_END"@.len());
    assert("HOST_CHANGED"@[1] != "HAND_STARTED"@[1]);
    assert("HOST_CHANGED"@[0] != "GAME_STARTED"@[0]);
    assert("HOST_CHANGED"@.len() != "WINNER"@.len());
    assert("HOST_CHANGED"@.len() != "DRAW"@.len());
    assert("HOST_CHANGED"@.len() != "PLAYER_JOINED"@.len());
    assert("HOST_CHANGED"@.len() != "PLAYER_LEFT"@.len());
}

proof fn lemma_kinds_all(x: StateView, p: Seq<char>)
    ensures
        fold_spec(x, "ACTION"@, p) == action_spec(x, p),
        fold_ok(x, "ACTION"@, p) == action_ok(x, p),
        fold_spec(x, "POT"@, p) == x,
        fold_ok(x, "POT"@, p),
        fold_spec(x, "CHAT"@, p) == x,
        fold_ok(x, "CHAT"@, p),
        fold_spec(x, "STREET"@, p) == street_spec(x, p),
        fold_ok(x, "STREET"@, p) == street_ok(x, p),
        fold_spec(x, "HAND_END"@, p) == hand_end_spec(x, p),
        fold_ok(x, "HAND_END"@, p),
        fold_spec(x, "GAME_END"@, p) == game_end_spec(x, p),
        fold_ok(x, "GAME_END"@, p),
        fold_spec(x, "HAND_STARTED"@, p) == hand_started_spec(x, p),
        fold_ok(x, "HAND_STARTED"@, p),
        fold_spec(x, "GAME_STARTED"@, p) == started_spec(x, p),
        fold_ok(x, "GAME_STARTED"@, p),
        fold_spec(x, "WINNER"@, p) == (StateView { phase: Phase::Finished, ..x }),
        fold_ok(x, "WINNER"@, p),
        fold_spec(x, "DRAW"@, p) == (StateView { phase: Phase::Finished, ..x }),
        fold_ok(x, "DRAW"@, p),
        fold_spec(x, "PLAYER_JOINED"@, p) == x.with_lobby(lobby_joined(x.lobby(), p, MAX_PLAYERS as nat)),
        fold_ok(x, "PLAYER_JOINED"@, p),
        fold_spec(x, "PLAYER_LEFT"@, p) == x.with_lobby(lobby_left(x.lobby(), p)),
        fold_ok(x, "PLAYER_LEFT"@, p),
        fold_spec(x, "HOST_CHANGED"@, p) == x.with_lobby(lobby_host_changed(x.lobby(), p)),
        fold_ok(x, "HOST_CHANGED"@, p),
{
    lemma_kind_action(x, p);
    lemma_kind_pot(x, p);
    lemma_kind_chat(x, p);
    lemma_kind_street(x, p);
    lemma_kind_hand_end(x, p);
    lemma_kind_game_end(x, p);
    lemma_kind_hand_started(x, p);
    lemma_kind_game_started(x, p);
    lemma_kind_winner(x, p);
    lemma_kind_draw(x, p);
    lemma_kind_player_joined(x, p);
    lemma_kind_player_left(x, p);
    lemma_kind_host_changed(x, p);
}

/// An `ACTION` moves chips between a stack and the pot and keeps the sizes.
proof fn lemma_action_chips(s: StateView, payload: Seq<char>)
    requires
        sized(s),
        action_ok(s, payload),
    ensures
        chips(action_spec(s, payload)) == chips(s),
        sized(action_spec(s, payload)),
        action_spec(s, payload).phase == s.phase,
        action_spec(s, payload).starting_stack == s.starting_stack,
{
    let parts = tokens(payload);
    if parts.len() >= 2 {
        crate::lobby::lemma_index_of(s.players, parts[0]);
    }
}

/// The events that leave stacks and pot alone: pot notices, chat, streets,
/// and the lobby's comings and goings.
proof fn lemma_quiet(x: StateView, k: Seq<char>, p: Seq<char>)
    requires
        sized(x),
        k == "POT"@ || k == "CHAT"@ || k == "STREET"@ || k == "PLAYER_JOINED"@ || k == "PLAYER_LEFT"@
            || k == "HOST_CHANGED"@,
    ensures
        sized(fold_spec(x, k, p)),
        chips(fold_spec(x, k, p)) == chips(x),
        fold_spec(x, k, p).committed == x.committed,
        fold_spec(x, k, p).phase == x.phase,
        fold_spec(x, k, p).starting_stack == x.starting_stack,
        fold_ok(x, k, p) || k == "STREET"@,
{
    lemma_kinds_all(x, p);
    crate::lobby::lemma_left_len(x.lobby(), p);
}

proof fn lemma_int_dec_word(i: int)
    ensures
        crate::text::is_word(int_dec(i)),
        !crate::text::is_ws(int_dec(i)[0]),
{
    if i < 0 {
        crate::text::lemma_dec_facts((-i) as nat);
        let d = dec((-i) as nat);
        assert forall|k: int| 0 <= k < int_dec(i).len() implies !crate::text::is_ws(#[trigger] int_dec(i)[k]) by {
            if k > 0 {
                assert(int_dec(i)[k] == d[k - 1]);
            }
        }
    } else {
        crate::text::lemma_dec_facts(i as nat);
    }
}

proof fn lemma_word_start(w: Seq<char>)
    requires
        crate::text::is_word(w),
    ensures
        !crate::text::is_ws(w[0]),
{
}

/// The `HAND_END` payload a settlement writes.
pub open spec fn hand_end_payload(t: StateView, w: Option<u8>, reason: Seq<char>) -> Seq<char> {
    winner_word(w) + " "@ + int_dec(t.stacks[0] as int) + " "@ + int_dec(t.stacks[1] as int) + " "@ + reason
}

/// Folding the `HAND_END` of a settlement gives the paid-out stacks and
/// clears the pot.
proof fn lemma_hand_end(x: StateView, t: StateView, w: Option<u8>, reason: Seq<char>)
    requires
        sized(x),
        t.stacks.len() == 2,
        crate::text::is_word(reason),
    ensures
        hand_end_spec(x, hand_end_payload(t, w, reason)).stacks == t.stacks,
        hand_end_spec(x, hand_end_payload(t, w, reason)).committed == zero2(),
        hand_end_spec(x, hand_end_payload(t, w, reason)).phase == x.phase,
        hand_end_spec(x, hand_end_payload(t, w, reason)).starting_stack == x.starting_stack,
        sized(hand_end_spec(x, hand_end_payload(t, w, reason))),
{
    let a = t.stacks[0];
    let b = t.stacks[1];
    let ww = winner_word(w);
    let payload = hand_end_payload(t, w, reason);
    lemma_int_dec_word(a as int);
    lemma_int_dec_word(b as int);
    reveal_strlit("-1");
    match w {
        Some(v) => {
            crate::text::lemma_dec_facts(v as nat);
        },
        None => {},
    }
    assert(crate::text::is_word(ww));
    lemma_word_start(reason);
    crate::text::lemma_tokens_word(reason);
    crate::text::lemma_tokens_space(int_dec(b as int), reason);
    crate::text::lemma_tokens_space(int_dec(a as int), int_dec(b as int) + " "@ + reason);
    crate::text::lemma_tokens_space(ww, int_dec(a as int) + " "@ + (int_dec(b as int) + " "@ + reason));
    assert(payload =~= ww + " "@ + (int_dec(a as int) + " "@ + (int_dec(b as int) + " "@ + reason)));
    crate::text::law_int_round_trip(a as int, i64::MIN as int, i64::MAX as int);
    crate::text::law_int_round_trip(b as int, i64::MIN as int, i64::MAX as int);
    assert(hand_end_spec(x, payload).stacks =~= t.stacks);
}

/// Folding what follows a settled hand `t`, from a folded state holding its
/// stacks and an empty pot.
#[verifier::rlimit(40)]
proof fn lemma_after_hand(y: StateView, t: StateView)
    requires
        sized(y),
        t.stacks.len() == 2,
        y.stacks == t.stacks,
        y.committed == zero2(),
        y.phase == Phase::Playing,
        folds_ok(y, after_hand(t)),
    ensures
        sized(fold_all(y, after_hand(t))),
        chips(fold_all(y, after_hand(t))) == chips(y),
        fold_all(y, after_hand(t)).starting_stack == y.starting_stack,
        fold_all(y, after_hand(t)).phase != Phase::Playing ==> fold_all(y, after_hand(t)).committed == zero2(),
{
    let a = t.stacks[0];
    let b = t.stacks[1];
    if match_over(t) {
        let gp = int_dec(a as int) + " "@ + int_dec(b as int);
        let ge: EventView = ("GAME_END"@, gp);
        let last: EventView = if t.stacks[0] > t.stacks[1] {
            ("WINNER"@, "0"@)
        } else if t.stacks[1] > t.stacks[0] {
            ("WINNER"@, "1"@)
        } else {
            ("DRAW"@, Seq::<char>::empty())
        };
        assert(after_hand(t) =~= seq![ge] + seq![last]);
        lemma_fold_all_append(y, seq![ge], seq![last]);
        lemma_fold_one(y, ge);
        lemma_kind_game_end(y, gp);
        lemma_int_dec_word(a as int);
        lemma_int_dec_word(b as int);
        crate::text::lemma_tokens_word(int_dec(b as int));
        crate::text::lemma_tokens_space(int_dec(a as int), int_dec(b as int));
        crate::text::law_int_round_trip(a as int, i64::MIN as int, i64::MAX as int);
        crate::text::law_int_round_trip(b as int, i64::MIN as int, i64::MAX as int);
        let y2 = game_end_spec(y, gp);
        assert(y2.stacks =~= t.stacks);
        lemma_fold_one(y2, last);
        lemma_kind_winner(y2, last.1);
        lemma_kind_draw(y2, last.1);
    } else {
        let hs = hand_started_event(t);
        assert(after_hand(t) =~= seq![hs] + blinds_events(t));
        lemma_fold_all_append(y, seq![hs], blinds_events(t));
        lemma_fold_one(y, hs);
        lemma_kind_hand_started(y, hs.1);
        let y2 = hand_started_spec(y, hs.1);
        assert(chips(y2) == chips(y));
        lemma_blinds(y2, t);
    }
}

/// Folding what settles a hand: the `HAND_END` with the paid-out stacks, then
/// the end of the match or the next hand with its blinds.
proof fn lemma_settle(x: StateView, u: StateView, w: Option<u8>, reason: Seq<char>)
    requires
        sized(x),
        sized(u),
        x.phase == Phase::Playing,
        w matches Some(v) ==> v < 2,
        settle_ok(u, w),
        crate::text::is_word(reason),
        folds_ok(x, settle_events(u, w, reason)),
    ensures
        sized(fold_all(x, settle_events(u, w, reason))),
        chips(fold_all(x, settle_events(u, w, reason))) == chips(u),
        fold_all(x, settle_events(u, w, reason)).starting_stack == x.starting_stack,
        fold_all(x, settle_events(u, w, reason)).phase != Phase::Playing ==> fold_all(
            x,
            settle_events(u, w, reason),
        ).committed == zero2(),
{
    let t = settled_state(u, w);
    law_settling_keeps_chips(u, w);
    let payload = hand_end_payload(t, w, reason);
    let he: EventView = ("HAND_END"@, payload);
    assert(settle_events(u, w, reason) =~= seq![he] + after_hand(t));
    lemma_fold_all_append(x, seq![he], after_hand(t));
    lemma_fold_one(x, he);
    lemma_kind_hand_end(x, payload);
    lemma_hand_end(x, t, w, reason);
    let y1 = hand_end_spec(x, payload);
    lemma_after_hand(y1, t);
}

/// Folding the blinds of the hand after `t`, from a running game.
proof fn lemma_blinds(y: StateView, t: StateView)
    requires
        sized(y),
        y.phase == Phase::Playing,
        folds_ok(y, blinds_events(t)),
    ensures
        sized(fold_all(y, blinds_events(t))),
        chips(fold_all(y, blinds_events(t))) == chips(y),
        fold_all(y, blinds_events(t)).starting_stack == y.starting_stack,
        fold_all(y, blinds_events(t)).phase == Phase::Playing,
{
    let evs = blinds_events(t);
    let e0 = evs[0];
    let e1 = evs[1];
    let e2 = evs[2];
    assert(evs =~= seq![e0] + (seq![e1] + seq![e2]));
    lemma_fold_all_append(y, seq![e0], seq![e1] + seq![e2]);
    lemma_fold_one(y, e0);
    lemma_kind_action(y, e0.1);
    lemma_action_chips(y, e0.1);
    let y1 = action_spec(y, e0.1);
    lemma_fold_all_append(y1, seq![e1], seq![e2]);
    lemma_fold_one(y1, e1);
    lemma_kind_action(y1, e1.1);
    lemma_action_chips(y1, e1.1);
    let y2 = action_spec(y1, e1.1);
    lemma_fold_one(y2, e2);
    lemma_kind_pot(y2, e2.1);
}

proof fn lemma_fold_empty(s: StateView)
    ensures
        fold_all(s, Seq::<EventView>::empty()) == s,
{
    reveal(fold_all);
}

/// Folding what follows an action, from a folded state `x` with as many
/// chips as the state `u` the events were written from.
#[verifier::rlimit(40)]
proof fn lemma_resolve(x: StateView, u: StateView, fuel: nat)
    requires
        sized(x),
        sized(u),
        x.phase == Phase::Playing,
        resolve_ok(u, fuel),
        folds_ok(x, resolve_events(u, fuel)),
        chips(x) == chips(u),
    ensures
        sized(fold_all(x, resolve_events(u, fuel))),
        chips(fold_all(x, resolve_events(u, fuel))) == chips(x),
        fold_all(x, resolve_events(u, fuel)).starting_stack == x.starting_stack,
        fold_all(x, resolve_events(u, fuel)).phase != Phase::Playing ==> fold_all(
            x,
            resolve_events(u, fuel),
        ).committed == zero2(),
    decreases fuel,
{
    reveal_strlit("FOLD");
    reveal_strlit("SHOWDOWN");
    reveal_strlit("SPLIT");
    if fuel == 0 || (!(u.folded[0] || u.folded[1]) && !round_closed(u)) {
        assert(resolve_events(u, fuel) =~= Seq::<EventView>::empty());
        lemma_fold_empty(x);
    } else if u.folded[0] || u.folded[1] {
        lemma_settle(x, u, Some(if u.folded[0] { 1u8 } else { 0u8 }), "FOLD"@);
    } else {
        let s1 = StateView { bet: zero2(), acted: no2(), last_raise: 0, ..u };
        if u.street == Street::River {
            let w = showdown_winner(s1);
            lemma_settle(x, s1, w, if w is Some { "SHOWDOWN"@ } else { "SPLIT"@ });
        } else if u.street == Street::Settled {
            assert(resolve_events(u, fuel) =~= Seq::<EventView>::empty());
            lemma_fold_empty(x);
        } else {
            lemma_resolve_street(x, u, fuel);
        }
    }
}

/// A closed round before the river: the next street is dealt, and with both
/// players all in the betting goes on.
#[verifier::rlimit(40)]
proof fn lemma_resolve_street(x: StateView, u: StateView, fuel: nat)
    requires
        sized(x),
        sized(u),
        x.phase == Phase::Playing,
        fuel > 0,
        !(u.folded[0] || u.folded[1]),
        round_closed(u),
        u.street != Street::River,
        u.street != Street::Settled,
        resolve_ok(u, fuel),
        folds_ok(x, resolve_events(u, fuel)),
        chips(x) == chips(u),
    ensures
        sized(fold_all(x, resolve_events(u, fuel))),
        chips(fold_all(x, resolve_events(u, fuel))) == chips(x),
        fold_all(x, resolve_events(u, fuel)).starting_stack == x.starting_stack,
        fold_all(x, resolve_events(u, fuel)).phase != Phase::Playing ==> fold_all(
            x,
            resolve_events(u, fuel),
        ).committed == zero2(),
    decreases fuel, 0nat,
{
    let s1 = StateView { bet: zero2(), acted: no2(), last_raise: 0, ..u };
    let s3 = dealt_street(s1);
    let se = street_event(s1, s3.street);
    let pe: EventView = ("POT"@, int_dec(s3.pot()));
    let evs = seq![se, pe];
    let rest = if u.all_in[0] && u.all_in[1] {
        resolve_events(s3, (fuel - 1) as nat)
    } else {
        Seq::<EventView>::empty()
    };
    assert(resolve_events(u, fuel) == evs + rest);
    assert(evs =~= seq![se] + seq![pe]);
    lemma_fold_all_append(x, evs, rest);
    lemma_fold_all_append(x, seq![se], seq![pe]);
    lemma_fold_one(x, se);
    lemma_quiet(x, "STREET"@, se.1);
    let x1 = fold_spec(x, "STREET"@, se.1);
    lemma_fold_one(x1, pe);
    lemma_quiet(x1, "POT"@, pe.1);
    lemma_kind_pot(x1, pe.1);
    if u.all_in[0] && u.all_in[1] {
        lemma_resolve(x1, s3, (fuel - 1) as nat);
    } else {
        lemma_fold_empty(x1);
    }
}

proof fn lemma_lobby_events(s: StateView, evs: Seq<EventView>)
    requires
        chips_in_play(s),
        folds_ok(s, evs),
        evs.len() <= 2,
        forall|k: int|
            0 <= k < evs.len() ==> (#[trigger] evs[k]).0 == "PLAYER_JOINED"@ || evs[k].0 == "PLAYER_LEFT"@
                || evs[k].0 == "HOST_CHANGED"@ || evs[k].0 == "CHAT"@,
    ensures
        chips_in_play(fold_all(s, evs)),
{
    if evs.len() == 0 {
        reveal(fold_all);
    } else {
        let e0 = evs[0];
        lemma_quiet(s, e0.0, e0.1);
        if evs.len() == 1 {
            assert(evs =~= seq![e0]);
            lemma_fold_one(s, e0);
        } else {
            let e1 = evs[1];
            assert(evs =~= seq![e0] + seq![e1]);
            lemma_fold_all_append(s, seq![e0], seq![e1]);
            lemma_fold_one(s, e0);
            let y = fold_spec(s, e0.0, e0.1);
            lemma_fold_one(y, e1);
            lemma_quiet(y, e1.0, e1.1);
        }
    }
}

#[verifier::rlimit(40)]
proof fn lemma_start_events(s: StateView, payload: Seq<char>)
    requires
        chips_in_play(s),
        s.phase == Phase::Lobby,
        folds_ok(
            s,
            seq![
                ("GAME_STARTED"@, dec(start_params(payload).0 as nat) + " "@ + int_dec(start_params(payload).1 as int) + " "@
                    + int_dec(start_params(payload).2 as int)),
                hand_started_event(start_scratch(s, payload)),
            ] + blinds_events(start_scratch(s, payload)),
        ),
    ensures
        chips_in_play(
            fold_all(
                s,
                seq![
                    ("GAME_STARTED"@, dec(start_params(payload).0 as nat) + " "@ + int_dec(start_params(payload).1 as int)
                        + " "@ + int_dec(start_params(payload).2 as int)),
                    hand_started_event(start_scratch(s, payload)),
                ] + blinds_events(start_scratch(s, payload)),
            ),
        ),
{
    let (n, stack, sb) = start_params(payload);
    let t = start_scratch(s, payload);
    let gp = dec(n as nat) + " "@ + int_dec(stack as int) + " "@ + int_dec(sb as int);
    let ge: EventView = ("GAME_STARTED"@, gp);
    let hs = hand_started_event(t);
    let evs = seq![ge, hs] + blinds_events(t);
    assert(evs =~= seq![ge] + (seq![hs] + blinds_events(t)));
    lemma_fold_all_append(s, seq![ge], seq![hs] + blinds_events(t));
    lemma_fold_one(s, ge);
    lemma_kind_game_started(s, gp);
    let y1 = started_spec(s, gp);
    lemma_fold_all_append(y1, seq![hs], blinds_events(t));
    lemma_fold_one(y1, hs);
    lemma_kind_hand_started(y1, hs.1);
    let y2 = hand_started_spec(y1, hs.1);
    lemma_blinds(y2, t);
}

#[verifier::rlimit(40)]
proof fn lemma_action_events(s: StateView, p: Seq<char>)
    requires
        chips_in_play(s),
        s.phase == Phase::Playing,
        resolve_ok(action_spec(s, p), 16),
        folds_ok(
            s,
            seq![("ACTION"@, p), ("POT"@, int_dec(action_spec(s, p).pot()))] + resolve_events(action_spec(s, p), 16),
        ),
    ensures
        chips_in_play(
            fold_all(
                s,
                seq![("ACTION"@, p), ("POT"@, int_dec(action_spec(s, p).pot()))] + resolve_events(action_spec(s, p), 16),
            ),
        ),
{
    let t = action_spec(s, p);
    let ae: EventView = ("ACTION"@, p);
    let pe: EventView = ("POT"@, int_dec(t.pot()));
    let evs = seq![ae, pe] + resolve_events(t, 16);
    assert(evs =~= seq![ae] + (seq![pe] + resolve_events(t, 16)));
    lemma_fold_all_append(s, seq![ae], seq![pe] + resolve_events(t, 16));
    lemma_fold_one(s, ae);
    lemma_kind_action(s, p);
    lemma_action_chips(s, p);
    lemma_fold_all_append(t, seq![pe], resolve_events(t, 16));
    lemma_fold_one(t, pe);
    lemma_kind_pot(t, pe.1);
    lemma_resolve(t, t, 16);
}

/// Chips are neither made nor lost over a game: from any state where the
/// chips in play are twice the starting stack, with nothing committed
/// outside a running game, folding the events that any accepted command
/// writes keeps it so. In particular a finished game's two stacks add up to
/// twice the starting stack.
pub proof fn law_game_keeps_chips(s: StateView, player: Seq<char>, kind: Seq<char>, payload: Seq<char>)
    requires
        chips_in_play(s),
        validate_ok(s, player, kind, payload),
        validate_spec(s, player, kind, payload) is Ok,
        folds_ok(s, validate_spec(s, player, kind, payload)->Ok_0),
    ensures
        chips_in_play(fold_all(s, validate_spec(s, player, kind, payload)->Ok_0)),
{
    reveal_strlit("PLAYER_JOINED");
    reveal_strlit("PLAYER_LEFT");
    reveal_strlit("HOST_CHANGED");
    reveal_strlit("CHAT");
    if kind == "JOIN"@ || kind == "LEAVE"@ || kind == "CHAT"@ {
        lemma_lobby_events(s, validate_spec(s, player, kind, payload)->Ok_0);
    } else if kind == "START"@ {
        lemma_start_events(s, payload);
    } else {
        let i = index_of(s.players, player)->0;
        let p = action_check(s, i as int, kind, payload)->Ok_0;
        lemma_action_events(s, p);
    }
}

/// A fresh room holds two starting stacks and nothing committed.
pub proof fn law_initial_chips()
    ensures
        chips_in_play(initial_state()),
{
}

} // verus!
