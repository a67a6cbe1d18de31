//! The heads-up poker playground bot. It checks when checking is free, calls
//! when the price is at most 50 chips, and folds otherwise; it never bets or
//! raises. It follows the event log just far enough to know when it is to
//! act and what it owes.
use vstd::prelude::*;
use crate::lobby::{event, find_player, index_of, lemma_index_of};
use crate::playground::{join_roster, roster_joined};
use crate::text::{
    parse_signed, parse_unsigned, str_is, tokens, word_i64, word_is, word_string, word_unsigned,
    words_of, words_view,
};

verus! {

pub const CHEAP_CALL_LIMIT: i64 = 50;

pub struct PokerStrategy {
    pub players: Vec<String>,
    pub bot_idx: Option<usize>,
    pub dealer: u8,
    /// The seat (0 or 1) to act on the current street.
    pub to_act: u8,
    pub bet_in_street: [i64; 2],
    pub in_hand: bool,
    /// The largest bet seen on this street.
    pub last_raise_size: i64,
}

pub struct PokerBotView {
    pub players: Seq<Seq<char>>,
    pub bot_idx: Option<usize>,
    pub dealer: u8,
    pub to_act: u8,
    pub bets: Seq<i64>,
    pub in_hand: bool,
    pub last_raise: i64,
}

impl View for PokerStrategy {
    type V = PokerBotView;

    open spec fn view(&self) -> PokerBotView {
        PokerBotView {
            players: self.players.deep_view(),
            bot_idx: self.bot_idx,
            dealer: self.dealer,
            to_act: self.to_act,
            bets: self.bet_in_street@,
            in_hand: self.in_hand,
            last_raise: self.last_raise_size,
        }
    }
}

impl Default for PokerStrategy {
    fn default() -> (s: Self)
        ensures
            s@ == (PokerBotView {
                players: seq![],
                bot_idx: None,
                dealer: 0,
                to_act: 0,
                bets: seq![0i64, 0i64],
                in_hand: false,
                last_raise: 0,
            }),
    {
        let s = PokerStrategy {
            players: Vec::new(),
            bot_idx: None,
            dealer: 0,
            to_act: 0,
            bet_in_street: [0, 0],
            in_hand: false,
            last_raise_size: 0,
        };
        proof {
            assert(s@.players =~= seq![]);
            assert(s@.bets =~= seq![0i64, 0i64]);
        }
        s
    }
}

/// The seat of a roster member.
pub open spec fn seat(ps: Seq<Seq<char>>, pid: Seq<char>) -> Option<usize> {
    match index_of(ps, pid) {
        Some(i) => Some(i as usize),
        None => None,
    }
}

/// The bot's seat, or 0 when it has none.
pub open spec fn me(v: PokerBotView) -> int {
    match v.bot_idx {
        Some(i) => i as int,
        None => 0,
    }
}

/// What the bot owes to call: how far the other seat's bet is ahead.
pub open spec fn to_call(v: PokerBotView) -> int {
    let d = v.bets[1 - me(v)] - v.bets[me(v)];
    if d > 0 {
        d
    } else {
        0
    }
}

/// The bot's action when it is to act.
pub open spec fn pick(v: PokerBotView) -> (Seq<char>, Seq<char>) {
    let c = to_call(v);
    if c == 0 {
        ("CHECK"@, ""@)
    } else if c <= CHEAP_CALL_LIMIT {
        ("CALL"@, ""@)
    } else {
        ("FOLD"@, ""@)
    }
}

/// The price to call can be computed: the bot sits in one of the two
/// seats and the difference of the bets fits in an `i64`.
pub open spec fn pick_ok(v: PokerBotView) -> bool {
    0 <= me(v) <= 1 && i64::MIN <= v.bets[1 - me(v)] - v.bets[me(v)] <= i64::MAX
}

pub open spec fn my_turn(v: PokerBotView) -> bool {
    match v.bot_idx {
        Some(i) => (i as u8) == v.to_act,
        None => false,
    }
}

/// `ACTION <pid> <verb> [amount]` as the bot tracks it.
pub open spec fn applied(v: PokerBotView, pid: Seq<char>, verb: Seq<char>, amt: i64) -> PokerBotView {
    match index_of(v.players, pid) {
        None => v,
        Some(i) => {
            let other = (1 - (i as u8)) as u8;
            if verb == "POST"@ {
                PokerBotView {
                    bets: v.bets.update(i as int, amt),
                    last_raise: if amt > v.last_raise { amt } else { v.last_raise },
                    to_act: v.dealer,
                    ..v
                }
            } else if verb == "FOLD"@ {
                PokerBotView { in_hand: false, ..v }
            } else if verb == "CHECK"@ {
                PokerBotView { to_act: other, ..v }
            } else if verb == "CALL"@ {
                PokerBotView { bets: v.bets.update(i as int, (v.bets[i as int] + amt) as i64), to_act: other, ..v }
            } else if verb == "BET"@ || verb == "RAISE"@ {
                let nb = if v.bets[i as int] >= amt { v.bets[i as int] } else { amt };
                PokerBotView { bets: v.bets.update(i as int, nb), last_raise: nb, to_act: other, ..v }
            } else if verb == "ALLIN"@ {
                PokerBotView { bets: v.bets.update(i as int, (v.bets[i as int] + amt) as i64), to_act: other, ..v }
            } else {
                v
            }
        },
    }
}

/// The inputs on which tracking an action computes without a panic: the
/// actor's seat indexes the two bets, and a call or all-in does not
/// overflow.
pub open spec fn apply_ok(v: PokerBotView, pid: Seq<char>, verb: Seq<char>, amt: i64) -> bool {
    match index_of(v.players, pid) {
        None => true,
        Some(i) => if verb == "POST"@ {
            i < 2
        } else if verb == "FOLD"@ {
            true
        } else if verb == "CHECK"@ {
            (i as u8) <= 1
        } else if verb == "CALL"@ {
            i < 2 && i64::MIN <= v.bets[i as int] + amt <= i64::MAX
        } else if verb == "BET"@ || verb == "RAISE"@ {
            i < 2
        } else if verb == "ALLIN"@ {
            i < 2 && i64::MIN <= v.bets[i as int] + amt <= i64::MAX
        } else {
            true
        },
    }
}

/// The amount of an `ACTION` payload: its third word, 0 when absent or
/// unreadable.
pub open spec fn action_amount(t: Seq<Seq<char>>) -> i64 {
    if t.len() > 2 {
        match parse_signed(t[2], i64::MIN as int, i64::MAX as int) {
            Some(a) => a as i64,
            None => 0,
        }
    } else {
        0
    }
}

pub open spec fn answer_if(go: bool, w: PokerBotView) -> Option<(Seq<char>, Seq<char>)> {
    if go {
        Some(pick(w))
    } else {
        None
    }
}

/// The bot after one event, and its answer.
pub open spec fn poker_bot_step(v: PokerBotView, bot: Seq<char>, kind: Seq<char>, payload: Seq<char>) -> (
    PokerBotView,
    Option<(Seq<char>, Seq<char>)>,
) {
    if kind == "PLAYER_JOINED"@ {
        let ps = roster_joined(v.players, payload);
        (PokerBotView { players: ps, bot_idx: seat(ps, bot), ..v }, None)
    } else if kind == "GAME_STARTED"@ {
        (PokerBotView { bot_idx: seat(v.players, bot), ..v }, None)
    } else if kind == "HAND_STARTED"@ {
        let t = tokens(payload);
        let d: u8 = if t.len() > 1 {
            match parse_unsigned(t[1], u8::MAX as nat) {
                Some(n) => n as u8,
                None => 0,
            }
        } else {
            0
        };
        (
            PokerBotView {
                dealer: d,
                bets: seq![0i64, 0i64],
                last_raise: 0,
                in_hand: true,
                to_act: d,
                ..v
            },
            None,
        )
    } else if kind == "STREET"@ {
        let w = PokerBotView {
            bets: seq![0i64, 0i64],
            last_raise: 0,
            to_act: (1 - v.dealer) as u8,
            ..v
        };
        (w, answer_if(my_turn(w), w))
    } else if kind == "ACTION"@ {
        let t = tokens(payload);
        if t.len() < 2 {
            (v, None)
        } else {
            let w = applied(v, t[0], t[1], action_amount(t));
            (w, answer_if(w.in_hand && my_turn(w), w))
        }
    } else if kind == "HAND_END"@ {
        (PokerBotView { in_hand: false, bets: seq![0i64, 0i64], ..v }, None)
    } else {
        (v, None)
    }
}

/// The events on which the bot computes without a panic: the dealer is
/// one of the two seats when a street opens, tracked actions index the two
/// bets, and the price to call can be computed whenever the bot acts.
pub open spec fn poker_bot_ok(v: PokerBotView, bot: Seq<char>, kind: Seq<char>, payload: Seq<char>) -> bool {
    if kind == "PLAYER_JOINED"@ || kind == "GAME_STARTED"@ || kind == "HAND_STARTED"@ {
        true
    } else if kind == "STREET"@ {
        v.dealer <= 1 && (my_turn(poker_bot_step(v, bot, kind, payload).0) ==> pick_ok(
            poker_bot_step(v, bot, kind, payload).0,
        ))
    } else if kind == "ACTION"@ {
        let t = tokens(payload);
        let w = poker_bot_step(v, bot, kind, payload).0;
        t.len() >= 2 ==> apply_ok(v, t[0], t[1], action_amount(t)) && (w.in_hand && my_turn(w)
            ==> pick_ok(w))
    } else {
        true
    }
}

impl PokerStrategy {
    fn idx_of(&self, pid: &str) -> (r: Option<usize>)
        ensures
            r == seat(self.players.deep_view(), pid@),
            r matches Some(i) ==> index_of(self.players.deep_view(), pid@) == Some(i as nat),
    {
        proof {
            lemma_index_of(self.players.deep_view(), pid@);
            assert(self.players.deep_view().len() == self.players.len());
        }
        find_player(&self.players, pid)
    }

    fn am_i_to_act(&self) -> (b: bool)
        ensures
            b == my_turn(self@),
    {
        match self.bot_idx {
            Some(i) => i as u8 == self.to_act,
            None => false,
        }
    }

    fn to_call(&self) -> (c: i64)
        requires
            pick_ok(self@),
        ensures
            c == to_call(self@),
    {
        let me: usize = match self.bot_idx {
            Some(i) => i,
            None => 0,
        };
        let opp = 1 - me;
        let d = self.bet_in_street[opp] - self.bet_in_street[me];
        if d > 0 {
            d
        } else {
            0
        }
    }

    fn pick_action(&self) -> (a: (String, String))
        requires
            pick_ok(self@),
        ensures
            (a.0@, a.1@) == pick(self@),
    {
        let c = self.to_call();
        proof {
            reveal_strlit("");
        }
        if c == 0 {
            event("CHECK", String::new())
        } else if c <= CHEAP_CALL_LIMIT {
            event("CALL", String::new())
        } else {
            event("FOLD", String::new())
        }
    }

    fn apply_action(&mut self, pid: &str, verb: &str, amt: i64)
        requires
            apply_ok(old(self)@, pid@, verb@, amt),
        ensures
            final(self)@ == applied(old(self)@, pid@, verb@, amt),
    {
        let i = match self.idx_of(pid) {
            Some(i) => i,
            None => {
                return;
            },
        };
        if str_is(verb, "POST") {
            self.bet_in_street[i] = amt;
            if amt > self.last_raise_size {
                self.last_raise_size = amt;
            }
            self.to_act = self.dealer;
        } else if str_is(verb, "FOLD") {
            self.in_hand = false;
        } else if str_is(verb, "CHECK") {
            self.to_act = 1 - i as u8;
        } else if str_is(verb, "CALL") {
            self.bet_in_street[i] = self.bet_in_street[i] + amt;
            self.to_act = 1 - i as u8;
        } else if str_is(verb, "BET") || str_is(verb, "RAISE") {
            let nb = if self.bet_in_street[i] >= amt {
                self.bet_in_street[i]
            } else {
                amt
            };
            self.bet_in_street[i] = nb;
            self.last_raise_size = nb;
            self.to_act = 1 - i as u8;
        } else if str_is(verb, "ALLIN") {
            self.bet_in_street[i] = self.bet_in_street[i] + amt;
            self.to_act = 1 - i as u8;
        }
        proof {
            assert(self@.bets =~= applied(old(self)@, pid@, verb@, amt).bets);
        }
    }

    pub fn react(&mut self, bot_pid: &str, kind: &str, payload: &str) -> (r: Option<(String, String)>)
        requires
            poker_bot_ok(old(self)@, bot_pid@, kind@, payload@),
        ensures
            (final(self)@, r.deep_view()) == poker_bot_step(old(self)@, bot_pid@, kind@, payload@),
    {
        if str_is(kind, "PLAYER_JOINED") {
            join_roster(&mut self.players, payload);
            self.bot_idx = self.idx_of(bot_pid);
            None
        } else if str_is(kind, "GAME_STARTED") {
            self.bot_idx = self.idx_of(bot_pid);
            None
        } else if str_is(kind, "HAND_STARTED") {
            let parts = words_of(payload);
            self.dealer = if parts.len() > 1 {
                match word_unsigned(&parts, 1, u8::MAX as u64) {
                    Some(n) => n as u8,
                    None => 0,
                }
            } else {
                0
            };
            self.bet_in_street = [0, 0];
            self.last_raise_size = 0;
            self.in_hand = true;
            self.to_act = self.dealer;
            proof {
                assert(self@.bets =~= seq![0i64, 0i64]);
            }
            None
        } else if str_is(kind, "STREET") {
            self.bet_in_street = [0, 0];
            self.last_raise_size = 0;
            self.to_act = 1 - self.dealer;
            proof {
                assert(self@.bets =~= seq![0i64, 0i64]);
            }
            if self.am_i_to_act() {
                Some(self.pick_action())
            } else {
                None
            }
        } else if str_is(kind, "ACTION") {
            let parts = words_of(payload);
            if parts.len() < 2 {
                return None;
            }
            let amt: i64 = if parts.len() > 2 {
                match word_i64(&parts, 2) {
                    Some(a) => a,
                    None => 0,
                }
            } else {
                0
            };
            let pid = word_string(&parts, 0);
            let verb = word_string(&parts, 1);
            self.apply_action(pid.as_str(), verb.as_str(), amt);
            if self.in_hand && self.am_i_to_act() {
                Some(self.pick_action())
            } else {
                None
            }
        } else if str_is(kind, "HAND_END") {
            self.in_hand = false;
            self.bet_in_street = [0, 0];
            proof {
                assert(self@.bets =~= seq![0i64, 0i64]);
            }
            None
        } else {
            None
        }
    }
}

/// The bot never bets, raises or goes all in: when it acts, it checks,
/// calls or folds, with an empty payload.
pub proof fn law_never_raises(v: PokerBotView, bot: Seq<char>, kind: Seq<char>, payload: Seq<char>)
    ensures
        poker_bot_step(v, bot, kind, payload).1 matches Some(a) ==> (a.0 == "CHECK"@ || a.0 == "CALL"@
            || a.0 == "FOLD"@) && a.1 == ""@,
{
}

} // verus!
