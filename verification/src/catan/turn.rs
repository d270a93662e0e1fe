//! The course of a game at the table: whose action is awaited, what an
//! action leads to, and what everyone is told. Each step takes the action
//! of the player that was asked and gives the messages to send and whom to
//! ask next; whoever runs the table does the asking and the sending.
use crate::catan::element::{
    tiles_around, BuildCity, BuildRoad, BuildSettlement, BuyDevelopmentCard, GameAct, GameMsg,
    OfferResources, SelectRobber, Trade, TradeRequest, TradeResponse, TradeTarget, UseDevelopmentCard,
};
use crate::catan::rules::{self, GameState, PlayerState};
use crate::catan::game::{Catan, GameUpdate};
use crate::catan::data::{basic_board, CatanDataSetup};
use crate::catan::element::{GameStart, PlayerCommon, Tile, TileKind};
use crate::catan::rules::GameError;
use crate::element::{Coordinate, Line};
use vstd::prelude::*;

verus! {

/// A message to send: to every player, or to one of them.
#[derive(Debug)]
pub enum Outgoing {
    All(GameMsg),
    One(usize, GameMsg),
}

/// What the table waits for next.
#[derive(Debug, Clone, Copy, PartialEq, Eq, Structural)]
pub enum Prompt {
    /// The next action of this player.
    Act(usize),
    /// Nothing more: this player has won.
    Won(usize),
}

/// Why the game cannot go on.
#[derive(Debug, Clone, Copy, PartialEq, Eq)]
pub enum Fault {
    /// The action does not fit what the table waits for.
    UnexpectedAction,
    /// A second development card in one turn.
    CardAlreadyUsed,
    /// A fourth trade request in one turn.
    TooManyTradeRequests,
    /// A player accepted a trade without what it would have to give.
    ResponderLacksResources,
    /// Something other than an answer to a trade request.
    UnexpectedTradeResponse,
    /// A trade confirmed with oneself or with no player of the game.
    InvalidPlayerIndex,
    /// A trade confirmed with a player that did not accept it.
    TradeRejected,
    /// Something other than a confirmation of a trade.
    UnexpectedTradeConfirm,
    /// A move that must succeed was refused, for this reason.
    Refused(crate::catan::rules::GameError),
    /// The rules cannot go on from this state (see `rules::update`).
    RulesStopped,
    /// The game is over.
    GameOver,
}

/// The chance a step may need: two dice, and the pick of a resource a
/// robber steals.
#[derive(Debug, Clone, Copy)]
pub struct Draw {
    pub first: usize,
    pub second: usize,
    pub steal: usize,
}

/// Where the game stands, as the rules see it.
pub enum Stage {
    /// Setup: the player places a settlement; in the first round the
    /// players come in order, in the second (`second`) in reverse.
    SetupSettlement { player: usize, second: bool },
    /// Setup: the player places a road next.
    SetupRoad { player: usize, second: bool },
    /// A seven was rolled: the current player moves the robber.
    Robber,
    /// The current player acts; whether it played a development card this
    /// turn, and how many trades it requested.
    Turn { card_used: bool, trades: usize },
    /// A trade request to the other players is out: player `next` answers.
    Answers {
        card_used: bool,
        trades: usize,
        request: TradeRequest,
        next: usize,
        responses: Seq<TradeResponse>,
    },
    /// Every other player has answered: the current player confirms.
    Confirm { card_used: bool, trades: usize, request: TradeRequest, responses: Seq<TradeResponse> },
    /// The game is over: this player won.
    Over(usize),
}

/// Where the game stands.
pub enum Phase {
    SetupSettlement { player: usize, second: bool },
    SetupRoad { player: usize, second: bool },
    Robber,
    Turn { card_used: bool, trades: usize },
    Answers {
        card_used: bool,
        trades: usize,
        request: TradeRequest,
        next: usize,
        responses: Vec<TradeResponse>,
    },
    Confirm { card_used: bool, trades: usize, request: TradeRequest, responses: Vec<TradeResponse> },
    Over(usize),
}

impl View for Phase {
    type V = Stage;

    open spec fn view(&self) -> Stage {
        match self {
            Phase::SetupSettlement { player, second } => Stage::SetupSettlement {
                player: *player,
                second: *second,
            },
            Phase::SetupRoad { player, second } => Stage::SetupRoad { player: *player, second: *second },
            Phase::Robber => Stage::Robber,
            Phase::Turn { card_used, trades } => Stage::Turn { card_used: *card_used, trades: *trades },
            Phase::Answers { card_used, trades, request, next, responses } => Stage::Answers {
                card_used: *card_used,
                trades: *trades,
                request: *request,
                next: *next,
                responses: responses@,
            },
            Phase::Confirm { card_used, trades, request, responses } => Stage::Confirm {
                card_used: *card_used,
                trades: *trades,
                request: *request,
                responses: responses@,
            },
            Phase::Over(w) => Stage::Over(*w),
        }
    }
}

/// What a board counter shows of a player's state.
pub open spec fn shows_player(b: PlayerCommon, p: PlayerState) -> bool {
    &&& b.score == p.score
    &&& b.resources@ == p.resources
    &&& b.cards@ == p.cards
    &&& b.roads@ == p.roads
    &&& b.settlement_left == p.settlement_left
    &&& b.city_left == p.city_left
}

/// The starting message shows the board of `s`: its tiles, harbors, robber
/// and dice numbers, and every player's counters.
pub open spec fn start_shows(g: GameStart, s: GameState) -> bool {
    &&& Seq::new(g.tile@.len(), |i: int| g.tile@[i]@) == s.tiles
    &&& g.harbor@ == s.harbors
    &&& g.robber == s.robber
    &&& g.dice_map@ == s.dice
    &&& g.players@.len() == s.players.len()
    &&& forall|k: int| 0 <= k < s.players.len() ==> shows_player(#[trigger] g.players@[k], s.players[k])
}

/// The road between two points, in the direction the board stores it:
/// from `from` when both are in the same row, else from `to`.
pub open spec fn orient(from: Coordinate, to: Coordinate) -> Line {
    if from.x == to.x {
        Line { start: from, end: to }
    } else {
        Line { start: to, end: from }
    }
}

/// The sum of two six-sided dice drawn from `d`.
pub open spec fn dice_of(d: Draw) -> int {
    1 + (d.first % 6) + 1 + (d.second % 6)
}

/// The player asked after player `i` for an answer to a trade request of
/// `cur`: the next one, skipping `cur`.
pub open spec fn responder_after(i: int, cur: usize) -> int {
    if i + 1 == cur {
        i + 2
    } else {
        i + 1
    }
}

/// Hands over what is queued: first the messages to everyone, then those
/// to the current player; both queues end empty.
pub open spec fn flush(s: GameState) -> (GameState, Seq<Outgoing>) {
    let cur = s.current_player;
    let p = s.players[cur as int];
    (
        GameState {
            broadcast: Seq::empty(),
            players: s.players.update(cur as int, PlayerState { messages: Seq::empty(), ..p }),
            ..s
        },
        s.broadcast.map_values(|m: GameMsg| Outgoing::All(m)) + p.messages.map_values(
            |m: GameMsg| Outgoing::One(cur, m),
        ),
    )
}

/// The state after a move whose outcome the table ignores; `None` where the
/// rules stop.
pub open spec fn moved(s: GameState, u: GameUpdate, d: Draw) -> Option<GameState> {
    match rules::update(s, u, d.steal) {
        None => None,
        Some((s1, _)) => Some(s1),
    }
}

/// The state after a move that must succeed.
pub open spec fn must(s: GameState, u: GameUpdate, d: Draw) -> Result<GameState, Fault> {
    match rules::update(s, u, d.steal) {
        None => Err(Fault::RulesStopped),
        Some((_, Err(e))) => Err(Fault::Refused(e)),
        Some((s1, Ok(()))) => Ok(s1),
    }
}

/// Flushes `s` after the messages `out`, and waits for `who` in `st`.
pub open spec fn settle(s: GameState, st: Stage, out: Seq<Outgoing>, who: usize) -> Result<
    (GameState, Stage, Seq<Outgoing>, Prompt),
    Fault,
> {
    Ok((flush(s).0, st, out + flush(s).1, Prompt::Act(who)))
}

/// In the second setup round, the new settlement of `player` yields one of
/// each resource that the tiles around it produce: each such tile, in
/// order, makes an offer of one (which, see `rules::offer_resources`, sets
/// the counter to twenty).
pub open spec fn setup_offers(s: GameState, player: usize, tiles: Seq<Option<Coordinate>>) -> Option<
    GameState,
>
    decreases tiles.len(),
{
    if tiles.len() == 0 {
        Some(s)
    } else {
        match setup_offers(s, player, tiles.drop_last()) {
            None => None,
            Some(s1) => match tiles.last() {
                None => Some(s1),
                Some(t) => {
                    let k = rules::tile_of(s1, t).kind_of();
                    if k.produces() {
                        match rules::update(
                            s1,
                            GameUpdate::OfferResources(OfferResources { player, count: 1, kind: k }),
                            0,
                        ) {
                            None => None,
                            Some((s2, _)) => Some(s2),
                        }
                    } else {
                        Some(s1)
                    }
                },
            },
        }
    }
}

/// A turn starts: everyone learns whose turn it is and the dice. On a seven
/// the player moves the robber; otherwise the tiles of the number pay out,
/// what is queued is flushed, and the player acts.
pub open spec fn start_turn(s: GameState, d: Draw, out: Seq<Outgoing>) -> Result<
    (GameState, Stage, Seq<Outgoing>, Prompt),
    Fault,
> {
    let cur = s.current_player;
    let dice = dice_of(d) as usize;
    let out1 = out + seq![
        Outgoing::All(GameMsg::PlayerTurn(cur)),
        Outgoing::All(GameMsg::PlayerRollDice(dice)),
    ];
    if dice == 7 {
        Ok((s, Stage::Robber, out1, Prompt::Act(cur)))
    } else {
        match moved(s, GameUpdate::HitDice(dice), d) {
            None => Err(Fault::RulesStopped),
            Some(s1) => settle(s1, Stage::Turn { card_used: false, trades: 0 }, out1, cur),
        }
    }
}

/// A turn ends: everyone is told, the longest road title is checked, and
/// either a player has won or the next player's turn starts.
pub open spec fn end_turn(s: GameState, d: Draw) -> Result<(GameState, Stage, Seq<Outgoing>, Prompt), Fault> {
    let cur = s.current_player;
    let out = seq![Outgoing::All(GameMsg::PlayerEndTurn(cur))];
    if !rules::longest_road_fits(s) {
        Err(Fault::RulesStopped)
    } else {
        let s1 = rules::check_longest_road(s);
        match rules::winner(s1) {
            Some(w) => Ok((s1, Stage::Over(w), out, Prompt::Won(w))),
            None => start_turn(
                GameState { current_player: ((cur + 1) % (s1.players.len() as int)) as usize, ..s1 },
                d,
                out,
            ),
        }
    }
}

/// An action of the current player in its turn. Building is tried and its
/// outcome ignored; buying or playing a card must succeed, and one card at
/// most is played a turn; at most three trades are requested a turn, and a
/// request to the other players asks each of them in order (a request to
/// the bank or a harbor does nothing more); ending the turn ends it (see
/// `end_turn`); other actions are ignored. What is queued is flushed after
/// each action that does not end the turn or ask others.
pub open spec fn turn_action(s: GameState, card_used: bool, trades: usize, act: GameAct, d: Draw) -> Result<
    (GameState, Stage, Seq<Outgoing>, Prompt),
    Fault,
> {
    let cur = s.current_player;
    let n = s.players.len();
    let here = Stage::Turn { card_used, trades };
    match act {
        GameAct::BuildRoad(from, to) => match moved(
            s,
            GameUpdate::BuildRoad(BuildRoad { player: cur, road: orient(from, to) }),
            d,
        ) {
            None => Err(Fault::RulesStopped),
            Some(s1) => settle(s1, here, Seq::empty(), cur),
        },
        GameAct::BuildSettlement(c) => match moved(
            s,
            GameUpdate::BuildSettlement(BuildSettlement { player: cur, point: c }),
            d,
        ) {
            None => Err(Fault::RulesStopped),
            Some(s1) => settle(s1, here, Seq::empty(), cur),
        },
        GameAct::BuildCity(c) => match moved(s, GameUpdate::BuildCity(BuildCity { player: cur, point: c }), d) {
            None => Err(Fault::RulesStopped),
            Some(s1) => settle(s1, here, Seq::empty(), cur),
        },
        GameAct::BuyDevelopmentCard => match must(
            s,
            GameUpdate::BuyDevelopmentCard(BuyDevelopmentCard { player: cur, card: None }),
            d,
        ) {
            Err(f) => Err(f),
            Ok(s1) => settle(s1, here, Seq::empty(), cur),
        },
        GameAct::UseDevelopmentCard((card, usage)) => if card_used {
            Err(Fault::CardAlreadyUsed)
        } else {
            match must(
                s,
                GameUpdate::UseDevelopmentCard(UseDevelopmentCard { player: cur, usage, card }),
                d,
            ) {
                Err(f) => Err(f),
                Ok(s1) => settle(s1, Stage::Turn { card_used: true, trades }, Seq::empty(), cur),
            }
        },
        GameAct::TradeRequest(request) => if trades >= 3 {
            Err(Fault::TooManyTradeRequests)
        } else if request.target_of() == TradeTarget::Player {
            let out = seq![Outgoing::All(GameMsg::PlayerTradeRequest((cur, request)))];
            let responses = Seq::new(n, |i: int| TradeResponse::Reject);
            let first = responder_after(-1, cur);
            if first < n {
                Ok(
                    (
                        s,
                        Stage::Answers {
                            card_used,
                            trades: (trades + 1) as usize,
                            request,
                            next: first as usize,
                            responses,
                        },
                        out,
                        Prompt::Act(first as usize),
                    ),
                )
            } else {
                Ok(
                    (
                        s,
                        Stage::Confirm { card_used, trades: (trades + 1) as usize, request, responses },
                        out,
                        Prompt::Act(cur),
                    ),
                )
            }
        } else {
            settle(s, Stage::Turn { card_used, trades: (trades + 1) as usize }, Seq::empty(), cur)
        },
        GameAct::EndTurn => end_turn(s, d),
        _ => settle(s, here, Seq::empty(), cur),
    }
}

/// Player `next` answers a trade request. Accepting needs what the request
/// asks for; everyone learns the answer; the next player is asked, or,
/// after the last, the current player confirms.
pub open spec fn answer(
    s: GameState,
    card_used: bool,
    trades: usize,
    request: TradeRequest,
    next: usize,
    responses: Seq<TradeResponse>,
    act: GameAct,
) -> Result<(GameState, Stage, Seq<Outgoing>, Prompt), Fault> {
    let cur = s.current_player;
    match act {
        GameAct::TradeResponse(resp) => {
            let ok = if resp == TradeResponse::Accept {
                rules::covers(s.players[next as int].resources, request.wanted())
            } else {
                Some(true)
            };
            match ok {
                None => Err(Fault::RulesStopped),
                Some(false) => Err(Fault::ResponderLacksResources),
                Some(true) => {
                    let rs = responses.update(next as int, resp);
                    let out = seq![Outgoing::All(GameMsg::PlayerTradeResponse((next, resp)))];
                    let after = responder_after(next as int, cur);
                    if after < s.players.len() {
                        Ok(
                            (
                                s,
                                Stage::Answers {
                                    card_used,
                                    trades,
                                    request,
                                    next: after as usize,
                                    responses: rs,
                                },
                                out,
                                Prompt::Act(after as usize),
                            ),
                        )
                    } else {
                        Ok(
                            (
                                s,
                                Stage::Confirm { card_used, trades, request, responses: rs },
                                out,
                                Prompt::Act(cur),
                            ),
                        )
                    }
                },
            }
        },
        _ => Err(Fault::UnexpectedTradeResponse),
    }
}

/// The current player confirms a trade with a player that accepted it, or
/// calls it off; the trade must go through.
pub open spec fn confirm(
    s: GameState,
    card_used: bool,
    trades: usize,
    request: TradeRequest,
    responses: Seq<TradeResponse>,
    act: GameAct,
    d: Draw,
) -> Result<(GameState, Stage, Seq<Outgoing>, Prompt), Fault> {
    let cur = s.current_player;
    let back = Stage::Turn { card_used, trades };
    match act {
        GameAct::TradeConfirm(Some(i)) => if i == cur || i >= s.players.len() {
            Err(Fault::InvalidPlayerIndex)
        } else if responses[i as int] != TradeResponse::Accept {
            Err(Fault::TradeRejected)
        } else {
            match must(s, GameUpdate::Trade(Some(Trade { from: cur, to: i, request })), d) {
                Err(f) => Err(f),
                Ok(s1) => settle(s1, back, Seq::empty(), cur),
            }
        },
        GameAct::TradeConfirm(None) => match must(s, GameUpdate::Trade(None), d) {
            Err(f) => Err(f),
            Ok(s1) => settle(s1, back, Seq::empty(), cur),
        },
        _ => Err(Fault::UnexpectedTradeConfirm),
    }
}

/// What the action `act` of the player asked leads to from state `s` at
/// stage `st`, with the chance `d`: the next state and stage, the messages
/// to send in order, and whom to ask next; or why the game cannot go on.
///
/// Setup: each player in order places a settlement and then a road, then
/// each in reverse order again, the second settlement yielding the
/// resources around it (see `setup_offers`); everyone learns whose setup
/// move is next; after the last the game starts with the first player's
/// turn (see `start_turn`). After a seven the robber must be moved. Turns:
/// see `turn_action`, `answer` and `confirm`.
pub open spec fn advance(s: GameState, st: Stage, act: GameAct, d: Draw) -> Result<
    (GameState, Stage, Seq<Outgoing>, Prompt),
    Fault,
> {
    let cur = s.current_player;
    let n = s.players.len();
    match st {
        Stage::SetupSettlement { player, second } => match act {
            GameAct::BuildSettlement(c) => match moved(
                s,
                GameUpdate::BuildSettlement(BuildSettlement { player, point: c }),
                d,
            ) {
                None => Err(Fault::RulesStopped),
                Some(s1) => {
                    let s2 = if second {
                        setup_offers(s1, player, tiles_around(s1.tiles, s1.points, c))
                    } else {
                        Some(s1)
                    };
                    match s2 {
                        None => Err(Fault::RulesStopped),
                        Some(s2) => settle(s2, Stage::SetupRoad { player, second }, Seq::empty(), player),
                    }
                },
            },
            _ => Err(Fault::UnexpectedAction),
        },
        Stage::SetupRoad { player, second } => match act {
            GameAct::BuildRoad(from, to) => match moved(
                s,
                GameUpdate::BuildRoad(BuildRoad { player, road: orient(from, to) }),
                d,
            ) {
                None => Err(Fault::RulesStopped),
                Some(s1) => {
                    let s2 = flush(s1).0;
                    let f = flush(s1).1;
                    if !second {
                        let p = if player + 1 < n {
                            (player + 1) as usize
                        } else {
                            player
                        };
                        Ok(
                            (
                                s2,
                                Stage::SetupSettlement { player: p, second: player + 1 >= n },
                                f.push(Outgoing::All(GameMsg::PlayerInit(p))),
                                Prompt::Act(p),
                            ),
                        )
                    } else if player > 0 {
                        let p = (player - 1) as usize;
                        Ok(
                            (
                                s2,
                                Stage::SetupSettlement { player: p, second: true },
                                f.push(Outgoing::All(GameMsg::PlayerInit(p))),
                                Prompt::Act(p),
                            ),
                        )
                    } else {
                        start_turn(GameState { is_initialized: true, ..s2 }, d, f)
                    }
                },
            },
            _ => Err(Fault::UnexpectedAction),
        },
        Stage::Robber => match act {
            GameAct::SelectRobber((target, coord)) => match must(
                s,
                GameUpdate::SelectRobber(SelectRobber { player: cur, target, coord }),
                d,
            ) {
                Err(f) => Err(f),
                Ok(s1) => settle(s1, Stage::Turn { card_used: false, trades: 0 }, Seq::empty(), cur),
            },
            _ => Err(Fault::UnexpectedAction),
        },
        Stage::Turn { card_used, trades } => turn_action(s, card_used, trades, act, d),
        Stage::Answers { card_used, trades, request, next, responses } => answer(
            s,
            card_used,
            trades,
            request,
            next,
            responses,
            act,
        ),
        Stage::Confirm { card_used, trades, request, responses } => confirm(
            s,
            card_used,
            trades,
            request,
            responses,
            act,
            d,
        ),
        Stage::Over(_) => Err(Fault::GameOver),
    }
}

/// The table can go on: there is a player, and the current player is one.
pub open spec fn table_ok(s: GameState) -> bool {
    &&& s.players.len() >= 1
    &&& s.current_player < s.players.len()
}

/// The stage names players of a game of `n` players, and a trade request
/// out has an answer slot for each of them.
pub open spec fn stage_fits(st: Stage, s: GameState) -> bool {
    let n = s.players.len();
    match st {
        Stage::SetupSettlement { player, .. } => player < n,
        Stage::SetupRoad { player, .. } => player < n,
        Stage::Answers { next, responses, .. } => next < n && responses.len() == n,
        Stage::Confirm { responses, .. } => responses.len() == n,
        _ => true,
    }
}

/// Whether the player at turn may take `act` on the stage `st`: a second
/// development card in one turn, and a fourth trade request, are not moves
/// of the game at all.
pub open spec fn turn_allows(st: Stage, act: GameAct) -> bool {
    match st {
        Stage::Turn { card_used, trades } => !(card_used && act is UseDevelopmentCard) && !(trades >= 3
            && act is TradeRequest),
        _ => true,
    }
}

/// Setup offers that stop on a prefix of the tiles stop on all of them.
pub proof fn lemma_setup_offers_prefix(s: GameState, player: usize, tiles: Seq<Option<Coordinate>>, j: int)
    requires
        0 <= j <= tiles.len(),
    ensures
        setup_offers(s, player, tiles.take(j)) is None ==> setup_offers(s, player, tiles) is None,
    decreases tiles.len() - j,
{
    if j < tiles.len() {
        assert(tiles.take(j + 1).drop_last() =~= tiles.take(j));
        lemma_setup_offers_prefix(s, player, tiles, j + 1);
    } else {
        assert(tiles.take(j) =~= tiles);
    }
}

impl<P> Catan<P> {
    /// Hands over what is queued (see `flush`).
    pub fn flush_messages(&mut self) -> (out: Vec<Outgoing>)
        requires
            old(self).current_player < old(self).players.len(),
        ensures
            final(self)@ == flush(old(self)@).0,
            out@ == flush(old(self)@).1,
            old(self).wf() ==> final(self).wf(),
            final(self).same_seats(old(self)),
    {
        let ghost s0 = self@;
        let cur = self.current_player;
        let ghost b0 = s0.broadcast;
        let ghost m0 = s0.players[cur as int].messages;
        let mut out: Vec<Outgoing> = Vec::new();
        while self.broadcast.len() > 0
            invariant
                out@.len() <= b0.len(),
                self.broadcast@ == b0.skip(out@.len() as int),
                out@ == b0.take(out@.len() as int).map_values(|m: GameMsg| Outgoing::All(m)),
                self@ == (GameState { broadcast: self.broadcast@, ..s0 }),
                self.same_seats(old(self)),
                s0 == old(self)@,
            decreases self.broadcast.len(),
        {
            let ghost k = out@.len() as int;
            let m = self.broadcast.remove(0);
            out.push(Outgoing::All(m));
            assert(self.broadcast@ =~= b0.skip(k + 1));
            assert(out@ =~= b0.take(k + 1).map_values(|m: GameMsg| Outgoing::All(m)));
            assert(self@ =~= (GameState { broadcast: self.broadcast@, ..s0 }));
        }
        assert(b0.take(b0.len() as int) =~= b0);
        let ghost s1 = self@;
        let ghost o1 = out@;
        let mut msgs: Vec<GameMsg> = Vec::new();
        std::mem::swap(&mut msgs, &mut self.players[cur].message);
        assert(msgs@ == m0);
        let total = msgs.len();
        assert(m0.len() == total);
        assert(self@.players =~~= s1.players.update(
            cur as int,
            PlayerState { messages: Seq::empty(), ..s1.players[cur as int] },
        ));
        let mut k: usize = 0;
        while msgs.len() > 0
            invariant
                k <= m0.len(),
                m0.len() <= usize::MAX,
                msgs@ == m0.skip(k as int),
                out@ == o1 + m0.take(k as int).map_values(|m: GameMsg| Outgoing::One(cur, m)),
            decreases msgs.len(),
        {
            let m = msgs.remove(0);
            out.push(Outgoing::One(cur, m));
            k += 1;
            assert(msgs@ =~= m0.skip(k as int));
            assert(out@ =~= o1 + m0.take(k as int).map_values(|m: GameMsg| Outgoing::One(cur, m)));
        }
        assert(m0.take(k as int) =~= m0);
        assert(self@.players =~~= flush(s0).0.players);
        assert(self@ =~~= flush(s0).0);
        assert(out@ =~= flush(s0).1);
        proof {
            if old(self).wf() {
                rules::lemma_board_ok_frame(s0, self@);
            }
        }
        out
    }

    /// The offers after a second setup settlement of `player` at `c` (see
    /// `setup_offers`); `false` where the rules stop.
    fn setup_offers(&mut self, player: usize, c: Coordinate) -> (ok: bool)
        requires
            old(self).wf(),
        ensures
            ok == setup_offers(old(self)@, player, tiles_around(old(self)@.tiles, old(self)@.points, c)) is Some,
            ok ==> setup_offers(old(self)@, player, tiles_around(old(self)@.tiles, old(self)@.points, c))
                == Some(final(self)@) && final(self).wf(),
            final(self).same_seats(old(self)),
    {
        let ghost s0 = self@;
        let tiles = self.inner.ponint_get_tile(c);
        proof {
            self.inner.lemma_tiles_around_in_grid(c);
        }
        let ghost ts = tiles@;
        let mut i: usize = 0;
        while i < 3
            invariant
                i <= 3,
                ts == tiles@,
                ts == tiles_around(s0.tiles, s0.points, c),
                forall|k: int| 0 <= k < 3 && (#[trigger] ts[k]) is Some ==> self.inner.in_tiles(ts[k]->0),
                self.wf(),
                self@.tiles == s0.tiles,
                self@.points == s0.points,
                self.same_seats(old(self)),
                s0 == old(self)@,
                setup_offers(s0, player, ts.take(i as int)) == Some(self@),
            decreases 3 - i,
        {
            proof {
                assert(ts.take(i as int + 1).drop_last() =~= ts.take(i as int));
                lemma_setup_offers_prefix(s0, player, ts, i as int + 1);
            }
            if let Some(t) = tiles[i] {
                let k = self.inner.tile(t).kind();
                if k.is_resource() {
                    if self.update_with_roll(
                        GameUpdate::OfferResources(OfferResources { player, count: 1, kind: k }),
                        0,
                    ).is_none() {
                        return false;
                    }
                }
            }
            i += 1;
        }
        assert(ts.take(3) =~= ts);
        true
    }

    /// Makes a move whose outcome is ignored (see `moved`); `false` where
    /// the rules stop.
    fn try_move(&mut self, u: GameUpdate, d: Draw) -> (ok: bool)
        requires
            old(self).wf(),
        ensures
            ok == moved(old(self)@, u, d) is Some,
            ok ==> moved(old(self)@, u, d) == Some(final(self)@) && final(self).wf(),
            final(self).same_seats(old(self)),
    {
        self.update_with_roll(u, d.steal).is_some()
    }

    /// Makes a move that must succeed (see `must`).
    fn must_move(&mut self, u: GameUpdate, d: Draw) -> (r: Result<(), Fault>)
        requires
            old(self).wf(),
        ensures
            match r {
                Ok(()) => must(old(self)@, u, d) == Ok::<GameState, Fault>(final(self)@) && final(self).wf(),
                Err(f) => must(old(self)@, u, d) == Err::<GameState, Fault>(f),
            },
            final(self).same_seats(old(self)),
    {
        match self.update_with_roll(u, d.steal) {
            None => Err(Fault::RulesStopped),
            Some(Err(e)) => Err(Fault::Refused(e)),
            Some(Ok(())) => Ok(()),
        }
    }
}

/// A game at the table: the game, and where it stands.
pub struct CatanGame<P> {
    game: Catan<P>,
    phase: Phase,
}

impl<P> CatanGame<P> {
    pub closed spec fn state(&self) -> GameState {
        self.game@
    }

    pub closed spec fn stage(&self) -> Stage {
        self.phase@
    }

    /// Who plays at each seat.
    pub closed spec fn seats(&self) -> Seq<P> {
        Seq::new(self.game.players@.len(), |i: int| self.game.players@[i].inner)
    }

    /// The game is well formed, the table can go on, and the stage fits.
    pub closed spec fn wf(&self) -> bool {
        &&& self.game.wf()
        &&& table_ok(self.game@)
        &&& stage_fits(self.phase@, self.game@)
    }

    /// The game as the players see it.
    pub fn game(&self) -> (g: &Catan<P>)
        ensures
            g@ == self.state(),
    {
        &self.game
    }

    /// How many players sit at the table.
    pub fn player_count(&self) -> (n: usize)
        ensures
            n == self.seats().len(),
            n == self.state().players.len(),
    {
        self.game.players.len()
    }

    /// Who plays at seat `i`.
    pub fn seat(&self, i: usize) -> (p: &P)
        requires
            i < self.seats().len(),
        ensures
            *p == self.seats()[i as int],
    {
        &self.game.players[i].inner
    }

    /// A new game on a basic board for `players`, in order. Each player is
    /// sent the starting board and its own number, then everyone learns
    /// that the first player places its first settlement, and that player
    /// is asked.
    pub fn new(players: Vec<P>, setup: CatanDataSetup) -> (r: (Self, Vec<Outgoing>, Prompt))
        requires
            players.len() >= 1,
        ensures
            r.0.wf(),
            r.0.seats() == players@,
            r.0.stage() == (Stage::SetupSettlement { player: 0, second: false }),
            r.0.state().players == Seq::new(players@.len(), |i: int| Catan::<P>::fresh_player()),
            r.0.state().roads == Map::<Line, usize>::empty(),
            !r.0.state().is_initialized,
            r.0.state().current_player == 0,
            r.0.state().broadcast == Seq::<GameMsg>::empty(),
            r.1@.len() == players@.len() + 1,
            r.0.state().win_score == 10,
            basic_board(
                r.0.state().tiles,
                r.0.state().points,
                r.0.state().harbors,
                r.0.state().robber,
                r.0.state().dice,
                r.0.state().dev_cards,
            ),
            forall|i: int|
                0 <= i < players@.len() ==> (#[trigger] r.1@[i] matches Outgoing::One(j, GameMsg::GameStart(g))
                    && j == i && g.you == i && start_shows(g, r.0.state())),
            r.1@[players@.len() as int] == Outgoing::All(GameMsg::PlayerInit(0)),
            r.2 == Prompt::Act(0),
    {
        let ghost given = players@;
        let game = Catan::new(players, setup);
        assert(Seq::new(game.players@.len(), |i: int| game.players@[i].inner) =~= given);
        let n = game.players.len();
        let mut out: Vec<Outgoing> = Vec::new();
        let mut i: usize = 0;
        while i < n
            invariant
                n == game.players.len(),
                i <= n,
                out@.len() == i,
                forall|j: int|
                    0 <= j < i ==> (#[trigger] out@[j] matches Outgoing::One(k, GameMsg::GameStart(g))
                        && k == j && g.you == j && start_shows(g, game@)),
            decreases n - i,
        {
            let mut bases: Vec<PlayerCommon> = Vec::new();
            let mut j: usize = 0;
            while j < n
                invariant
                    n == game.players.len(),
                    j <= n,
                    bases@.len() == j,
                    forall|k: int| 0 <= k < j ==> shows_player(#[trigger] bases@[k], game@.players[k]),
                decreases n - j,
            {
                bases.push(game.players[j].base.clone());
                j += 1;
            }
            let tiles = game.inner.tiles();
            let tile = tiles.clone();
            proof {
                assert forall|r: int| 0 <= r < tile@.len() implies #[trigger] tile@[r]@ == tiles@[r]@ by {
                    assert(cloned::<Vec<Tile>>(tiles@[r], tile@[r]));
                    assert(tile@[r]@ =~= tiles@[r]@);
                }
                assert(Seq::new(tile@.len(), |r: int| tile@[r]@) =~= Seq::new(tiles@.len(), |r: int| tiles@[r]@));
            }
            let harbors = game.inner.harbors();
            let mut harbor: Vec<(Line, TileKind)> = Vec::new();
            let mut h: usize = 0;
            while h < harbors.len()
                invariant
                    h <= harbors@.len(),
                    harbor@ == harbors@.take(h as int),
                decreases harbors@.len() - h,
            {
                harbor.push(harbors[h]);
                h += 1;
                assert(harbor@ =~= harbors@.take(h as int));
            }
            assert(harbors@.take(harbors@.len() as int) =~= harbors@);
            let start = GameStart {
                tile,
                harbor,
                robber: game.inner.robber(),
                dice_map: game.inner.dice_map().clone(),
                players: bases,
                you: i,
            };
            out.push(Outgoing::One(i, GameMsg::GameStart(start)));
            i += 1;
        }
        out.push(Outgoing::All(GameMsg::PlayerInit(0)));
        (CatanGame { game, phase: Phase::SetupSettlement { player: 0, second: false } }, out, Prompt::Act(0))
    }

    /// Starts the turn of the current player (see `start_turn`), after the
    /// messages `out`.
    fn start_turn(&mut self, d: Draw, out: Vec<Outgoing>) -> (r: Result<(Vec<Outgoing>, Prompt), Fault>)
        requires
            old(self).game.wf(),
            table_ok(old(self).game@),
        ensures
            match r {
                Ok((o, p)) => start_turn(old(self).game@, d, out@) == Ok::<
                    (GameState, Stage, Seq<Outgoing>, Prompt),
                    Fault,
                >((final(self).game@, final(self).phase@, o@, p)) && final(self).wf(),
                Err(f) => start_turn(old(self).game@, d, out@) == Err::<
                    (GameState, Stage, Seq<Outgoing>, Prompt),
                    Fault,
                >(f),
            },
            final(self).game.same_seats(&old(self).game),
            r matches Ok((_, Prompt::Act(p))) ==> p < final(self).game.players.len(),
    {
        let ghost o0 = out@;
        let mut out = out;
        let cur = self.game.current_player;
        out.push(Outgoing::All(GameMsg::PlayerTurn(cur)));
        let dice: usize = 1 + d.first % 6 + 1 + d.second % 6;
        out.push(Outgoing::All(GameMsg::PlayerRollDice(dice)));
        let ghost o1 = out@;
        assert(o1 =~= o0 + seq![
            Outgoing::All(GameMsg::PlayerTurn(cur)),
            Outgoing::All(GameMsg::PlayerRollDice(dice)),
        ]);
        if dice == 7 {
            self.phase = Phase::Robber;
            return Ok((out, Prompt::Act(cur)));
        }
        if !self.game.try_move(GameUpdate::HitDice(dice), d) {
            return Err(Fault::RulesStopped);
        }
        let mut f = self.game.flush_messages();
        out.append(&mut f);
        self.phase = Phase::Turn { card_used: false, trades: 0 };
        Ok((out, Prompt::Act(cur)))
    }

    /// Ends the turn of the current player (see `end_turn`).
    #[verifier::rlimit(50)]
    fn end_turn(&mut self, d: Draw) -> (r: Result<(Vec<Outgoing>, Prompt), Fault>)
        requires
            old(self).game.wf(),
            table_ok(old(self).game@),
        ensures
            match r {
                Ok((o, p)) => end_turn(old(self).game@, d) == Ok::<
                    (GameState, Stage, Seq<Outgoing>, Prompt),
                    Fault,
                >((final(self).game@, final(self).phase@, o@, p)) && final(self).wf(),
                Err(f) => end_turn(old(self).game@, d) == Err::<
                    (GameState, Stage, Seq<Outgoing>, Prompt),
                    Fault,
                >(f),
            },
            final(self).game.same_people(&old(self).game),
            r matches Ok((_, Prompt::Act(p))) ==> p < final(self).game.players.len(),
    {
        let cur = self.game.current_player;
        let mut out: Vec<Outgoing> = Vec::new();
        out.push(Outgoing::All(GameMsg::PlayerEndTurn(cur)));
        if !self.game.longest_road_fits() {
            return Err(Fault::RulesStopped);
        }
        self.game.check_longest_road();
        assert(cur < self.game.players.len());
        match self.game.check_winner() {
            Some(w) => {
                self.phase = Phase::Over(w);
                Ok((out, Prompt::Won(w)))
            },
            None => {
                let ghost s1 = self.game@;
                self.game.current_player = (cur + 1) % self.game.players.len();
                assert(self.game@ =~= (GameState {
                    current_player: ((cur + 1) % (s1.players.len() as int)) as usize,
                    ..s1
                }));
                proof {
                    rules::lemma_board_ok_frame(s1, self.game@);
                }
                self.start_turn(d, out)
            },
        }
    }

    /// A setup settlement of `player` (see `advance`).
    fn setup_settlement(&mut self, player: usize, second: bool, act: GameAct, d: Draw) -> (r: Result<
        (Vec<Outgoing>, Prompt),
        Fault,
    >)
        requires
            old(self).game.wf(),
            table_ok(old(self).game@),
            player < old(self).game.players.len(),
        ensures
            match r {
                Ok((o, p)) => advance(old(self).game@, Stage::SetupSettlement { player, second }, act, d)
                    == Ok::<(GameState, Stage, Seq<Outgoing>, Prompt), Fault>(
                    (final(self).game@, final(self).phase@, o@, p),
                ) && final(self).wf(),
                Err(f) => advance(old(self).game@, Stage::SetupSettlement { player, second }, act, d)
                    == Err::<(GameState, Stage, Seq<Outgoing>, Prompt), Fault>(f),
            },
            final(self).game.same_people(&old(self).game),
            r matches Ok((_, Prompt::Act(p))) ==> p < final(self).game.players.len(),
    {
        match act {
            GameAct::BuildSettlement(c) => {
                if !self.game.try_move(
                    GameUpdate::BuildSettlement(BuildSettlement { player, point: c }),
                    d,
                ) {
                    return Err(Fault::RulesStopped);
                }
                if second {
                    if !self.game.setup_offers(player, c) {
                        return Err(Fault::RulesStopped);
                    }
                }
                let out = self.game.flush_messages();
                self.phase = Phase::SetupRoad { player, second };
                Ok((out, Prompt::Act(player)))
            },
            _ => Err(Fault::UnexpectedAction),
        }
    }

    /// A setup road of `player` (see `advance`).
    fn setup_road(&mut self, player: usize, second: bool, act: GameAct, d: Draw) -> (r: Result<
        (Vec<Outgoing>, Prompt),
        Fault,
    >)
        requires
            old(self).game.wf(),
            table_ok(old(self).game@),
            player < old(self).game.players.len(),
        ensures
            match r {
                Ok((o, p)) => advance(old(self).game@, Stage::SetupRoad { player, second }, act, d)
                    == Ok::<(GameState, Stage, Seq<Outgoing>, Prompt), Fault>(
                    (final(self).game@, final(self).phase@, o@, p),
                ) && final(self).wf(),
                Err(f) => advance(old(self).game@, Stage::SetupRoad { player, second }, act, d) == Err::<
                    (GameState, Stage, Seq<Outgoing>, Prompt),
                    Fault,
                >(f),
            },
            final(self).game.same_people(&old(self).game),
            r matches Ok((_, Prompt::Act(p))) ==> p < final(self).game.players.len(),
    {
        match act {
            GameAct::BuildRoad(from, to) => {
                let road = if from.x == to.x {
                    Line::new(from, to)
                } else {
                    Line::new(to, from)
                };
                if !self.game.try_move(GameUpdate::BuildRoad(BuildRoad { player, road }), d) {
                    return Err(Fault::RulesStopped);
                }
                let mut out = self.game.flush_messages();
                let n = self.game.players.len();
                if !second {
                    let p = if player + 1 < n {
                        player + 1
                    } else {
                        player
                    };
                    out.push(Outgoing::All(GameMsg::PlayerInit(p)));
                    self.phase = Phase::SetupSettlement { player: p, second: player + 1 >= n };
                    Ok((out, Prompt::Act(p)))
                } else if player > 0 {
                    out.push(Outgoing::All(GameMsg::PlayerInit(player - 1)));
                    self.phase = Phase::SetupSettlement { player: player - 1, second: true };
                    Ok((out, Prompt::Act(player - 1)))
                } else {
                    let ghost s1 = self.game@;
                    self.game.is_initialized = true;
                    assert(self.game@ =~= (GameState { is_initialized: true, ..s1 }));
                    proof {
                        rules::lemma_board_ok_frame(s1, self.game@);
                    }
                    self.start_turn(d, out)
                }
            },
            _ => Err(Fault::UnexpectedAction),
        }
    }

    /// The robber moved after a seven (see `advance`).
    fn robber(&mut self, act: GameAct, d: Draw) -> (r: Result<(Vec<Outgoing>, Prompt), Fault>)
        requires
            old(self).game.wf(),
            table_ok(old(self).game@),
        ensures
            match r {
                Ok((o, p)) => advance(old(self).game@, Stage::Robber, act, d) == Ok::<
                    (GameState, Stage, Seq<Outgoing>, Prompt),
                    Fault,
                >((final(self).game@, final(self).phase@, o@, p)) && final(self).wf(),
                Err(f) => advance(old(self).game@, Stage::Robber, act, d) == Err::<
                    (GameState, Stage, Seq<Outgoing>, Prompt),
                    Fault,
                >(f),
            },
            final(self).game.same_people(&old(self).game),
            r matches Ok((_, Prompt::Act(p))) ==> p < final(self).game.players.len(),
    {
        let cur = self.game.current_player;
        match act {
            GameAct::SelectRobber((target, coord)) => {
                match self.game.must_move(
                    GameUpdate::SelectRobber(SelectRobber { player: cur, target, coord }),
                    d,
                ) {
                    Err(f) => Err(f),
                    Ok(()) => {
                        let out = self.game.flush_messages();
                        self.phase = Phase::Turn { card_used: false, trades: 0 };
                        Ok((out, Prompt::Act(cur)))
                    },
                }
            },
            _ => Err(Fault::UnexpectedAction),
        }
    }

    /// Flushes what is queued and waits for the current player in `phase`.
    fn settle(&mut self, phase: Phase) -> (r: (Vec<Outgoing>, Prompt))
        requires
            old(self).game.wf(),
            table_ok(old(self).game@),
            stage_fits(phase@, old(self).game@),
        ensures
            settle(old(self).game@, phase@, Seq::empty(), old(self).game.current_player) == Ok::<
                (GameState, Stage, Seq<Outgoing>, Prompt),
                Fault,
            >((final(self).game@, final(self).phase@, r.0@, r.1)),
            final(self).wf(),
            final(self).game.same_seats(&old(self).game),
            r.1 == Prompt::Act(old(self).game.current_player),
    {
        let out = self.game.flush_messages();
        let ghost ph = phase@;
        self.phase = phase;
        assert(Seq::<Outgoing>::empty() + out@ =~= out@);
        (out, Prompt::Act(self.game.current_player))
    }

    /// An action of the current player in its turn (see `turn_action`).
    fn turn_action(&mut self, card_used: bool, trades: usize, act: GameAct, d: Draw) -> (r: Result<
        (Vec<Outgoing>, Prompt),
        Fault,
    >)
        requires
            old(self).game.wf(),
            table_ok(old(self).game@),
        ensures
            match r {
                Ok((o, p)) => turn_action(old(self).game@, card_used, trades, act, d) == Ok::<
                    (GameState, Stage, Seq<Outgoing>, Prompt),
                    Fault,
                >((final(self).game@, final(self).phase@, o@, p)) && final(self).wf(),
                Err(f) => turn_action(old(self).game@, card_used, trades, act, d) == Err::<
                    (GameState, Stage, Seq<Outgoing>, Prompt),
                    Fault,
                >(f),
            },
            final(self).game.same_people(&old(self).game),
            r matches Ok((_, Prompt::Act(p))) ==> p < final(self).game.players.len(),
    {
        let cur = self.game.current_player;
        let n = self.game.players.len();
        match act {
            GameAct::BuildRoad(from, to) => {
                let road = if from.x == to.x {
                    Line::new(from, to)
                } else {
                    Line::new(to, from)
                };
                if !self.game.try_move(GameUpdate::BuildRoad(BuildRoad { player: cur, road }), d) {
                    return Err(Fault::RulesStopped);
                }
                Ok(self.settle(Phase::Turn { card_used, trades }))
            },
            GameAct::BuildSettlement(c) => {
                if !self.game.try_move(
                    GameUpdate::BuildSettlement(BuildSettlement { player: cur, point: c }),
                    d,
                ) {
                    return Err(Fault::RulesStopped);
                }
                Ok(self.settle(Phase::Turn { card_used, trades }))
            },
            GameAct::BuildCity(c) => {
                if !self.game.try_move(GameUpdate::BuildCity(BuildCity { player: cur, point: c }), d) {
                    return Err(Fault::RulesStopped);
                }
                Ok(self.settle(Phase::Turn { card_used, trades }))
            },
            GameAct::BuyDevelopmentCard => {
                self.game.must_move(
                    GameUpdate::BuyDevelopmentCard(BuyDevelopmentCard { player: cur, card: None }),
                    d,
                )?;
                Ok(self.settle(Phase::Turn { card_used, trades }))
            },
            GameAct::UseDevelopmentCard((card, usage)) => {
                if card_used {
                    return Err(Fault::CardAlreadyUsed);
                }
                self.game.must_move(
                    GameUpdate::UseDevelopmentCard(UseDevelopmentCard { player: cur, usage, card }),
                    d,
                )?;
                Ok(self.settle(Phase::Turn { card_used: true, trades }))
            },
            GameAct::TradeRequest(request) => {
                if trades >= 3 {
                    return Err(Fault::TooManyTradeRequests);
                }
                if *request.target() == TradeTarget::Player {
                    let mut out: Vec<Outgoing> = Vec::new();
                    out.push(Outgoing::All(GameMsg::PlayerTradeRequest((cur, request.clone()))));
                    let mut responses: Vec<TradeResponse> = Vec::new();
                    let mut i: usize = 0;
                    while i < n
                        invariant
                            i <= n,
                            responses@ == Seq::new(i as nat, |j: int| TradeResponse::Reject),
                        decreases n - i,
                    {
                        responses.push(TradeResponse::Reject);
                        i += 1;
                        assert(responses@ =~= Seq::new(i as nat, |j: int| TradeResponse::Reject));
                    }
                    let first: usize = if cur == 0 {
                        1
                    } else {
                        0
                    };
                    if first < n {
                        self.phase = Phase::Answers {
                            card_used,
                            trades: trades + 1,
                            request,
                            next: first,
                            responses,
                        };
                        Ok((out, Prompt::Act(first)))
                    } else {
                        self.phase = Phase::Confirm { card_used, trades: trades + 1, request, responses };
                        Ok((out, Prompt::Act(cur)))
                    }
                } else {
                    Ok(self.settle(Phase::Turn { card_used, trades: trades + 1 }))
                }
            },
            GameAct::EndTurn => self.end_turn(d),
            _ => Ok(self.settle(Phase::Turn { card_used, trades })),
        }
    }

    /// An answer of player `next` to a trade request (see `answer`).
    fn answer(
        &mut self,
        card_used: bool,
        trades: usize,
        request: TradeRequest,
        next: usize,
        responses: Vec<TradeResponse>,
        act: GameAct,
    ) -> (r: Result<(Vec<Outgoing>, Prompt), Fault>)
        requires
            old(self).game.wf(),
            table_ok(old(self).game@),
            next < old(self).game.players.len(),
            responses@.len() == old(self).game.players.len(),
        ensures
            match r {
                Ok((o, p)) => answer(old(self).game@, card_used, trades, request, next, responses@, act)
                    == Ok::<(GameState, Stage, Seq<Outgoing>, Prompt), Fault>(
                    (final(self).game@, final(self).phase@, o@, p),
                ) && final(self).wf(),
                Err(f) => answer(old(self).game@, card_used, trades, request, next, responses@, act)
                    == Err::<(GameState, Stage, Seq<Outgoing>, Prompt), Fault>(f),
            },
            final(self).game.same_people(&old(self).game),
            r matches Ok((_, Prompt::Act(p))) ==> p < final(self).game.players.len(),
    {
        let cur = self.game.current_player;
        let n = self.game.players.len();
        match act {
            GameAct::TradeResponse(resp) => {
                if resp == TradeResponse::Accept {
                    match covers(&self.game.players[next].base.resources, request.to()) {
                        None => {
                            return Err(Fault::RulesStopped);
                        },
                        Some(false) => {
                            return Err(Fault::ResponderLacksResources);
                        },
                        Some(true) => {},
                    }
                }
                let mut rs = responses;
                rs.set(next, resp);
                let mut out: Vec<Outgoing> = Vec::new();
                out.push(Outgoing::All(GameMsg::PlayerTradeResponse((next, resp))));
                assert(out@ =~= seq![Outgoing::All(GameMsg::PlayerTradeResponse((next, resp)))]);
                let after: usize = if next + 1 == cur {
                    next + 2
                } else {
                    next + 1
                };
                if after < n {
                    self.phase = Phase::Answers { card_used, trades, request, next: after, responses: rs };
                    Ok((out, Prompt::Act(after)))
                } else {
                    self.phase = Phase::Confirm { card_used, trades, request, responses: rs };
                    Ok((out, Prompt::Act(cur)))
                }
            },
            _ => Err(Fault::UnexpectedTradeResponse),
        }
    }

    /// The confirmation of a trade request (see `confirm`).
    fn confirm(
        &mut self,
        card_used: bool,
        trades: usize,
        request: TradeRequest,
        responses: Vec<TradeResponse>,
        act: GameAct,
        d: Draw,
    ) -> (r: Result<(Vec<Outgoing>, Prompt), Fault>)
        requires
            old(self).game.wf(),
            table_ok(old(self).game@),
            responses@.len() == old(self).game.players.len(),
        ensures
            match r {
                Ok((o, p)) => confirm(old(self).game@, card_used, trades, request, responses@, act, d)
                    == Ok::<(GameState, Stage, Seq<Outgoing>, Prompt), Fault>(
                    (final(self).game@, final(self).phase@, o@, p),
                ) && final(self).wf(),
                Err(f) => confirm(old(self).game@, card_used, trades, request, responses@, act, d)
                    == Err::<(GameState, Stage, Seq<Outgoing>, Prompt), Fault>(f),
            },
            final(self).game.same_people(&old(self).game),
            r matches Ok((_, Prompt::Act(p))) ==> p < final(self).game.players.len(),
    {
        let cur = self.game.current_player;
        let n = self.game.players.len();
        match act {
            GameAct::TradeConfirm(Some(i)) => {
                if i == cur || i >= n {
                    return Err(Fault::InvalidPlayerIndex);
                }
                if responses[i] != TradeResponse::Accept {
                    return Err(Fault::TradeRejected);
                }
                self.game.must_move(GameUpdate::Trade(Some(Trade { from: cur, to: i, request })), d)?;
                Ok(self.settle(Phase::Turn { card_used, trades }))
            },
            GameAct::TradeConfirm(None) => {
                self.game.must_move(GameUpdate::Trade(None), d)?;
                Ok(self.settle(Phase::Turn { card_used, trades }))
            },
            _ => Err(Fault::UnexpectedTradeConfirm),
        }
    }

    /// Takes the action `act` of the player that was asked, with the chance
    /// `d` (see `advance`): gives the messages to send, in order, and whom to
    /// ask next, or why the game cannot go on, after which the game is left
    /// as it stands.
    pub fn step_with(&mut self, act: GameAct, d: Draw) -> (r: Result<(Vec<Outgoing>, Prompt), Fault>)
        requires
            old(self).wf(),
            turn_allows(old(self).stage(), act),
        ensures
            match r {
                Ok((o, p)) => advance(old(self).state(), old(self).stage(), act, d) == Ok::<
                    (GameState, Stage, Seq<Outgoing>, Prompt),
                    Fault,
                >((final(self).state(), final(self).stage(), o@, p)) && final(self).wf(),
                Err(f) => advance(old(self).state(), old(self).stage(), act, d) == Err::<
                    (GameState, Stage, Seq<Outgoing>, Prompt),
                    Fault,
                >(f),
            },
            final(self).seats() == old(self).seats(),
            r matches Ok((_, Prompt::Act(p))) ==> p < final(self).seats().len(),
    {
        let ghost seats0 = self.seats();
        let mut phase = Phase::Robber;
        std::mem::swap(&mut phase, &mut self.phase);
        let r = match phase {
            Phase::SetupSettlement { player, second } => self.setup_settlement(player, second, act, d),
            Phase::SetupRoad { player, second } => self.setup_road(player, second, act, d),
            Phase::Robber => self.robber(act, d),
            Phase::Turn { card_used, trades } => self.turn_action(card_used, trades, act, d),
            Phase::Answers { card_used, trades, request, next, responses } => self.answer(
                card_used,
                trades,
                request,
                next,
                responses,
                act,
            ),
            Phase::Confirm { card_used, trades, request, responses } => self.confirm(
                card_used,
                trades,
                request,
                responses,
                act,
                d,
            ),
            Phase::Over(w) => {
                self.phase = Phase::Over(w);
                Err(Fault::GameOver)
            },
        };
        assert(self.seats() =~= seats0);
        r
    }

    /// Whether the player asked may take `act` now (see `turn_allows`).
    pub fn allows(&self, act: &GameAct) -> (b: bool)
        ensures
            b == turn_allows(self.stage(), *act),
    {
        match &self.phase {
            Phase::Turn { card_used, trades } => {
                let card = match act {
                    GameAct::UseDevelopmentCard(_) => true,
                    _ => false,
                };
                let request = match act {
                    GameAct::TradeRequest(_) => true,
                    _ => false,
                };
                !(*card_used && card) && !(*trades >= 3 && request)
            },
            _ => true,
        }
    }

    /// Takes the action `act` of the player that was asked (see
    /// `step_with`), drawing the dice and any robber's pick at random.
    pub fn step(&mut self, act: GameAct) -> (r: Result<(Vec<Outgoing>, Prompt), Fault>)
        requires
            old(self).wf(),
            turn_allows(old(self).stage(), act),
        ensures
            exists|d: Draw|
                match r {
                    Ok((o, p)) => #[trigger] advance(old(self).state(), old(self).stage(), act, d) == Ok::<
                        (GameState, Stage, Seq<Outgoing>, Prompt),
                        Fault,
                    >((final(self).state(), final(self).stage(), o@, p)),
                    Err(f) => advance(old(self).state(), old(self).stage(), act, d) == Err::<
                        (GameState, Stage, Seq<Outgoing>, Prompt),
                        Fault,
                    >(f),
                },
            r is Ok ==> final(self).wf(),
            final(self).seats() == old(self).seats(),
    {
        let d = Draw {
            first: crate::random::random_usize(),
            second: crate::random::random_usize(),
            steal: crate::random::random_usize(),
        };
        self.step_with(act, d)
    }
}

/// Whether the counters `resources` hold every `(kind, count)` of `list`
/// (see `rules::covers`).
fn covers(resources: &[usize; crate::catan::element::TILE_KINDS], list: &Vec<(crate::catan::element::TileKind, usize)>) -> (r: Option<bool>)
    ensures
        r == rules::covers(resources@, list@),
{
    let mut i: usize = 0;
    while i < list.len()
        invariant
            i <= list.len(),
            rules::covers(resources@, list@.take(i as int)) == Some(true),
        decreases list.len() - i,
    {
        proof {
            assert(list@.take(i as int + 1).drop_last() =~= list@.take(i as int));
            rules::lemma_covers_prefix(resources@, list@, i as int + 1);
        }
        let (kind, count) = list[i];
        if kind.to_index() >= crate::catan::element::TILE_KINDS {
            return None;
        }
        if resources[kind.to_index()] < count {
            return Some(false);
        }
        i += 1;
    }
    assert(list@.take(list@.len() as int) =~= list@);
    Some(true)
}

} // verus!
