//! What holds of the game across its moves and turns.
use crate::catan::element::{
    in_grid, none_visited, valid_point, BuildRoad, BuildSettlement, BuyDevelopmentCard, DevCard, GameAct, GameMsg,
    PlayerCommon, TileKind, UseDevelopmentCard, TILE_KINDS,
};
use crate::catan::game::GameUpdate;
use crate::catan::rules::{self, GameError, GameState, PlayerState};
use crate::catan::turn::{advance, dice_of, turn_allows, Draw, Fault, Stage};
use crate::trail::{is_trail, lemma_trail_bound, lemma_trail_len_is_longest, lemma_unused_bound, trail_len, unused};
use vstd::prelude::*;

verus! {

/// A refused move changes nothing, except a road refused for want of a road
/// to it after its price was paid, or refused on a line that already had
/// one after it was recorded.
pub proof fn lemma_refusal_keeps_state(s: GameState, u: GameUpdate, roll: usize, s2: GameState, e: GameError)
    requires
        rules::update(s, u, roll) == Some((s2, Err::<(), GameError>(e))),
        !(u is BuildRoad && (e is NoRoadTo || e == GameError::RoadAlreadyExists)),
    ensures
        s2 == s,
{
}

/// No player's longest road is longer than the number of its roads.
pub proof fn lemma_longest_road_bounded(p: PlayerCommon)
    ensures
        p.longest() <= p.roads@.len(),
{
    let v = none_visited(p.roads@.len());
    lemma_trail_bound(p.roads@, v, None);
    lemma_unused_bound(v);
}

/// A road built is the player's: the line is recorded with its owner, the
/// player's roads end with it, and everyone is told.
pub proof fn lemma_built_road_recorded(s: GameState, b: BuildRoad, roll: usize, s2: GameState)
    requires
        rules::update(s, GameUpdate::BuildRoad(b), roll) == Some((s2, Ok::<(), GameError>(()))),
    ensures
        s2.roads.contains_key(b.road),
        s2.roads[b.road] == b.player,
        s2.players[b.player as int].roads == s.players[b.player as int].roads.push(b.road),
        s2.broadcast == s.broadcast.push(GameMsg::PlayerBuildRoad(b)),
{
}

/// The longest road title changes hands only for a road of five or more
/// that is longer than the holder's: it then goes to the current player,
/// with the length of its longest road.
pub proof fn lemma_title_needs_five(s: GameState)
    ensures
        rules::check_longest_road(s).longest_road != s.longest_road ==> {
            let lr = rules::longest_of(s.players[s.current_player as int]);
            &&& lr >= 5
            &&& rules::check_longest_road(s).longest_road == Some((s.current_player, lr as usize))
            &&& s.longest_road matches Some((_, l)) ==> l < lr
        },
{
}

/// Two dice make between two and twelve.
pub proof fn lemma_dice_range(d: Draw)
    ensures
        2 <= dice_of(d) <= 12,
{
}

/// One development card at most is played a turn: a card played leaves
/// the turn with its card used, and a second card is no move the turn
/// step takes (see `turn_allows`).
pub proof fn lemma_one_card_a_turn(s: GameState, trades: usize, card: DevCard, usage: crate::catan::element::DevelopmentCard, d: Draw)
    ensures
        advance(s, Stage::Turn { card_used: false, trades }, GameAct::UseDevelopmentCard((card, usage)), d) matches Ok(
            (_, st, _, _),
        ) ==> (st matches Stage::Turn { card_used: c, .. } ==> c),
        !turn_allows(Stage::Turn { card_used: true, trades }, GameAct::UseDevelopmentCard((card, usage))),
        advance(s, Stage::Turn { card_used: true, trades }, GameAct::UseDevelopmentCard((card, usage)), d)
            == Err::<(GameState, Stage, Seq<crate::catan::turn::Outgoing>, crate::catan::turn::Prompt), Fault>(
            Fault::CardAlreadyUsed,
        ),
{
}

/// The state and stage that the moves `acts`, each with its draw, lead to
/// from `s` at stage `st`, taken one after another; `None` where one of
/// them cannot be taken.
pub open spec fn run(s: GameState, st: Stage, acts: Seq<(GameAct, Draw)>) -> Option<(GameState, Stage)>
    decreases acts.len(),
{
    if acts.len() == 0 {
        Some((s, st))
    } else {
        match run(s, st, acts.drop_last()) {
            None => None,
            Some((s1, st1)) => match advance(s1, st1, acts.last().0, acts.last().1) {
                Ok((s2, st2, _, _)) => Some((s2, st2)),
                Err(_) => None,
            },
        }
    }
}

/// How many of the moves `acts` play a development card.
pub open spec fn cards_played(acts: Seq<(GameAct, Draw)>) -> int
    decreases acts.len(),
{
    if acts.len() == 0 {
        0
    } else {
        cards_played(acts.drop_last()) + if acts.last().0 is UseDevelopmentCard {
            1int
        } else {
            0
        }
    }
}

/// How many of the moves `acts` request a trade.
pub open spec fn trades_requested(acts: Seq<(GameAct, Draw)>) -> int
    decreases acts.len(),
{
    if acts.len() == 0 {
        0
    } else {
        trades_requested(acts.drop_last()) + if acts.last().0 is TradeRequest {
            1int
        } else {
            0
        }
    }
}

/// A stage inside a turn that accounts for `cards` cards played and
/// `trades` trades requested so far.
pub open spec fn accounts_for(st: Stage, cards: int, trades: int) -> bool {
    match st {
        Stage::Robber => cards == 0 && trades == 0,
        Stage::Turn { card_used, trades: t } => cards <= (if card_used {
            1int
        } else {
            0
        }) && trades <= t <= 3,
        Stage::Answers { card_used, trades: t, .. } => cards <= (if card_used {
            1int
        } else {
            0
        }) && trades <= t <= 3,
        Stage::Confirm { card_used, trades: t, .. } => cards <= (if card_used {
            1int
        } else {
            0
        }) && trades <= t <= 3,
        _ => false,
    }
}

/// One move that does not end the turn keeps the account.
proof fn lemma_step_accounts(s: GameState, st: Stage, act: GameAct, d: Draw, cards: int, trades: int)
    requires
        accounts_for(st, cards, trades),
        !(act is EndTurn),
        advance(s, st, act, d) is Ok,
    ensures
        accounts_for(
            (advance(s, st, act, d)->Ok_0).1,
            cards + if act is UseDevelopmentCard {
                1int
            } else {
                0
            },
            trades + if act is TradeRequest {
                1int
            } else {
                0
            },
        ),
{
}

/// Moves from the start of a turn that do not end it keep the account.
proof fn lemma_run_accounts(s: GameState, start: Stage, acts: Seq<(GameAct, Draw)>)
    requires
        start == (Stage::Turn { card_used: false, trades: 0 }) || start == Stage::Robber,
        run(s, start, acts) is Some,
        forall|i: int| 0 <= i < acts.len() ==> !((#[trigger] acts[i]).0 is EndTurn),
    ensures
        accounts_for((run(s, start, acts)->0).1, cards_played(acts), trades_requested(acts)),
    decreases acts.len(),
{
    if acts.len() > 0 {
        let init = acts.drop_last();
        assert forall|i: int| 0 <= i < init.len() implies !((#[trigger] init[i]).0 is EndTurn) by {
            assert(init[i] == acts[i]);
        }
        lemma_run_accounts(s, start, init);
        let (s1, st1) = run(s, start, init)->0;
        assert(!(acts[acts.len() - 1].0 is EndTurn));
        lemma_step_accounts(s1, st1, acts.last().0, acts.last().1, cards_played(init), trades_requested(init));
    }
}

/// In one turn at most one development card is played and at most three
/// trades are requested: from the start of a turn (the current player to
/// act, or to move the robber after a seven), any moves that can all be
/// taken one after another, none of them ending the turn, play one card at
/// most and request three trades at most.
pub proof fn lemma_one_card_three_trades_a_turn(s: GameState, start: Stage, acts: Seq<(GameAct, Draw)>)
    requires
        start == (Stage::Turn { card_used: false, trades: 0 }) || start == Stage::Robber,
        run(s, start, acts) is Some,
        forall|i: int| 0 <= i < acts.len() ==> !((#[trigger] acts[i]).0 is EndTurn),
    ensures
        cards_played(acts) <= 1,
        trades_requested(acts) <= 3,
{
    lemma_run_accounts(s, start, acts);
}

/// Three trades at most are requested a turn: a fourth request is no move
/// the turn step takes (see `turn_allows`).
pub proof fn lemma_three_trades_a_turn(
    s: GameState,
    card_used: bool,
    trades: usize,
    request: crate::catan::element::TradeRequest,
    d: Draw,
)
    requires
        trades >= 3,
    ensures
        !turn_allows(Stage::Turn { card_used, trades }, GameAct::TradeRequest(request)),
        advance(s, Stage::Turn { card_used, trades }, GameAct::TradeRequest(request), d) == Err::<
            (GameState, Stage, Seq<crate::catan::turn::Outgoing>, crate::catan::turn::Prompt),
            Fault,
        >(Fault::TooManyTradeRequests),
{
}

/// A game that is over stays over.
pub proof fn lemma_over_stays_over(s: GameState, w: usize, act: GameAct, d: Draw)
    ensures
        advance(s, Stage::Over(w), act, d) == Err::<
            (GameState, Stage, Seq<crate::catan::turn::Outgoing>, crate::catan::turn::Prompt),
            Fault,
        >(Fault::GameOver),
{
}

/// A game ends with a winner whose score is above the winning score, and
/// no player before it in seat order has one.
pub proof fn lemma_winner_scored(
    s: GameState,
    st: Stage,
    act: GameAct,
    d: Draw,
    s2: GameState,
    w: usize,
    out: Seq<crate::catan::turn::Outgoing>,
    p: crate::catan::turn::Prompt,
)
    requires
        s.players.len() <= usize::MAX,
        advance(s, st, act, d) == Ok::<
            (GameState, Stage, Seq<crate::catan::turn::Outgoing>, crate::catan::turn::Prompt),
            Fault,
        >((s2, Stage::Over(w), out, p)),
    ensures
        w < s2.players.len(),
        s2.players[w as int].score > s2.win_score,
        forall|j: int| 0 <= j < w ==> #[trigger] s2.players[j].score <= s2.win_score,
        p == crate::catan::turn::Prompt::Won(w),
{
    let cur = s.current_player;
    match st {
        Stage::Turn { card_used, trades } => {
            match act {
                GameAct::EndTurn => {
                    let s1 = rules::check_longest_road(s);
                    lemma_winner_is_first(s1);
                },
                _ => {},
            }
        },
        Stage::SetupRoad { player, second } => {},
        _ => {},
    }
}

/// The winner, if any, is the first player with a score above the winning
/// score.
pub proof fn lemma_winner_is_first(s: GameState)
    requires
        s.players.len() <= usize::MAX,
    ensures
        rules::winner(s) matches Some(w) ==> {
            &&& w < s.players.len()
            &&& s.players[w as int].score > s.win_score
            &&& forall|j: int| 0 <= j < w ==> #[trigger] s.players[j].score <= s.win_score
        },
{
    if exists|i: int| 0 <= i < s.players.len() && #[trigger] s.players[i].score > s.win_score {
        let i = choose|i: int| 0 <= i < s.players.len() && #[trigger] s.players[i].score > s.win_score;
        lemma_first_above(s, i);
    }
}

/// Below a player with a score above the winning score there is a first
/// one.
proof fn lemma_first_above(s: GameState, i: int)
    requires
        0 <= i < s.players.len(),
        s.players[i].score > s.win_score,
    ensures
        exists|m: int|
            0 <= m <= i && #[trigger] s.players[m].score > s.win_score && forall|j: int|
                0 <= j < m ==> #[trigger] s.players[j].score <= s.win_score,
    decreases i,
{
    if exists|j: int| 0 <= j < i && #[trigger] s.players[j].score > s.win_score {
        let j = choose|j: int| 0 <= j < i && #[trigger] s.players[j].score > s.win_score;
        lemma_first_above(s, j);
    } else {
        assert(forall|j: int| 0 <= j < i ==> #[trigger] s.players[j].score <= s.win_score);
    }
}

/// An offer leaves the counter at twenty, whatever was offered.
pub proof fn lemma_offer_sets_twenty(s: GameState, o: crate::catan::element::OfferResources)
    requires
        o.player < s.players.len(),
        o.kind.id() < s.players[o.player as int].resources.len(),
    ensures
        rules::offer_resources(s, o).players[o.player as int].resources[o.kind.id()] == 20,
{
}

/// A trade between two players moves resources between them and makes
/// none: for every kind, the two hold together what they held before, and
/// the other players keep theirs.
pub proof fn lemma_player_trade_conserves(s: GameState, t: crate::catan::element::Trade, s2: GameState)
    requires
        rules::do_player_trade(s, t) == Some((s2, Ok::<(), GameError>(()))),
        t.from != t.to,
        t.from < s.players.len(),
        t.to < s.players.len(),
    ensures
        s2.players.len() == s.players.len(),
        forall|k: int|
            0 <= k < s.players[t.from as int].resources.len() && k < s.players[t.to as int].resources.len()
                ==> #[trigger] s2.players[t.from as int].resources[k] + s2.players[t.to as int].resources[k]
                == s.players[t.from as int].resources[k] + s.players[t.to as int].resources[k],
        forall|i: int| 0 <= i < s.players.len() && i != t.from && i != t.to ==> #[trigger] s2.players[i] == s.players[i],
{
    let a = t.from as int;
    let b = t.to as int;
    let q = rules::shift(s.players, a, b, t.request.offered(), true)->0;
    lemma_shift_conserves(s.players, a, b, t.request.offered(), true);
    lemma_shift_conserves(q, b, a, t.request.wanted(), false);
}

/// Moving resources from one player to another (see `rules::shift`) keeps
/// what the two hold together and leaves the others alone.
pub proof fn lemma_shift_conserves(
    ps: Seq<PlayerState>,
    a: int,
    b: int,
    list: Seq<(TileKind, usize)>,
    sub_first: bool,
)
    requires
        0 <= a < ps.len(),
        0 <= b < ps.len(),
        a != b,
    ensures
        rules::shift(ps, a, b, list, sub_first) matches Some(q) ==> {
            &&& q.len() == ps.len()
            &&& q[a].resources.len() == ps[a].resources.len()
            &&& q[b].resources.len() == ps[b].resources.len()
            &&& forall|k: int|
                0 <= k < ps[a].resources.len() && k < ps[b].resources.len() ==> #[trigger] q[a].resources[k]
                    + q[b].resources[k] == ps[a].resources[k] + ps[b].resources[k]
            &&& forall|i: int| 0 <= i < ps.len() && i != a && i != b ==> #[trigger] q[i] == ps[i]
        },
    decreases list.len(),
{
    if list.len() > 0 {
        lemma_shift_conserves(ps, a, b, list.drop_last(), sub_first);
        match rules::shift(ps, a, b, list.drop_last(), sub_first) {
            Some(q0) => {
                match rules::shift(ps, a, b, list, sub_first) {
                    Some(q) => {
                        let (kind, c) = list.last();
                        assert forall|k: int|
                            0 <= k < ps[a].resources.len() && k < ps[b].resources.len() implies #[trigger] q[a].resources[k]
                                + q[b].resources[k] == ps[a].resources[k] + ps[b].resources[k] by {
                            assert(q0[a].resources[k] + q0[b].resources[k] == ps[a].resources[k]
                                + ps[b].resources[k]);
                        }
                    },
                    None => {},
                }
            },
            None => {},
        }
    }
}

/// What a settlement costs of kind `k` once the setup is done.
pub open spec fn settlement_cost(k: TileKind) -> int {
    if k == TileKind::Brick || k == TileKind::Grain || k == TileKind::Wool || k == TileKind::Wood {
        1
    } else {
        0
    }
}

/// A settlement is built exactly on a point of the board that has no
/// owner, next to no owned point, by a player with a settlement left, and,
/// once the setup is done, reached by one of its roads and paid for with a
/// brick, a grain, a wool and a wood. It then belongs to the player, scores
/// a point, uses up a settlement, costs exactly that price, leaves the
/// other players alone and is told to everyone. A refused settlement
/// changes nothing.
pub proof fn lemma_settlement_built(
    s: GameState,
    b: BuildSettlement,
    roll: usize,
    s2: GameState,
    r: Result<(), GameError>,
)
    requires
        rules::update(s, GameUpdate::BuildSettlement(b), roll) == Some((s2, r)),
        in_grid(s.points, b.point),
        s.players[b.player as int].resources.len() == TILE_KINDS,
    ensures
        r is Ok <==> {
            &&& valid_point(s.tiles, s.points, b.point)
            &&& s.players[b.player as int].settlement_left > 0
            &&& rules::point_of(s, b.point).owner is None
            &&& !rules::neighbor_owned(s, b.point)
            &&& s.is_initialized ==> rules::reaches(s.players[b.player as int].roads, b.point) && forall|k: TileKind|
                settlement_cost(k) == 1 ==> #[trigger] rules::res(s.players[b.player as int], k) >= 1
        },
        r is Err ==> s2 == s,
        r is Ok ==> {
            let p = b.player as int;
            &&& rules::point_of(s2, b.point).owner == Some(b.player)
            &&& s2.players.len() == s.players.len()
            &&& s2.players[p].score == s.players[p].score + 1
            &&& s2.players[p].settlement_left == s.players[p].settlement_left - 1
            &&& forall|k: TileKind|
                k.id() < TILE_KINDS ==> #[trigger] rules::res(s2.players[p], k) == rules::res(s.players[p], k) - (
                if s.is_initialized {
                    settlement_cost(k)
                } else {
                    0
                })
            &&& forall|i: int| 0 <= i < s.players.len() && i != p ==> s2.players[i] == s.players[i]
            &&& s2.broadcast == s.broadcast.push(GameMsg::PlayerBuildSettlement(b))
        },
{
    let pl = s.players[b.player as int];
    if s.is_initialized && !(rules::res(pl, TileKind::Brick) < 1 || rules::res(pl, TileKind::Grain) < 1
        || rules::res(pl, TileKind::Wool) < 1 || rules::res(pl, TileKind::Wood) < 1) {
        assert forall|k: TileKind| settlement_cost(k) == 1 implies #[trigger] rules::res(pl, k) >= 1 by {}
    }
    if s.is_initialized && (rules::res(pl, TileKind::Brick) < 1 || rules::res(pl, TileKind::Grain) < 1
        || rules::res(pl, TileKind::Wool) < 1 || rules::res(pl, TileKind::Wood) < 1) {
        assert(settlement_cost(TileKind::Brick) == 1 && settlement_cost(TileKind::Grain) == 1
            && settlement_cost(TileKind::Wool) == 1 && settlement_cost(TileKind::Wood) == 1);
    }
}

/// A development card is bought exactly when the player holds a grain, a
/// wool and a stone. It then costs exactly those, and the player gets the
/// last card of the deck, which leaves the deck; everyone is told of the
/// purchase and the player of the card. A refused purchase changes nothing.
pub proof fn lemma_card_bought(s: GameState, buy: BuyDevelopmentCard, roll: usize, s2: GameState, r: Result<(), GameError>)
    requires
        rules::update(s, GameUpdate::BuyDevelopmentCard(buy), roll) == Some((s2, r)),
        s.dev_cards.len() > 0,
        s.players[buy.player as int].resources.len() == TILE_KINDS,
    ensures
        r is Ok <==> {
            &&& rules::res(s.players[buy.player as int], TileKind::Grain) >= 1
            &&& rules::res(s.players[buy.player as int], TileKind::Wool) >= 1
            &&& rules::res(s.players[buy.player as int], TileKind::Stone) >= 1
        },
        r is Err ==> s2 == s,
        r is Ok ==> {
            let p = buy.player as int;
            let c = s.dev_cards.last();
            &&& s2.dev_cards == s.dev_cards.drop_last()
            &&& s2.players.len() == s.players.len()
            &&& forall|k: TileKind|
                k.id() < TILE_KINDS ==> #[trigger] rules::res(s2.players[p], k) == rules::res(s.players[p], k) - (
                if k == TileKind::Grain || k == TileKind::Wool || k == TileKind::Stone {
                    1int
                } else {
                    0int
                })
            &&& s2.players[p].cards == s.players[p].cards.update(c.id(), (s.players[p].cards[c.id()] + 1) as usize)
            &&& s2.players[p].messages == s.players[p].messages.push(
                GameMsg::PlayerBuyDevelopmentCard(BuyDevelopmentCard { player: buy.player, card: Some(c) }),
            )
            &&& forall|i: int| 0 <= i < s.players.len() && i != p ==> s2.players[i] == s.players[i]
            &&& s2.broadcast == s.broadcast.push(GameMsg::PlayerBuyDevelopmentCard(buy))
        },
{
}

/// What all the players hold together of the counter `k`.
pub open spec fn kind_total(ps: Seq<PlayerState>, k: int) -> int
    decreases ps.len(),
{
    if ps.len() == 0 {
        0
    } else {
        kind_total(ps.drop_last(), k) + ps.last().resources[k] as int
    }
}

/// What all hold together is what player `p` holds and what the others
/// hold (see `rules::others_total`).
pub proof fn lemma_kind_total_split(ps: Seq<PlayerState>, p: int, k: int)
    requires
        0 <= p < ps.len(),
    ensures
        kind_total(ps, k) == rules::others_total(ps, p, k) + ps[p].resources[k],
    decreases ps.len(),
{
    if ps.len() - 1 != p {
        lemma_kind_total_split(ps.drop_last(), p, k);
    } else {
        lemma_others_all(ps.drop_last(), p, k);
    }
}

/// Without player `p` among them, the others hold all there is.
proof fn lemma_others_all(ps: Seq<PlayerState>, p: int, k: int)
    requires
        p >= ps.len(),
    ensures
        rules::others_total(ps, p, k) == kind_total(ps, k),
    decreases ps.len(),
{
    if ps.len() > 0 {
        lemma_others_all(ps.drop_last(), p, k);
    }
}

/// Counters of `k` replaced by `q`'s wherever `q` is given: all of them
/// but player `p`'s set to zero, and `p`'s to the former total, keep the
/// total of `k`.
proof fn lemma_monopoly_total(ps: Seq<PlayerState>, qs: Seq<PlayerState>, p: int, k: int)
    requires
        0 <= p < ps.len(),
        qs.len() == ps.len(),
        forall|i: int| 0 <= i < ps.len() && i != p ==> #[trigger] qs[i].resources[k] == 0,
        qs[p].resources[k] == ps[p].resources[k] + rules::others_total(ps, p, k),
    ensures
        kind_total(qs, k) == kind_total(ps, k),
{
    lemma_kind_total_split(ps, p, k);
    lemma_kind_total_split(qs, p, k);
    lemma_others_zero(qs, p, k);
}

/// Where every other counter of `k` is zero, the others hold none.
proof fn lemma_others_zero(qs: Seq<PlayerState>, p: int, k: int)
    requires
        forall|i: int| 0 <= i < qs.len() && i != p ==> #[trigger] qs[i].resources[k] == 0,
    ensures
        rules::others_total(qs, p, k) == 0,
    decreases qs.len(),
{
    if qs.len() > 0 {
        lemma_others_zero(qs.drop_last(), p, k);
    }
}

/// A victory point, a monopoly or a year of plenty card is played exactly
/// when the player holds one. It is then spent and told to everyone, and:
/// a victory point scores a point; a year of plenty gives one of each of
/// the two kinds named; a monopoly takes every other player's counter of
/// the kind to the player, which keeps what all hold of it together. A
/// refused card changes nothing.
pub proof fn lemma_card_played(s: GameState, u: UseDevelopmentCard, roll: usize, s2: GameState, r: Result<(), GameError>)
    requires
        rules::update(s, GameUpdate::UseDevelopmentCard(u), roll) == Some((s2, r)),
        u.card == DevCard::VictoryPoint && u.usage == crate::catan::element::DevelopmentCard::VictoryPoint || u.card
            == DevCard::YearOfPlenty && u.usage is YearOfPlenty || u.card == DevCard::Monopoly && u.usage is Monopoly,
        forall|i: int| 0 <= i < s.players.len() ==> (#[trigger] s.players[i]).resources.len() == TILE_KINDS,
    ensures
        r is Err <==> s.players[u.player as int].cards[u.card.id()] == 0,
        r is Err ==> s2 == s,
        r is Ok ==> {
            let p = u.player as int;
            &&& s2.players.len() == s.players.len()
            &&& s2.players[p].cards == s.players[p].cards.update(u.card.id(), (s.players[p].cards[u.card.id()] - 1) as usize)
            &&& s2.broadcast == s.broadcast.push(GameMsg::PlayerUseDevelopmentCard(u))
            &&& (u.card == DevCard::VictoryPoint ==> s2.players[p].score == s.players[p].score + 1
                && s2.players[p].resources == s.players[p].resources)
            &&& (u.usage matches crate::catan::element::DevelopmentCard::YearOfPlenty(k1, k2) ==> forall|k: TileKind|
                k.id() < TILE_KINDS ==> #[trigger] rules::res(s2.players[p], k) == rules::res(s.players[p], k) + (if k
                == k1 {
                1int
            } else {
                0int
            }) + (if k == k2 {
                1int
            } else {
                0int
            }))
            &&& (u.usage matches crate::catan::element::DevelopmentCard::Monopoly(kind) ==> {
                &&& forall|i: int| 0 <= i < s.players.len() && i != p ==> #[trigger] s2.players[i].resources[kind.id()] == 0
                &&& s2.players[p].resources[kind.id()] == s.players[p].resources[kind.id()] + rules::others_total(
                    s.players,
                    p,
                    kind.id(),
                )
                &&& kind_total(s2.players, kind.id()) == kind_total(s.players, kind.id())
            })
        },
{
    if r is Ok {
        if let crate::catan::element::DevelopmentCard::Monopoly(kind) = u.usage {
            let p = u.player as int;
            let k = kind.id();
            let s1 = rules::play_monopoly(s, p, kind)->0;
            assert(rules::play_monopoly(s, p, kind) is Some);
            assert(k < 7);
            assert(s.players[p].resources.len() == TILE_KINDS);
            rules::lemma_others_total_nonneg(s.players, p, k);
            assert(s2.players[p].resources == s1.players[p].resources);
            assert(s1.players[p].resources[k] == s.players[p].resources[k] + rules::others_total(s.players, p, k));
            assert forall|i: int| 0 <= i < s.players.len() && i != p implies #[trigger] s2.players[i].resources[k] == 0 by {
                assert(s2.players[i] == s1.players[i]);
            }
            lemma_monopoly_total(s.players, s2.players, p, k);
        }
    }
}

/// How many of kind `k` the list `(kind, count)` names, over all its
/// entries of that kind.
pub open spec fn count_of(list: Seq<(TileKind, usize)>, k: TileKind) -> int
    decreases list.len(),
{
    if list.len() == 0 {
        0
    } else {
        count_of(list.drop_last(), k) + if list.last().0 == k {
            list.last().1 as int
        } else {
            0int
        }
    }
}

/// Applying counts (see `rules::apply_counts`) changes each counter by what
/// the list names of its kind.
pub proof fn lemma_apply_counts(r: Seq<usize>, list: Seq<(TileKind, usize)>, take: bool, q: Seq<usize>)
    requires
        rules::apply_counts(r, list, take) == Some(q),
    ensures
        q.len() == r.len(),
        forall|k: TileKind|
            0 <= k.id() < r.len() ==> #[trigger] q[k.id()] == r[k.id()] + (if take {
                -count_of(list, k)
            } else {
                count_of(list, k)
            }),
    decreases list.len(),
{
    if list.len() > 0 {
        let q0 = rules::apply_counts(r, list.drop_last(), take)->0;
        lemma_apply_counts(r, list.drop_last(), take, q0);
    }
}

/// Moving counts from `a` to `b` (see `rules::shift`) takes from `a` and
/// gives to `b`, for each kind, what the list names of it, and leaves
/// everything else alone.
pub proof fn lemma_shift_counts(
    ps: Seq<PlayerState>,
    a: int,
    b: int,
    list: Seq<(TileKind, usize)>,
    sub_first: bool,
    q: Seq<PlayerState>,
)
    requires
        rules::shift(ps, a, b, list, sub_first) == Some(q),
        0 <= a < ps.len(),
        0 <= b < ps.len(),
        a != b,
    ensures
        q.len() == ps.len(),
        q[a].resources.len() == ps[a].resources.len(),
        q[b].resources.len() == ps[b].resources.len(),
        forall|k: TileKind|
            0 <= k.id() < ps[a].resources.len() ==> #[trigger] q[a].resources[k.id()] == ps[a].resources[k.id()]
                - count_of(list, k),
        forall|k: TileKind|
            0 <= k.id() < ps[b].resources.len() ==> #[trigger] q[b].resources[k.id()] == ps[b].resources[k.id()]
                + count_of(list, k),
        q[a] == (PlayerState { resources: q[a].resources, ..ps[a] }),
        q[b] == (PlayerState { resources: q[b].resources, ..ps[b] }),
        forall|i: int| 0 <= i < ps.len() && i != a && i != b ==> #[trigger] q[i] == ps[i],
    decreases list.len(),
{
    if list.len() > 0 {
        let q0 = rules::shift(ps, a, b, list.drop_last(), sub_first)->0;
        lemma_shift_counts(ps, a, b, list.drop_last(), sub_first, q0);
    }
}

/// A trade between two different players is made exactly when the first
/// holds every count it offers and the second every count it is asked
/// for. Then, for each kind, the first gives what it offers of it and gets
/// what it asked for, the second the other way round, and the other
/// players keep theirs; everyone is told of the trade. A refused trade
/// changes nothing.
pub proof fn lemma_player_trade(s: GameState, t: crate::catan::element::Trade, roll: usize, s2: GameState, r: Result<(), GameError>)
    requires
        rules::update(s, GameUpdate::Trade(Some(t)), roll) == Some((s2, r)),
        t.request.target_of() == crate::catan::element::TradeTarget::Player,
        t.from != t.to,
    ensures
        r is Ok <==> rules::covers(s.players[t.from as int].resources, t.request.offered()) == Some(true)
            && rules::covers(s.players[t.to as int].resources, t.request.wanted()) == Some(true),
        r is Err ==> s2 == s,
        r is Ok ==> {
            let f = t.from as int;
            let g = t.to as int;
            &&& s2.players.len() == s.players.len()
            &&& forall|k: TileKind|
                0 <= k.id() < s.players[f].resources.len() ==> #[trigger] s2.players[f].resources[k.id()]
                    == s.players[f].resources[k.id()] - count_of(t.request.offered(), k) + count_of(
                    t.request.wanted(),
                    k,
                )
            &&& forall|k: TileKind|
                0 <= k.id() < s.players[g].resources.len() ==> #[trigger] s2.players[g].resources[k.id()]
                    == s.players[g].resources[k.id()] + count_of(t.request.offered(), k) - count_of(
                    t.request.wanted(),
                    k,
                )
            &&& forall|i: int| 0 <= i < s.players.len() && i != f && i != g ==> #[trigger] s2.players[i] == s.players[i]
            &&& s2.broadcast == s.broadcast.push(GameMsg::PlayerTrade(Some(t)))
        },
{
    if r is Ok {
        let f = t.from as int;
        let g = t.to as int;
        let q = rules::shift(s.players, f, g, t.request.offered(), true)->0;
        lemma_shift_counts(s.players, f, g, t.request.offered(), true, q);
        let q2 = rules::shift(q, g, f, t.request.wanted(), false)->0;
        lemma_shift_counts(q, g, f, t.request.wanted(), false, q2);
    }
}

/// A trade with the bank is made exactly when every count offered is at
/// least four, a multiple of four and held by the player, and the counts
/// asked for add up to the sum of a quarter of each count offered. Then, for each kind, the
/// player gives what it offers of it and gets what it asked for, and the
/// other players keep theirs. A refused trade changes nothing.
pub proof fn lemma_bank_trade(s: GameState, t: crate::catan::element::Trade, roll: usize, s2: GameState, r: Result<(), GameError>)
    requires
        rules::update(s, GameUpdate::Trade(Some(t)), roll) == Some((s2, r)),
        t.request.target_of() == crate::catan::element::TradeTarget::Bank,
        s.players[t.from as int].resources.len() == TILE_KINDS,
    ensures
        r is Ok <==> {
            &&& forall|i: int|
                0 <= i < t.request.offered().len() ==> bank_entry_ok(
                    s.players[t.from as int].resources,
                    #[trigger] t.request.offered()[i],
                )
            &&& rules::count_sum(t.request.wanted()) == crate::model::quarter_total(t.request.offered())
        },
        r is Err ==> s2 == s,
        r is Ok ==> {
            let p = t.from as int;
            &&& s2.players.len() == s.players.len()
            &&& forall|k: TileKind|
                0 <= k.id() < TILE_KINDS ==> #[trigger] s2.players[p].resources[k.id()] == s.players[p].resources[k.id()]
                    - count_of(t.request.offered(), k) + count_of(t.request.wanted(), k)
            &&& forall|i: int| 0 <= i < s.players.len() && i != p ==> #[trigger] s2.players[i] == s.players[i]
            &&& s2.broadcast == s.broadcast.push(GameMsg::PlayerTrade(Some(t)))
        },
{
    let p = t.from as int;
    let pl = s.players[p];
    let offered = t.request.offered();
    lemma_bank_scan(pl.resources, offered);
    if r is Ok {
        let r1 = rules::apply_counts(pl.resources, offered, true)->0;
        lemma_apply_counts(pl.resources, offered, true, r1);
        let r2 = rules::apply_counts(r1, t.request.wanted(), false)->0;
        lemma_apply_counts(r1, t.request.wanted(), false, r2);
    }
}

/// One entry of an offer to the bank is acceptable: at least four, a
/// multiple of four, and held.
pub open spec fn bank_entry_ok(r: Seq<usize>, e: (TileKind, usize)) -> bool {
    e.1 >= 4 && e.1 % 4 == 0 && 0 <= e.0.id() < r.len() && r[e.0.id()] >= e.1
}

/// Where the scan of an offer to the bank can be made, it accepts exactly
/// offers of acceptable entries, and then values each at a quarter of its
/// count.
pub proof fn lemma_bank_scan(r: Seq<usize>, list: Seq<(TileKind, usize)>)
    ensures
        rules::scan_offer(r, list, crate::catan::element::TradeTarget::Bank) matches Some(x) ==> {
            &&& (x is Ok <==> forall|i: int| 0 <= i < list.len() ==> bank_entry_ok(r, #[trigger] list[i]))
            &&& x matches Ok(v) ==> v == crate::model::quarter_total(list)
        },
    decreases list.len(),
{
    if list.len() > 0 {
        let init = list.drop_last();
        lemma_bank_scan(r, init);
        let x = rules::scan_offer(r, list, crate::catan::element::TradeTarget::Bank);
        if x is Some {
            if x->0 is Ok {
                assert forall|i: int| 0 <= i < list.len() implies bank_entry_ok(r, #[trigger] list[i]) by {
                    if i < init.len() {
                        assert(init[i] == list[i]);
                    }
                }
            } else {
                if rules::scan_offer(r, init, crate::catan::element::TradeTarget::Bank) matches Some(Ok(_)) {
                    assert(!bank_entry_ok(r, list[list.len() - 1]));
                } else {
                    let j = choose|j: int| 0 <= j < init.len() && !bank_entry_ok(r, #[trigger] init[j]);
                    assert(list[j] == init[j]);
                }
            }
        }
    }
}

/// A player's longest road is the longest trail over its roads: some walk
/// along its roads, each used once, is that long, and none is longer.
pub proof fn lemma_longest_road_is_longest(p: PlayerCommon)
    ensures
        exists|steps: Seq<int>, stops: Seq<crate::element::Coordinate>|
            is_trail(p.roads@, none_visited(p.roads@.len()), None, steps, stops) && steps.len() == p.longest(),
        forall|steps: Seq<int>, stops: Seq<crate::element::Coordinate>|
            #[trigger] is_trail(p.roads@, none_visited(p.roads@.len()), None, steps, stops) ==> steps.len()
                <= p.longest(),
{
    lemma_trail_len_is_longest(p.roads@, none_visited(p.roads@.len()), None);
}

} // verus!
