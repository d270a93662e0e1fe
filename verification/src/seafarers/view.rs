//! A player's picture of a game with sea, kept up to date from the
//! messages of the server: what each message changes, what the screen
//! turns to, and what, if anything, is answered at once.
use crate::element::{Coordinate, Line};
use crate::seafarers::element::{
    CatanCommon, DevCard, DevelopmentCard, GameAct, GameMsg, GameStart, PlayerCommon, Point, Tile,
    TileKind, Trade, TradeResponse, DEV_CARDS, TILE_KINDS,
};
use crate::model::LineMap;
use std::collections::HashMap;
use vstd::prelude::*;
use vstd::std_specs::iter::IteratorSpec;

verus! {

/// What a player's screen shows and waits for.
#[derive(Clone, Copy, PartialEq, Eq, Debug, Hash, Structural)]
pub enum CatanState {
    Wait,
    InitSettlement,
    InitRoad,
    Menu,
    BuidSettlement,
    BuildCity,
    BuildRoad,
    Trade,
    UseDevelopmentCard,
    SelectRobber,
    Stealing,
    DropResource,
}

/// Where a trade on the trade board stands.
#[derive(Clone, Copy, PartialEq, Eq, Debug, Hash, Structural)]
pub enum TradeState {
    Offering,
    WaitingResponse,
    Confirming,
    Accepting,
    WaitingConfirm,
}

/// Why a message cannot be taken in.
#[derive(Clone, Copy, PartialEq, Eq, Debug, Structural)]
pub enum EventFault {
    /// The message is about a move of a player whose turn it is not.
    NotCurrentPlayer,
    /// No message of this kind is expected.
    UnexpectedMessage,
    /// The message names a player, point, kind or count the picture cannot
    /// take: out of range, or a counter would leave its range.
    OutOfRange,
}

/// What taking in a message leads to besides the new picture: the screen
/// to turn to, the trade board state to turn to, an action to send, and
/// whether to stop taking in messages until the screen has turned.
#[derive(Debug)]
pub struct Reaction {
    pub next_state: Option<CatanState>,
    pub next_trade_state: Option<TradeState>,
    pub action: Option<GameAct>,
    pub stop: bool,
}

/// What a player holds, as the picture shows it.
#[verifier::ext_equal]
pub struct Holding {
    pub score: usize,
    pub resources: Seq<usize>,
    pub cards: Seq<usize>,
    pub roads: Seq<Line>,
    pub boats: Seq<Line>,
    pub settlement_left: usize,
    pub city_left: usize,
}

/// A player's picture of the game: the board (tiles, points, roads,
/// boats, robber, harbors, dice numbers), what each player holds, who this
/// player is, whose turn it is, whether a card was played this turn, how
/// many resources are to be dropped, and the dice.
#[verifier::ext_equal]
pub struct Picture {
    pub tiles: Seq<Seq<Tile>>,
    pub points: Seq<Seq<Point>>,
    pub roads: Map<Line, usize>,
    pub boats: Map<Line, usize>,
    pub robber: Coordinate,
    pub harbors: Seq<(Line, TileKind)>,
    pub dice_map: Map<usize, Vec<Coordinate>>,
    pub players: Seq<Holding>,
    pub me: usize,
    pub current_turn: usize,
    pub used_card: bool,
    pub drop_cnt: usize,
    pub dice: (u8, u8),
}

/// The trade board: the counts offered and wanted per kind, and the answers
/// received by player.
#[verifier::ext_equal]
pub struct Board {
    pub offer: Seq<u8>,
    pub want: Seq<u8>,
    pub response: Map<usize, TradeResponse>,
}

pub open spec fn holding(p: PlayerCommon) -> Holding {
    Holding {
        score: p.score,
        resources: p.resources@,
        cards: p.cards@,
        roads: p.roads@,
        boats: p.boats@,
        settlement_left: p.settlement_left,
        city_left: p.city_left,
    }
}

/// Nothing changes on screen and nothing is sent.
pub open spec fn quiet() -> Reaction {
    Reaction { next_state: None, next_trade_state: None, action: None, stop: false }
}

/// The screen turns to `st`; taking in messages stops when `stop`.
pub open spec fn turn_to(st: CatanState, stop: bool) -> Reaction {
    Reaction { next_state: Some(st), next_trade_state: None, action: None, stop }
}

/// The board cleared: nothing offered or wanted, no answers.
pub open spec fn cleared() -> Board {
    Board {
        offer: Seq::new(TILE_KINDS as nat, |i: int| 0u8),
        want: Seq::new(TILE_KINDS as nat, |i: int| 0u8),
        response: Map::empty(),
    }
}

/// `v` with player `i`'s holding replaced by `h`.
pub open spec fn with_holding(v: Picture, i: int, h: Holding) -> Picture {
    Picture { players: v.players.update(i, h), ..v }
}

/// `h` with `n` added to its counter of `k`; `None` out of range.
pub open spec fn add_res(h: Holding, k: TileKind, n: int) -> Option<Holding> {
    if k.id() >= h.resources.len() || h.resources[k.id()] + n < 0 || h.resources[k.id()] + n > usize::MAX {
        None
    } else {
        Some(Holding { resources: h.resources.update(k.id(), (h.resources[k.id()] + n) as usize), ..h })
    }
}

/// `h` with `n` added to the card counter of `card` (the first counter for
/// an unknown card); `None` out of range.
pub open spec fn add_card(h: Holding, card: Option<DevCard>, n: int) -> Option<Holding> {
    let i = match card {
        Some(c) => c.id(),
        None => 0,
    };
    if i >= h.cards.len() || h.cards[i] + n < 0 || h.cards[i] + n > usize::MAX {
        None
    } else {
        Some(Holding { cards: h.cards.update(i, (h.cards[i] + n) as usize), ..h })
    }
}

/// Writes the offered counts of `list` on the board, in order, each
/// truncated to a byte; `None` for a kind without a slot.
pub open spec fn write_offer(offer: Seq<u8>, list: Seq<(TileKind, usize)>) -> Option<Seq<u8>>
    decreases list.len(),
{
    if list.len() == 0 {
        Some(offer)
    } else {
        match write_offer(offer, list.drop_last()) {
            None => None,
            Some(o) => {
                let (k, c) = list.last();
                if k.id() >= o.len() {
                    None
                } else {
                    Some(o.update(k.id(), c as u8))
                }
            },
        }
    }
}

/// Writes the wanted counts of `list` on the board, in order, each
/// truncated to a byte, as long as the counters `r` hold them:
/// `Some(Err(()))` at the first that they do not; `None` for a kind without
/// a counter.
pub open spec fn write_want(r: Seq<usize>, want: Seq<u8>, list: Seq<(TileKind, usize)>) -> Option<
    Result<Seq<u8>, ()>,
>
    decreases list.len(),
{
    if list.len() == 0 {
        Some(Ok(want))
    } else {
        match write_want(r, want, list.drop_last()) {
            None => None,
            Some(Err(())) => Some(Err(())),
            Some(Ok(w)) => {
                let (k, c) = list.last();
                if k.id() >= r.len() || k.id() >= w.len() {
                    None
                } else if r[k.id()] < c {
                    Some(Err(()))
                } else {
                    Some(Ok(w.update(k.id(), c as u8)))
                }
            },
        }
    }
}

/// Applies the `(kind, count)` of `list` in order: player `a` gives
/// (`give`) or gets the count, and player `b`, if any, the opposite, `a`
/// first; `None` where a counter would leave its range.
pub open spec fn apply_trade(ps: Seq<Holding>, a: int, b: Option<usize>, list: Seq<(TileKind, usize)>, give: bool) -> Option<
    Seq<Holding>,
>
    decreases list.len(),
{
    if list.len() == 0 {
        Some(ps)
    } else {
        match apply_trade(ps, a, b, list.drop_last(), give) {
            None => None,
            Some(q) => {
                let (k, c) = list.last();
                let n: int = if give {
                    -c
                } else {
                    c as int
                };
                match add_res(q[a], k, n) {
                    None => None,
                    Some(ha) => {
                        let q1 = q.update(a, ha);
                        match b {
                            None => Some(q1),
                            Some(t) => if t >= q1.len() {
                                None
                            } else {
                                match add_res(q1[t as int], k, -n) {
                                    None => None,
                                    Some(hb) => Some(q1.update(t as int, hb)),
                                }
                            },
                        }
                    },
                }
            },
        }
    }
}

/// Monopoly: every other player's counter of `kind` goes to player `p`, in
/// seat order; `None` out of range.
pub open spec fn take_all(ps: Seq<Holding>, p: int, kind: TileKind, i: int) -> Option<Seq<Holding>>
    decreases i,
{
    if i <= 0 {
        Some(ps)
    } else {
        match take_all(ps, p, kind, i - 1) {
            None => None,
            Some(q) => {
                let j = i - 1;
                if j == p {
                    Some(q)
                } else if kind.id() >= q[j].resources.len() {
                    None
                } else {
                    let count = q[j].resources[kind.id()];
                    let q1 = q.update(j, Holding { resources: q[j].resources.update(kind.id(), 0usize), ..q[j] });
                    match add_res(q1[p], kind, count as int) {
                        None => None,
                        Some(h) => Some(q1.update(p, h)),
                    }
                }
            },
        }
    }
}

/// The screen after a trade is made or called off: the menu for the player
/// whose turn it is, else waiting.
pub open spec fn after_trade(v: Picture) -> Reaction {
    turn_to(
        if v.current_turn == v.me {
            CatanState::Menu
        } else {
            CatanState::Wait
        },
        true,
    )
}

/// The offer of `o` as a player's picture takes it: the count is added and
/// the counter then held between zero and twenty. `None` where the sum
/// leaves `isize`.
pub open spec fn offered_count(r: usize, count: isize) -> Option<usize> {
    let x = (r as isize) + count;
    if x < isize::MIN || x > isize::MAX {
        None
    } else {
        let y = if x < 20 {
            x
        } else {
            20
        };
        Some((if y > 0 {
            y
        } else {
            0
        }) as usize)
    }
}

/// What the message `msg` from the server does to the picture `v` and the
/// trade board `b`, with the trade board in state `ts`.
///
/// A setup turn or a turn of this player turns the screen to placing a
/// settlement or to the menu (a new turn allows a card again), another's
/// turn to waiting; the dice are shown; roads and settlements are drawn,
/// and this player's own pieces are counted; cities, cards and the robber
/// are moves of the player whose turn it is, and cards change what the
/// picture shows of the player; a trade request of another player is shown
/// on the board, or, when this player lacks what is wanted, refused at once;
/// answers are collected while waiting for them, and when all are in the
/// trade is confirmed or called off; a trade made moves the resources; an
/// offer is held between zero and twenty; the robber and discards turn the
/// screen for this player. Taking in messages stops where the screen turns
/// for this player's part.
pub open spec fn react(v: Picture, b: Board, ts: TradeState, msg: GameMsg) -> Result<
    (Picture, Board, Reaction),
    EventFault,
> {
    let n = v.players.len();
    match msg {
        GameMsg::PlayerInit(p) => Ok(
            (
                v,
                b,
                if p == v.me {
                    turn_to(CatanState::InitSettlement, true)
                } else {
                    quiet()
                },
            ),
        ),
        GameMsg::PlayerTurn(p) => if p == v.me {
            Ok((Picture { current_turn: p, used_card: false, ..v }, b, turn_to(CatanState::Menu, true)))
        } else {
            Ok((Picture { current_turn: p, ..v }, b, turn_to(CatanState::Wait, true)))
        },
        GameMsg::PlayerRollDice(d) => Ok((Picture { dice: d, ..v }, b, quiet())),
        GameMsg::PlayerBuildRoad(r) => if r.player >= n {
            Err(EventFault::OutOfRange)
        } else {
            let h = v.players[r.player as int];
            Ok(
                (
                    Picture {
                        roads: v.roads.insert(r.road, r.player),
                        players: v.players.update(r.player as int, Holding { roads: h.roads.push(r.road), ..h }),
                        ..v
                    },
                    b,
                    quiet(),
                ),
            )
        },
        GameMsg::PlayerBuildSettlement(bs) => if !crate::catan::element::in_grid(v.points, bs.point)
            || bs.player >= n {
            Err(EventFault::OutOfRange)
        } else {
            let pt = v.points[bs.point.x as int][bs.point.y as int];
            let v1 = Picture {
                points: crate::catan::element::grid_with(
                    v.points,
                    bs.point,
                    Point { owner: Some(bs.player), city: pt.city },
                ),
                ..v
            };
            let h = v.players[bs.player as int];
            if bs.player != v.me {
                Ok((v1, b, quiet()))
            } else if h.settlement_left == 0 {
                Err(EventFault::OutOfRange)
            } else {
                Ok(
                    (
                        with_holding(
                            v1,
                            bs.player as int,
                            Holding { settlement_left: (h.settlement_left - 1) as usize, ..h },
                        ),
                        b,
                        quiet(),
                    ),
                )
            }
        },
        GameMsg::PlayerBuildCity(bc) => if v.current_turn != bc.player {
            Err(EventFault::NotCurrentPlayer)
        } else if !crate::catan::element::in_grid(v.points, bc.point) || bc.player >= n {
            Err(EventFault::OutOfRange)
        } else {
            let v1 = Picture {
                points: crate::catan::element::grid_with(
                    v.points,
                    bc.point,
                    Point { owner: Some(bc.player), city: true },
                ),
                ..v
            };
            let h = v.players[bc.player as int];
            if bc.player != v.me {
                Ok((v1, b, quiet()))
            } else if h.city_left == 0 || h.settlement_left == usize::MAX {
                Err(EventFault::OutOfRange)
            } else {
                Ok(
                    (
                        with_holding(
                            v1,
                            bc.player as int,
                            Holding {
                                city_left: (h.city_left - 1) as usize,
                                settlement_left: (h.settlement_left + 1) as usize,
                                ..h
                            },
                        ),
                        b,
                        quiet(),
                    ),
                )
            }
        },
        GameMsg::PlayerBuyDevelopmentCard(buy) => if v.current_turn != buy.player {
            Err(EventFault::NotCurrentPlayer)
        } else if buy.player >= n {
            Err(EventFault::OutOfRange)
        } else {
            let h = v.players[buy.player as int];
            let h1 = if buy.player == v.me {
                match add_res(h, TileKind::Stone, -1) {
                    None => None,
                    Some(h2) => match add_res(h2, TileKind::Grain, -1) {
                        None => None,
                        Some(h3) => match add_res(h3, TileKind::Wool, -1) {
                            None => None,
                            Some(h4) => add_card(h4, buy.card, 1),
                        },
                    },
                }
            } else {
                add_card(h, None, 1)
            };
            match h1 {
                None => Err(EventFault::OutOfRange),
                Some(h1) => Ok((with_holding(v, buy.player as int, h1), b, quiet())),
            }
        },
        GameMsg::PlayerUseDevelopmentCard(u) => if v.current_turn != u.player {
            Err(EventFault::NotCurrentPlayer)
        } else if u.player >= n {
            Err(EventFault::OutOfRange)
        } else {
            let p = u.player as int;
            let h = v.players[p];
            match add_card(
                h,
                if u.player == v.me {
                    Some(u.card)
                } else {
                    None
                },
                -1,
            ) {
                None => Err(EventFault::OutOfRange),
                Some(h1) => {
                    let v1 = with_holding(v, p, h1);
                    let h1 = v1.players[p];
                    match u.usage {
                        DevelopmentCard::Monopoly(kind) => match take_all(v1.players, p, kind, n as int) {
                            None => Err(EventFault::OutOfRange),
                            Some(ps) => Ok((Picture { players: ps, ..v1 }, b, quiet())),
                        },
                        DevelopmentCard::YearOfPlenty(k1, k2) => match add_res(h1, k1, 1) {
                            None => Err(EventFault::OutOfRange),
                            Some(h2) => match add_res(h2, k2, 1) {
                                None => Err(EventFault::OutOfRange),
                                Some(h3) => Ok((with_holding(v1, p, h3), b, quiet())),
                            },
                        },
                        DevelopmentCard::VictoryPoint => if h1.score == usize::MAX {
                            Err(EventFault::OutOfRange)
                        } else {
                            Ok(
                                (
                                    with_holding(v1, p, Holding { score: (h1.score + 1) as usize, ..h1 }),
                                    b,
                                    quiet(),
                                ),
                            )
                        },
                        _ => Ok((v1, b, quiet())),
                    }
                },
            }
        },
        GameMsg::PlayerSelectRobber(sr) => if v.current_turn != sr.player {
            Err(EventFault::NotCurrentPlayer)
        } else {
            Ok((Picture { robber: sr.coord, ..v }, b, quiet()))
        },
        GameMsg::PlayerTradeRequest((player, request)) => if player == v.me {
            Ok((v, b, quiet()))
        } else {
            match write_offer(b.offer, request.offered()) {
                None => Err(EventFault::OutOfRange),
                Some(o) => {
                    let r = if v.me < n {
                        v.players[v.me as int].resources
                    } else {
                        Seq::empty()
                    };
                    match write_want(r, b.want, request.wanted()) {
                        None => Err(EventFault::OutOfRange),
                        Some(Err(())) => Ok(
                            (
                                v,
                                cleared(),
                                Reaction {
                                    next_state: Some(CatanState::Trade),
                                    next_trade_state: Some(TradeState::WaitingConfirm),
                                    action: Some(GameAct::TradeResponse(TradeResponse::Reject)),
                                    stop: true,
                                },
                            ),
                        ),
                        Some(Ok(w)) => Ok(
                            (
                                v,
                                Board { offer: o, want: w, ..b },
                                Reaction {
                                    next_state: Some(CatanState::Trade),
                                    next_trade_state: Some(TradeState::Accepting),
                                    action: None,
                                    stop: true,
                                },
                            ),
                        ),
                    }
                },
            }
        },
        GameMsg::PlayerTradeResponse((player, resp)) => if ts == TradeState::WaitingResponse && player
            != v.me {
            let r2 = b.response.insert(player, resp);
            let b2 = Board { response: r2, ..b };
            if n == 0 {
                Err(EventFault::OutOfRange)
            } else if r2.dom().len() == n - 1 {
                if forall|k: usize| #[trigger] r2.contains_key(k) ==> r2[k] == TradeResponse::Accept {
                    Ok(
                        (
                            v,
                            b2,
                            Reaction {
                                next_state: None,
                                next_trade_state: Some(TradeState::Confirming),
                                action: None,
                                stop: false,
                            },
                        ),
                    )
                } else {
                    Ok(
                        (
                            v,
                            b2,
                            Reaction {
                                next_state: None,
                                next_trade_state: None,
                                action: Some(GameAct::TradeConfirm(None)),
                                stop: false,
                            },
                        ),
                    )
                }
            } else {
                Ok((v, b2, quiet()))
            }
        } else {
            Ok((v, b, quiet()))
        },
        GameMsg::PlayerTrade(t) => match t {
            None => Ok((v, b, after_trade(v))),
            Some(t) => if t.from >= n {
                Err(EventFault::OutOfRange)
            } else {
                match apply_trade(v.players, t.from as int, t.to, t.request.offered(), true) {
                    None => Err(EventFault::OutOfRange),
                    Some(ps1) => match apply_trade(ps1, t.from as int, t.to, t.request.wanted(), false) {
                        None => Err(EventFault::OutOfRange),
                        Some(ps2) => {
                            let v2 = Picture { players: ps2, ..v };
                            Ok((v2, b, after_trade(v2)))
                        },
                    },
                }
            },
        },
        GameMsg::PlayerEndTurn(_) => Ok((v, b, quiet())),
        GameMsg::PlayerOfferResources(o) => if o.player >= n || o.kind.id() >= TILE_KINDS {
            Err(EventFault::OutOfRange)
        } else {
            let h = v.players[o.player as int];
            match offered_count(h.resources[o.kind.id()], o.count) {
                None => Err(EventFault::OutOfRange),
                Some(x) => Ok(
                    (
                        with_holding(
                            v,
                            o.player as int,
                            Holding { resources: h.resources.update(o.kind.id(), x), ..h },
                        ),
                        b,
                        quiet(),
                    ),
                ),
            }
        },
        GameMsg::PlayerStartSelectRobber() => Ok(
            (
                v,
                b,
                if v.current_turn == v.me {
                    turn_to(CatanState::SelectRobber, false)
                } else {
                    quiet()
                },
            ),
        ),
        GameMsg::PlayerDropResources((player, count)) => if player == v.me {
            Ok((Picture { drop_cnt: count, ..v }, b, turn_to(CatanState::DropResource, true)))
        } else {
            Ok((v, b, quiet()))
        },
        _ => Err(EventFault::UnexpectedMessage),
    }
}

} // verus!
verus! {

broadcast use {vstd::std_specs::hash::group_hash_axioms, vstd::array::group_array_axioms};

/// Whether every answer in `m` accepts.
fn all_accept(m: &HashMap<usize, TradeResponse>) -> (b: bool)
    ensures
        b == (forall|k: usize| #[trigger] m@.contains_key(k) ==> m@[k] == TradeResponse::Accept),
{
    broadcast use vstd::seq_lib::group_seq_properties;
    let values = m.values();
    let ghost all = values.remaining();
    proof {
        vstd::std_specs::hash::axiom_spec_values_iter(m);
    }
    for v in it: values
        invariant
            it.seq() == all,
            all.unref().to_set() == m@.values(),
            forall|j: int| 0 <= j < it.index() ==> *it.seq()[j] == TradeResponse::Accept,
    {
        if *v != TradeResponse::Accept {
            assert(all.unref().contains(*v));
            assert(m@.values().contains(*v));
            return false;
        }
    }
    assert forall|k: usize| #[trigger] m@.contains_key(k) implies m@[k] == TradeResponse::Accept by {
        assert(m@.values().contains(m@[k]));
        assert(all.unref().contains(m@[k]));
        let j = choose|j: int| 0 <= j < all.unref().len() && all.unref()[j] == m@[k];
        assert(*all[j] == m@[k]);
    }
    true
}

/// The trade board: the counts offered and wanted per kind, and the
/// answers received by player.
pub struct TradeBoard {
    pub offer: [u8; TILE_KINDS],
    pub want: [u8; TILE_KINDS],
    pub response: HashMap<usize, TradeResponse>,
}

impl View for TradeBoard {
    type V = Board;

    open spec fn view(&self) -> Board {
        Board { offer: self.offer@, want: self.want@, response: self.response@ }
    }
}

impl TradeBoard {
    /// An empty board.
    pub fn new() -> (b: Self)
        ensures
            b@ == cleared(),
    {
        let b = TradeBoard {
            offer: [0, 0, 0, 0, 0, 0, 0, 0, 0],
            want: [0, 0, 0, 0, 0, 0, 0, 0, 0],
            response: HashMap::new(),
        };
        assert(b@.offer =~= cleared().offer);
        assert(b@.want =~= cleared().want);
        assert(b@.response =~= cleared().response);
        b
    }

    /// Empties the board.
    pub fn clear(&mut self)
        ensures
            final(self)@ == cleared(),
    {
        *self = TradeBoard::new();
    }
}

/// A player's picture of the game: the board, what each player holds, who
/// this player is, whose turn it is, whether a card was played this turn,
/// how many resources are to be dropped, and the dice.
pub struct CatanView {
    pub inner: CatanCommon,
    pub players: Vec<PlayerCommon>,
    pub me: usize,
    pub current_turn: usize,
    pub used_card: bool,
    pub drop_cnt: usize,
    pub dice: (u8, u8),
}

impl View for CatanView {
    type V = Picture;

    open spec fn view(&self) -> Picture {
        Picture {
            tiles: self.inner.tile_grid(),
            points: self.inner.point_grid(),
            roads: self.inner.road_map(),
            boats: self.inner.boat_map(),
            robber: self.inner.robber_at(),
            harbors: self.inner.harbor_list(),
            dice_map: self.inner.dice(),
            players: Seq::new(self.players@.len(), |i: int| holding(self.players@[i])),
            me: self.me,
            current_turn: self.current_turn,
            used_card: self.used_card,
            drop_cnt: self.drop_cnt,
            dice: self.dice,
        }
    }
}

impl CatanView {
    /// The picture at the start of a game: the board of `start` (tiles,
    /// harbors, dice numbers, robber) with no pieces on it, the players as `start` shows them, this player's
    /// number, the first player's turn, no card played, nothing to drop,
    /// and the dice at one and one.
    pub fn new(start: GameStart) -> (v: Self)
        requires
            start.tile@.len() >= 1,
            start.tile@.len() + 1 <= usize::MAX,
            2 * start.tile@[0]@.len() + 1 <= usize::MAX,
        ensures
            v@.tiles == Seq::new(start.tile@.len(), |i: int| start.tile@[i]@),
            v@.points == Seq::new(
                (start.tile@.len() + 1) as nat,
                |i: int| Seq::new((2 * start.tile@[0]@.len() + 1) as nat, |j: int| Point { owner: None, city: false }),
            ),
            v@.roads == Map::<Line, usize>::empty(),
            v@.boats == Map::<Line, usize>::empty(),
            v@.robber == start.robber,
            v.inner.harbor_list() == start.harbor@,
            v.inner.dice() == start.dice_map@,
            v@.players == Seq::new(start.players@.len(), |i: int| holding(start.players@[i])),
            v@.me == start.you,
            v@.current_turn == 0,
            !v@.used_card,
            v@.drop_cnt == 0,
            v@.dice == (1u8, 1u8),
    {
        let rows = start.tile.len() + 1;
        let cols = 2 * start.tile[0].len() + 1;
        let ghost row = Seq::new(cols as nat, |j: int| Point { owner: None, city: false });
        let mut points: Vec<Vec<Point>> = Vec::new();
        let mut i: usize = 0;
        while i < rows
            invariant
                i <= rows,
                row == Seq::new(cols as nat, |j: int| Point { owner: None, city: false }),
                points@.len() == i,
                forall|k: int| 0 <= k < i ==> (#[trigger] points@[k])@ == row,
            decreases rows - i,
        {
            let mut line: Vec<Point> = Vec::new();
            let mut j: usize = 0;
            while j < cols
                invariant
                    j <= cols,
                    line@ == Seq::new(j as nat, |k: int| Point { owner: None, city: false }),
                decreases cols - j,
            {
                line.push(Point::default());
                j += 1;
                assert(line@ =~= Seq::new(j as nat, |k: int| Point { owner: None, city: false }));
            }
            assert(line@ =~= row);
            points.push(line);
            i += 1;
        }
        let inner = CatanCommon::new(
            start.tile,
            points,
            LineMap::new(),
            LineMap::new(),
            start.harbor,
            start.dice_map,
            start.robber,
        );
        let v = CatanView {
            inner,
            players: start.players,
            me: start.you,
            current_turn: 0,
            used_card: false,
            drop_cnt: 0,
            dice: (1, 1),
        };
        assert(v@.points =~= Seq::new(rows as nat, |i: int| row));
        v
    }
}

/// Once a prefix of the list settles `write_offer` as `None`, the whole
/// list does too.
pub proof fn lemma_write_offer_prefix(offer: Seq<u8>, list: Seq<(TileKind, usize)>, j: int)
    requires
        0 <= j <= list.len(),
    ensures
        write_offer(offer, list.take(j)) is None ==> write_offer(offer, list) is None,
    decreases list.len() - j,
{
    if j < list.len() {
        assert(list.take(j + 1).drop_last() =~= list.take(j));
        lemma_write_offer_prefix(offer, list, j + 1);
    } else {
        assert(list.take(j) =~= list);
    }
}

/// Once a prefix of the list settles `write_want` as `None` or a refusal,
/// the whole list does too.
pub proof fn lemma_write_want_prefix(r: Seq<usize>, want: Seq<u8>, list: Seq<(TileKind, usize)>, j: int)
    requires
        0 <= j <= list.len(),
    ensures
        write_want(r, want, list.take(j)) is None ==> write_want(r, want, list) is None,
        write_want(r, want, list.take(j)) == Some(Err::<Seq<u8>, ()>(())) ==> write_want(r, want, list)
            == Some(Err::<Seq<u8>, ()>(())),
    decreases list.len() - j,
{
    if j < list.len() {
        assert(list.take(j + 1).drop_last() =~= list.take(j));
        lemma_write_want_prefix(r, want, list, j + 1);
    } else {
        assert(list.take(j) =~= list);
    }
}

/// Once a prefix of the list settles `apply_trade` as `None`, the whole
/// list does too.
pub proof fn lemma_apply_trade_prefix(
    ps: Seq<Holding>,
    a: int,
    b: Option<usize>,
    list: Seq<(TileKind, usize)>,
    give: bool,
    j: int,
)
    requires
        0 <= j <= list.len(),
    ensures
        apply_trade(ps, a, b, list.take(j), give) is None ==> apply_trade(ps, a, b, list, give) is None,
    decreases list.len() - j,
{
    if j < list.len() {
        assert(list.take(j + 1).drop_last() =~= list.take(j));
        lemma_apply_trade_prefix(ps, a, b, list, give, j + 1);
    } else {
        assert(list.take(j) =~= list);
    }
}

/// Writes the offered counts of `list` on `offer` (see `write_offer`);
/// `false` where that stops.
fn write_offer_exec(offer: &mut [u8; TILE_KINDS], list: &Vec<(TileKind, usize)>) -> (ok: bool)
    ensures
        ok == write_offer(old(offer)@, list@) is Some,
        ok ==> write_offer(old(offer)@, list@) == Some(final(offer)@),
{
    let mut i: usize = 0;
    while i < list.len()
        invariant
            i <= list.len(),
            write_offer(old(offer)@, list@.take(i as int)) == Some(offer@),
        decreases list.len() - i,
    {
        proof {
            assert(list@.take(i as int + 1).drop_last() =~= list@.take(i as int));
            lemma_write_offer_prefix(old(offer)@, list@, i as int + 1);
        }
        let (k, c) = list[i];
        if k.to_index() >= TILE_KINDS {
            return false;
        }
        offer[k.to_index()] = c as u8;
        i += 1;
    }
    assert(list@.take(list@.len() as int) =~= list@);
    true
}

/// Writes the wanted counts of `list` on `want` while `r` holds them (see
/// `write_want`): `Some(false)` at the first that it does not, `None` where
/// that stops.
fn write_want_exec(r: &[usize; TILE_KINDS], want: &mut [u8; TILE_KINDS], list: &Vec<(TileKind, usize)>) -> (res:
    Option<bool>)
    ensures
        match res {
            None => write_want(r@, old(want)@, list@) is None,
            Some(false) => write_want(r@, old(want)@, list@) == Some(Err::<Seq<u8>, ()>(())),
            Some(true) => write_want(r@, old(want)@, list@) == Some(Ok::<Seq<u8>, ()>(final(want)@)),
        },
{
    let mut i: usize = 0;
    while i < list.len()
        invariant
            i <= list.len(),
            write_want(r@, old(want)@, list@.take(i as int)) == Some(Ok::<Seq<u8>, ()>(want@)),
        decreases list.len() - i,
    {
        proof {
            assert(list@.take(i as int + 1).drop_last() =~= list@.take(i as int));
            lemma_write_want_prefix(r@, old(want)@, list@, i as int + 1);
        }
        let (k, c) = list[i];
        if k.to_index() >= TILE_KINDS {
            return None;
        }
        if r[k.to_index()] < c {
            return Some(false);
        }
        want[k.to_index()] = c as u8;
        i += 1;
    }
    assert(list@.take(list@.len() as int) =~= list@);
    Some(true)
}

/// Once `take_all` stops at some seat, it stops for every later one.
pub proof fn lemma_take_all_prefix(ps: Seq<Holding>, p: int, kind: TileKind, j: int, m: int)
    requires
        j <= m,
    ensures
        take_all(ps, p, kind, j) is None ==> take_all(ps, p, kind, m) is None,
    decreases m - j,
{
    if j < m {
        lemma_take_all_prefix(ps, p, kind, j, m - 1);
    }
}

impl CatanView {
    /// Applies the trade entries of `list` to players `a` and `b` (see
    /// `apply_trade`); `false` where that stops.
    fn apply_trade_exec(&mut self, a: usize, b: Option<usize>, list: &Vec<(TileKind, usize)>, give: bool) -> (ok:
        bool)
        requires
            a < old(self).players.len(),
        ensures
            ok == apply_trade(old(self)@.players, a as int, b, list@, give) is Some,
            ok ==> apply_trade(old(self)@.players, a as int, b, list@, give) == Some(final(self)@.players),
            final(self)@ == (Picture { players: final(self)@.players, ..old(self)@ }),
            final(self).players@.len() == old(self).players@.len(),
    {
        let ghost v0 = self@;
        let mut i: usize = 0;
        while i < list.len()
            invariant
                i <= list.len(),
                a < self.players.len(),
                self.players@.len() == v0.players.len(),
                apply_trade(v0.players, a as int, b, list@.take(i as int), give) == Some(self@.players),
                self@ == (Picture { players: self@.players, ..v0 }),
                v0 == old(self)@,
            decreases list.len() - i,
        {
            proof {
                assert(list@.take(i as int + 1).drop_last() =~= list@.take(i as int));
                lemma_apply_trade_prefix(v0.players, a as int, b, list@, give, i as int + 1);
            }
            let ghost q = self@.players;
            let (k, c) = list[i];
            let idx = k.to_index();
            if idx >= TILE_KINDS {
                return false;
            }
            if give {
                if self.players[a].resources[idx] < c {
                    return false;
                }
                self.players[a].resources[idx] -= c;
            } else {
                if self.players[a].resources[idx] > usize::MAX - c {
                    return false;
                }
                self.players[a].resources[idx] += c;
            }
            let ghost q1 = self@.players;
            assert(q1 =~~= q.update(a as int, add_res(q[a as int], k, if give { -c } else { c as int })->0));
            match b {
                None => {},
                Some(t) => {
                    if t >= self.players.len() {
                        return false;
                    }
                    if give {
                        if self.players[t].resources[idx] > usize::MAX - c {
                            return false;
                        }
                        self.players[t].resources[idx] += c;
                    } else {
                        if self.players[t].resources[idx] < c {
                            return false;
                        }
                        self.players[t].resources[idx] -= c;
                    }
                    assert(self@.players =~~= q1.update(
                        t as int,
                        add_res(q1[t as int], k, if give { c as int } else { -c })->0,
                    ));
                },
            }
            i += 1;
            assert(self@ =~~= (Picture { players: self@.players, ..v0 }));
        }
        assert(list@.take(list@.len() as int) =~= list@);
        true
    }

    /// Gives player `p` every other player's counter of `kind` (see
    /// `take_all`); `false` where that stops.
    fn take_all_exec(&mut self, p: usize, kind: TileKind) -> (ok: bool)
        requires
            p < old(self).players.len(),
        ensures
            ok == take_all(old(self)@.players, p as int, kind, old(self).players@.len() as int) is Some,
            ok ==> take_all(old(self)@.players, p as int, kind, old(self).players@.len() as int) == Some(
                final(self)@.players,
            ),
            final(self)@ == (Picture { players: final(self)@.players, ..old(self)@ }),
            final(self).players@.len() == old(self).players@.len(),
    {
        let ghost v0 = self@;
        let n = self.players.len();
        let mut i: usize = 0;
        while i < n
            invariant
                i <= n,
                n == self.players.len(),
                n == v0.players.len(),
                p < n,
                take_all(v0.players, p as int, kind, i as int) == Some(self@.players),
                self@ == (Picture { players: self@.players, ..v0 }),
                v0 == old(self)@,
            decreases n - i,
        {
            proof {
                lemma_take_all_prefix(v0.players, p as int, kind, i as int + 1, n as int);
            }
            let ghost q = self@.players;
            if i != p {
                let k = kind.to_index();
                if k >= TILE_KINDS {
                    return false;
                }
                let count = self.players[i].resources[k];
                self.players[i].resources[k] = 0;
                let ghost q1 = self@.players;
                assert(q1 =~~= q.update(
                    i as int,
                    Holding { resources: q[i as int].resources.update(k as int, 0usize), ..q[i as int] },
                ));
                if self.players[p].resources[k] > usize::MAX - count {
                    return false;
                }
                self.players[p].resources[k] += count;
                assert(self@.players =~~= q1.update(p as int, add_res(q1[p as int], kind, count as int)->0));
            }
            i += 1;
            assert(self@ =~~= (Picture { players: self@.players, ..v0 }));
        }
        true
    }
}

impl CatanView {
    /// Takes in the message `msg` from the server (see `react`), with the
    /// trade board `trade` in state `trade_state`: updates the picture and
    /// the board and gives what the screen turns to and what is answered;
    /// or why the message cannot be taken in, after which the picture is
    /// left as it stands.
    pub fn process_event(&mut self, msg: GameMsg, trade: &mut TradeBoard, trade_state: TradeState) -> (r: Result<
        Reaction,
        EventFault,
    >)
        ensures
            match r {
                Ok(re) => react(old(self)@, old(trade)@, trade_state, msg) == Ok::<
                    (Picture, Board, Reaction),
                    EventFault,
                >((final(self)@, final(trade)@, re)),
                Err(f) => react(old(self)@, old(trade)@, trade_state, msg) == Err::<
                    (Picture, Board, Reaction),
                    EventFault,
                >(f),
            },
    {
        let ghost v0 = self@;
        let n = self.players.len();
        let none = Reaction { next_state: None, next_trade_state: None, action: None, stop: false };
        match msg {
            GameMsg::PlayerInit(p) => {
                if p == self.me {
                    Ok(Reaction { next_state: Some(CatanState::InitSettlement), next_trade_state: None, action: None, stop: true })
                } else {
                    Ok(none)
                }
            },
            GameMsg::PlayerTurn(p) => {
                self.current_turn = p;
                if p == self.me {
                    self.used_card = false;
                    Ok(Reaction { next_state: Some(CatanState::Menu), next_trade_state: None, action: None, stop: true })
                } else {
                    Ok(Reaction { next_state: Some(CatanState::Wait), next_trade_state: None, action: None, stop: true })
                }
            },
            GameMsg::PlayerRollDice(d) => {
                self.dice = d;
                Ok(none)
            },
            GameMsg::PlayerBuildRoad(build) => self.on_build_road(build, Ghost(old(trade)@), Ghost(trade_state)),
            GameMsg::PlayerBuildSettlement(bs) => self.on_build_settlement(bs, Ghost(old(trade)@), Ghost(trade_state)),
            GameMsg::PlayerBuildCity(bc) => self.on_build_city(bc, Ghost(old(trade)@), Ghost(trade_state)),
            GameMsg::PlayerBuyDevelopmentCard(buy) => self.on_buy_card(buy, Ghost(old(trade)@), Ghost(trade_state)),
            GameMsg::PlayerUseDevelopmentCard(u) => self.on_use_card(u, Ghost(old(trade)@), Ghost(trade_state)),
            GameMsg::PlayerSelectRobber(sr) => {
                if self.current_turn != sr.player {
                    return Err(EventFault::NotCurrentPlayer);
                }
                self.inner.set_robber(sr.coord);
                Ok(none)
            },
            GameMsg::PlayerTradeRequest((player, request)) => self.on_trade_request(player, request, trade, trade_state),
            GameMsg::PlayerTradeResponse((player, resp)) => self.on_trade_response(player, resp, trade, trade_state),
            GameMsg::PlayerTrade(t) => self.on_trade(t, Ghost(old(trade)@), Ghost(trade_state)),
            GameMsg::PlayerEndTurn(_) => Ok(none),
            GameMsg::PlayerOfferResources(o) => self.on_offer(o, Ghost(old(trade)@), Ghost(trade_state)),
            GameMsg::PlayerStartSelectRobber() => {
                if self.current_turn == self.me {
                    Ok(Reaction { next_state: Some(CatanState::SelectRobber), next_trade_state: None, action: None, stop: false })
                } else {
                    Ok(none)
                }
            },
            GameMsg::PlayerDropResources((player, count)) => {
                if player == self.me {
                    self.drop_cnt = count;
                    Ok(Reaction { next_state: Some(CatanState::DropResource), next_trade_state: None, action: None, stop: true })
                } else {
                    Ok(none)
                }
            },
            _ => Err(EventFault::UnexpectedMessage),
        }
    }
}

impl CatanView {
    fn on_build_road(
        &mut self,
        build: crate::seafarers::element::BuildRoad,
        Ghost(b): Ghost<Board>,
        Ghost(ts): Ghost<TradeState>,
    ) -> (r: Result<Reaction, EventFault>)
        ensures
            match r {
                Ok(re) => react(old(self)@, b, ts, GameMsg::PlayerBuildRoad(build)) == Ok::<
                    (Picture, Board, Reaction),
                    EventFault,
                >((final(self)@, b, re)),
                Err(f) => react(old(self)@, b, ts, GameMsg::PlayerBuildRoad(build)) == Err::<
                    (Picture, Board, Reaction),
                    EventFault,
                >(f),
            },
    {
        let ghost v0 = self@;
        let n = self.players.len();
        let none = Reaction { next_state: None, next_trade_state: None, action: None, stop: false };
        if build.player >= n {
            return Err(EventFault::OutOfRange);
        }
        self.inner.add_road(build.player, build.road);
        self.players[build.player].add_road(build.road);
        assert(self@.players =~~= v0.players.update(
            build.player as int,
            Holding { roads: v0.players[build.player as int].roads.push(build.road), ..v0.players[build.player as int] },
        ));
        Ok(none)
    }

    fn on_build_settlement(
        &mut self,
        bs: crate::seafarers::element::BuildSettlement,
        Ghost(b): Ghost<Board>,
        Ghost(ts): Ghost<TradeState>,
    ) -> (r: Result<Reaction, EventFault>)
        ensures
            match r {
                Ok(re) => react(old(self)@, b, ts, GameMsg::PlayerBuildSettlement(bs)) == Ok::<
                    (Picture, Board, Reaction),
                    EventFault,
                >((final(self)@, b, re)),
                Err(f) => react(old(self)@, b, ts, GameMsg::PlayerBuildSettlement(bs)) == Err::<
                    (Picture, Board, Reaction),
                    EventFault,
                >(f),
            },
    {
        let ghost v0 = self@;
        let n = self.players.len();
        let none = Reaction { next_state: None, next_trade_state: None, action: None, stop: false };
        if !self.inner.has_point(bs.point) || bs.player >= n {
            return Err(EventFault::OutOfRange);
        }
        self.inner.add_settlement(bs.player, bs.point);
        if bs.player == self.me {
            if self.players[bs.player].settlement_left == 0 {
                return Err(EventFault::OutOfRange);
            }
            self.players[bs.player].settlement_left -= 1;
            assert(self@.players =~~= v0.players.update(
                bs.player as int,
                Holding {
                    settlement_left: (v0.players[bs.player as int].settlement_left - 1) as usize,
                    ..v0.players[bs.player as int]
                },
            ));
        }
        Ok(none)
    }

    fn on_build_city(
        &mut self,
        bc: crate::seafarers::element::BuildCity,
        Ghost(b): Ghost<Board>,
        Ghost(ts): Ghost<TradeState>,
    ) -> (r: Result<Reaction, EventFault>)
        ensures
            match r {
                Ok(re) => react(old(self)@, b, ts, GameMsg::PlayerBuildCity(bc)) == Ok::<
                    (Picture, Board, Reaction),
                    EventFault,
                >((final(self)@, b, re)),
                Err(f) => react(old(self)@, b, ts, GameMsg::PlayerBuildCity(bc)) == Err::<
                    (Picture, Board, Reaction),
                    EventFault,
                >(f),
            },
    {
        let ghost v0 = self@;
        let n = self.players.len();
        let none = Reaction { next_state: None, next_trade_state: None, action: None, stop: false };
        if self.current_turn != bc.player {
            return Err(EventFault::NotCurrentPlayer);
        }
        if !self.inner.has_point(bc.point) || bc.player >= n {
            return Err(EventFault::OutOfRange);
        }
        self.inner.add_city(bc.player, bc.point);
        if bc.player == self.me {
            if self.players[bc.player].city_left == 0 || self.players[bc.player].settlement_left
                == usize::MAX {
                return Err(EventFault::OutOfRange);
            }
            self.players[bc.player].city_left -= 1;
            self.players[bc.player].settlement_left += 1;
            assert(self@.players =~~= v0.players.update(
                bc.player as int,
                Holding {
                    city_left: (v0.players[bc.player as int].city_left - 1) as usize,
                    settlement_left: (v0.players[bc.player as int].settlement_left + 1) as usize,
                    ..v0.players[bc.player as int]
                },
            ));
        }
        Ok(none)
    }

    fn on_buy_card(
        &mut self,
        buy: crate::seafarers::element::BuyDevelopmentCard,
        Ghost(b): Ghost<Board>,
        Ghost(ts): Ghost<TradeState>,
    ) -> (r: Result<Reaction, EventFault>)
        ensures
            match r {
                Ok(re) => react(old(self)@, b, ts, GameMsg::PlayerBuyDevelopmentCard(buy)) == Ok::<
                    (Picture, Board, Reaction),
                    EventFault,
                >((final(self)@, b, re)),
                Err(f) => react(old(self)@, b, ts, GameMsg::PlayerBuyDevelopmentCard(buy)) == Err::<
                    (Picture, Board, Reaction),
                    EventFault,
                >(f),
            },
    {
        let ghost v0 = self@;
        let n = self.players.len();
        let none = Reaction { next_state: None, next_trade_state: None, action: None, stop: false };
        if self.current_turn != buy.player {
            return Err(EventFault::NotCurrentPlayer);
        }
        if buy.player >= n {
            return Err(EventFault::OutOfRange);
        }
        let p = buy.player;
        let card = if p == self.me {
            let stone = TileKind::Stone.to_index();
            let grain = TileKind::Grain.to_index();
            let wool = TileKind::Wool.to_index();
            if self.players[p].resources[stone] == 0 || self.players[p].resources[grain] == 0
                || self.players[p].resources[wool] == 0 {
                return Err(EventFault::OutOfRange);
            }
            self.players[p].resources[stone] -= 1;
            self.players[p].resources[grain] -= 1;
            self.players[p].resources[wool] -= 1;
            buy.card
        } else {
            None
        };
        let slot = match card {
            Some(c) => c.to_index(),
            None => 0,
        };
        if slot >= DEV_CARDS || self.players[p].cards[slot] == usize::MAX {
            return Err(EventFault::OutOfRange);
        }
        self.players[p].add_card(card);
        let ghost h = v0.players[p as int];
        assert(self@.players =~~= v0.players.update(
            p as int,
            if p == v0.me {
                add_card(
                    add_res(
                        add_res(add_res(h, TileKind::Stone, -1)->0, TileKind::Grain, -1)->0,
                        TileKind::Wool,
                        -1,
                    )->0,
                    buy.card,
                    1,
                )->0
            } else {
                add_card(h, None, 1)->0
            },
        ));
        Ok(none)
    }

    fn on_use_card(
        &mut self,
        u: crate::seafarers::element::UseDevelopmentCard,
        Ghost(b): Ghost<Board>,
        Ghost(ts): Ghost<TradeState>,
    ) -> (r: Result<Reaction, EventFault>)
        ensures
            match r {
                Ok(re) => react(old(self)@, b, ts, GameMsg::PlayerUseDevelopmentCard(u)) == Ok::<
                    (Picture, Board, Reaction),
                    EventFault,
                >((final(self)@, b, re)),
                Err(f) => react(old(self)@, b, ts, GameMsg::PlayerUseDevelopmentCard(u)) == Err::<
                    (Picture, Board, Reaction),
                    EventFault,
                >(f),
            },
    {
        let ghost v0 = self@;
        let n = self.players.len();
        let none = Reaction { next_state: None, next_trade_state: None, action: None, stop: false };
        if self.current_turn != u.player {
            return Err(EventFault::NotCurrentPlayer);
        }
        if u.player >= n {
            return Err(EventFault::OutOfRange);
        }
        let p = u.player;
        let card = if p == self.me {
            Some(u.card)
        } else {
            None
        };
        let slot = match card {
            Some(c) => c.to_index(),
            None => 0,
        };
        if slot >= DEV_CARDS || self.players[p].cards[slot] == 0 {
            return Err(EventFault::OutOfRange);
        }
        self.players[p].remove_card(card);
        let ghost v1 = self@;
        assert(v1 =~~= with_holding(v0, p as int, add_card(v0.players[p as int], card, -1)->0));
        match u.usage {
            DevelopmentCard::Monopoly(kind) => {
                if !self.take_all_exec(p, kind) {
                    return Err(EventFault::OutOfRange);
                }
                assert(self@ =~~= (Picture { players: self@.players, ..v1 }));
            },
            DevelopmentCard::YearOfPlenty(k1, k2) => {
                let i1 = k1.to_index();
                let i2 = k2.to_index();
                if i1 >= TILE_KINDS || self.players[p].resources[i1] == usize::MAX {
                    return Err(EventFault::OutOfRange);
                }
                self.players[p].resources[i1] += 1;
                let ghost h2 = add_res(v1.players[p as int], k1, 1)->0;
                assert(self@.players[p as int] =~~= h2);
                if i2 >= TILE_KINDS || self.players[p].resources[i2] == usize::MAX {
                    return Err(EventFault::OutOfRange);
                }
                self.players[p].resources[i2] += 1;
                assert(self@ =~~= with_holding(v1, p as int, add_res(h2, k2, 1)->0));
            },
            DevelopmentCard::VictoryPoint => {
                if self.players[p].score == usize::MAX {
                    return Err(EventFault::OutOfRange);
                }
                self.players[p].score += 1;
                assert(self@ =~~= with_holding(
                    v1,
                    p as int,
                    Holding { score: (v1.players[p as int].score + 1) as usize, ..v1.players[p as int] },
                ));
            },
            _ => {},
        }
        Ok(none)
    }

    fn on_trade_request(
        &mut self,
        player: usize,
        request: crate::seafarers::element::TradeRequest,
        trade: &mut TradeBoard,
        trade_state: TradeState,
    ) -> (r: Result<Reaction, EventFault>)
        ensures
            match r {
                Ok(re) => react(old(self)@, old(trade)@, trade_state, GameMsg::PlayerTradeRequest((player, request))) == Ok::<
                    (Picture, Board, Reaction),
                    EventFault,
                >((final(self)@, final(trade)@, re)),
                Err(f) => react(old(self)@, old(trade)@, trade_state, GameMsg::PlayerTradeRequest((player, request))) == Err::<
                    (Picture, Board, Reaction),
                    EventFault,
                >(f),
            },
    {
        let ghost v0 = self@;
        let n = self.players.len();
        let none = Reaction { next_state: None, next_trade_state: None, action: None, stop: false };
        if player == self.me {
            return Ok(none);
        }
        if !write_offer_exec(&mut trade.offer, request.from()) {
            return Err(EventFault::OutOfRange);
        }
        let wanted = if self.me < n {
            write_want_exec(&self.players[self.me].resources, &mut trade.want, request.to())
        } else if request.to().len() == 0 {
            Some(true)
        } else {
            proof {
                let w = old(trade)@.want;
                let list = request.wanted();
                assert(list.take(1).drop_last() =~= list.take(0));
                assert(write_want(Seq::empty(), w, list.take(0)) == Some(Ok::<Seq<u8>, ()>(w)));
                assert(write_want(Seq::empty(), w, list.take(1)) is None);
                lemma_write_want_prefix(Seq::empty(), w, list, 1);
            }
            None
        };
        match wanted {
            None => Err(EventFault::OutOfRange),
            Some(false) => {
                trade.clear();
                Ok(Reaction {
                    next_state: Some(CatanState::Trade),
                    next_trade_state: Some(TradeState::WaitingConfirm),
                    action: Some(GameAct::TradeResponse(TradeResponse::Reject)),
                    stop: true,
                })
            },
            Some(true) => {
                assert(request.wanted().len() == 0 ==> request.wanted() =~= Seq::<(TileKind, usize)>::empty());
                Ok(Reaction {
                    next_state: Some(CatanState::Trade),
                    next_trade_state: Some(TradeState::Accepting),
                    action: None,
                    stop: true,
                })
            },
        }
    }

    fn on_trade_response(
        &mut self,
        player: usize,
        resp: TradeResponse,
        trade: &mut TradeBoard,
        trade_state: TradeState,
    ) -> (r: Result<Reaction, EventFault>)
        ensures
            match r {
                Ok(re) => react(old(self)@, old(trade)@, trade_state, GameMsg::PlayerTradeResponse((player, resp))) == Ok::<
                    (Picture, Board, Reaction),
                    EventFault,
                >((final(self)@, final(trade)@, re)),
                Err(f) => react(old(self)@, old(trade)@, trade_state, GameMsg::PlayerTradeResponse((player, resp))) == Err::<
                    (Picture, Board, Reaction),
                    EventFault,
                >(f),
            },
    {
        let ghost v0 = self@;
        let n = self.players.len();
        let none = Reaction { next_state: None, next_trade_state: None, action: None, stop: false };
        if trade_state == TradeState::WaitingResponse && player != self.me {
            trade.response.insert(player, resp);
            if n == 0 {
                return Err(EventFault::OutOfRange);
            }
            if trade.response.len() == n - 1 {
                if all_accept(&trade.response) {
                    Ok(Reaction {
                        next_state: None,
                        next_trade_state: Some(TradeState::Confirming),
                        action: None,
                        stop: false,
                    })
                } else {
                    Ok(Reaction {
                        next_state: None,
                        next_trade_state: None,
                        action: Some(GameAct::TradeConfirm(None)),
                        stop: false,
                    })
                }
            } else {
                Ok(none)
            }
        } else {
            Ok(none)
        }
    }

    fn on_trade(
        &mut self,
        t: Option<Trade>,
        Ghost(b): Ghost<Board>,
        Ghost(ts): Ghost<TradeState>,
    ) -> (r: Result<Reaction, EventFault>)
        ensures
            match r {
                Ok(re) => react(old(self)@, b, ts, GameMsg::PlayerTrade(t)) == Ok::<
                    (Picture, Board, Reaction),
                    EventFault,
                >((final(self)@, b, re)),
                Err(f) => react(old(self)@, b, ts, GameMsg::PlayerTrade(t)) == Err::<
                    (Picture, Board, Reaction),
                    EventFault,
                >(f),
            },
    {
        let ghost v0 = self@;
        let n = self.players.len();
        let none = Reaction { next_state: None, next_trade_state: None, action: None, stop: false };
        match t {
            None => {},
            Some(t) => {
                if t.from >= n {
                    return Err(EventFault::OutOfRange);
                }
                if !self.apply_trade_exec(t.from, t.to, t.request.from(), true) {
                    return Err(EventFault::OutOfRange);
                }
                if !self.apply_trade_exec(t.from, t.to, t.request.to(), false) {
                    return Err(EventFault::OutOfRange);
                }
            },
        }
        let st = if self.current_turn == self.me {
            CatanState::Menu
        } else {
            CatanState::Wait
        };
        Ok(Reaction { next_state: Some(st), next_trade_state: None, action: None, stop: true })
    }

    fn on_offer(
        &mut self,
        o: crate::seafarers::element::OfferResources,
        Ghost(b): Ghost<Board>,
        Ghost(ts): Ghost<TradeState>,
    ) -> (r: Result<Reaction, EventFault>)
        ensures
            match r {
                Ok(re) => react(old(self)@, b, ts, GameMsg::PlayerOfferResources(o)) == Ok::<
                    (Picture, Board, Reaction),
                    EventFault,
                >((final(self)@, b, re)),
                Err(f) => react(old(self)@, b, ts, GameMsg::PlayerOfferResources(o)) == Err::<
                    (Picture, Board, Reaction),
                    EventFault,
                >(f),
            },
    {
        let ghost v0 = self@;
        let n = self.players.len();
        let none = Reaction { next_state: None, next_trade_state: None, action: None, stop: false };
        let k = o.kind.to_index();
        if o.player >= n || k >= TILE_KINDS {
            return Err(EventFault::OutOfRange);
        }
        let x = #[verifier::truncate] (self.players[o.player].resources[k] as isize);
        let y = match x.checked_add(o.count) {
            None => {
                return Err(EventFault::OutOfRange);
            },
            Some(y) => y,
        };
        let z = if y < 20 {
            y
        } else {
            20
        };
        let w: usize = if z > 0 {
            z as usize
        } else {
            0
        };
        self.players[o.player].resources[k] = w;
        assert(self@ =~~= with_holding(
            v0,
            o.player as int,
            Holding {
                resources: v0.players[o.player as int].resources.update(k as int, w),
                ..v0.players[o.player as int]
            },
        ));
        Ok(none)
    }
}

/// An offer as a player's picture takes it leaves the counter between zero
/// and twenty.
pub proof fn lemma_offer_bounded(r: usize, count: isize)
    ensures
        offered_count(r, count) matches Some(x) ==> 0 <= x <= 20,
{
}

/// A trade shown in a player's picture between two players keeps, for every
/// kind, what the two hold together, and leaves the others alone.
pub proof fn lemma_picture_trade_conserves(
    ps: Seq<Holding>,
    a: int,
    t: usize,
    list: Seq<(TileKind, usize)>,
    give: bool,
)
    requires
        0 <= a < ps.len(),
        t < ps.len(),
        a != t,
    ensures
        apply_trade(ps, a, Some(t), list, give) matches Some(q) ==> {
            &&& q.len() == ps.len()
            &&& forall|k: int|
                0 <= k < ps[a].resources.len() && k < ps[t as int].resources.len() ==> #[trigger] q[a].resources[k]
                    + q[t as int].resources[k] == ps[a].resources[k] + ps[t as int].resources[k]
            &&& forall|i: int| 0 <= i < ps.len() && i != a && i != t ==> #[trigger] q[i] == ps[i]
            &&& q[a].resources.len() == ps[a].resources.len()
            &&& q[t as int].resources.len() == ps[t as int].resources.len()
        },
    decreases list.len(),
{
    if list.len() > 0 {
        lemma_picture_trade_conserves(ps, a, t, list.drop_last(), give);
        match apply_trade(ps, a, Some(t), list.drop_last(), give) {
            Some(q0) => match apply_trade(ps, a, Some(t), list, give) {
                Some(q) => {
                    assert forall|k: int|
                        0 <= k < ps[a].resources.len() && k < ps[t as int].resources.len() implies #[trigger] q[a].resources[k]
                            + q[t as int].resources[k] == ps[a].resources[k] + ps[t as int].resources[k] by {
                        assert(q0[a].resources[k] + q0[t as int].resources[k] == ps[a].resources[k]
                            + ps[t as int].resources[k]);
                    }
                },
                None => {},
            },
            None => {},
        }
    }
}

} // verus!
