//! What a player's clicks lead to. The screen finds what was clicked (a
//! menu entry, a point, a line, a tile, a player, a kind of resource or a
//! button of a board); from there on the answer is the rules of the
//! client: what the picture, the boards and the choices made so far become,
//! which action goes to the server, and which screens to turn to.
use crate::element::{Coordinate, Line};
use crate::seafarers::element::{
    DevCard, DevelopmentCard, GameAct, PlayerCommon, SelectRobber, TileKind, TradeRequest,
    TradeResponse, TradeTarget, DEV_CARDS, TILE_KINDS,
};
use crate::seafarers::view::{
    cleared, with_holding, CatanState, CatanView, Holding, Picture, TradeBoard, TradeState,
};
use crate::geometry::{corners_fit, point_neighbors, tile_corners};
use crate::model::{keys_distinct, lemma_lines_map_at, lines_map};
use vstd::prelude::*;

verus! {

/// Where the screen for playing a development card stands.
#[derive(Clone, Copy, PartialEq, Eq, Debug, Hash, Structural)]
pub enum UseCardState {
    SelectCard,
    Knight,
    KnightStealing,
    RoadBuilding,
    YearOfPlenty,
    Monopoly,
}

/// The entries of the menu.
#[derive(Clone, Copy, PartialEq, Eq, Debug, Hash, Structural)]
pub enum Operation {
    BuildSettlement,
    BuildCity,
    BuildRoad,
    Trade,
    BuyCard,
    UseCard,
    EndTurn,
}

/// What follows a click: the action sent to the server, and the screens
/// to turn to (the main one, the trade board's, the card screen's).
#[derive(Debug)]
pub struct Answer {
    pub action: Option<GameAct>,
    pub next_state: Option<CatanState>,
    pub next_trade_state: Option<TradeState>,
    pub next_card_state: Option<UseCardState>,
}

/// Nothing is sent and no screen turns.
pub open spec fn nothing() -> Answer {
    Answer { action: None, next_state: None, next_trade_state: None, next_card_state: None }
}

/// The main screen turns to `st`, and nothing is sent.
pub open spec fn screen(st: CatanState) -> Answer {
    Answer { action: None, next_state: Some(st), next_trade_state: None, next_card_state: None }
}

/// `act` is sent and the main screen turns to `st`.
pub open spec fn send(act: GameAct, st: CatanState) -> Answer {
    Answer { action: Some(act), next_state: Some(st), next_trade_state: None, next_card_state: None }
}

/// The screen that the space key turns to from `state`, if any: the
/// screens of a turn, one after the other.
pub open spec fn space_turn(state: CatanState) -> Option<CatanState> {
    match state {
        CatanState::Wait => Some(CatanState::Menu),
        CatanState::Menu => Some(CatanState::BuidSettlement),
        CatanState::BuidSettlement => Some(CatanState::BuildCity),
        CatanState::BuildCity => Some(CatanState::BuildRoad),
        CatanState::BuildRoad => Some(CatanState::Trade),
        CatanState::Trade => Some(CatanState::SelectRobber),
        CatanState::SelectRobber => Some(CatanState::Wait),
        _ => None,
    }
}

/// The screen that the space key turns to from `state`, if any.
pub fn change_state(state: CatanState) -> (r: Option<CatanState>)
    ensures
        r == space_turn(state),
{
    match state {
        CatanState::Wait => Some(CatanState::Menu),
        CatanState::Menu => Some(CatanState::BuidSettlement),
        CatanState::BuidSettlement => Some(CatanState::BuildCity),
        CatanState::BuildCity => Some(CatanState::BuildRoad),
        CatanState::BuildRoad => Some(CatanState::Trade),
        CatanState::Trade => Some(CatanState::SelectRobber),
        CatanState::SelectRobber => Some(CatanState::Wait),
        _ => None,
    }
}

/// The player can pay for a settlement and has one left.
pub open spec fn affords_settlement(p: PlayerCommon) -> bool {
    p.res(TileKind::Brick) >= 1 && p.res(TileKind::Grain) >= 1 && p.res(TileKind::Wool) >= 1 && p.res(
        TileKind::Wood,
    ) >= 1 && p.settlement_left > 0
}

/// The player can pay for a city and has one left.
pub open spec fn affords_city(p: PlayerCommon) -> bool {
    p.res(TileKind::Stone) >= 3 && p.res(TileKind::Grain) >= 2 && p.city_left > 0
}

/// The player can pay for a road and has built fewer than fifteen.
pub open spec fn affords_road(p: PlayerCommon) -> bool {
    p.res(TileKind::Brick) >= 1 && p.res(TileKind::Wood) >= 1 && p.roads@.len() < 15
}

/// The player can pay for a development card.
pub open spec fn affords_card(p: PlayerCommon) -> bool {
    p.res(TileKind::Grain) >= 1 && p.res(TileKind::Wool) >= 1 && p.res(TileKind::Stone) >= 1
}

/// The player holds some resource.
pub open spec fn holds_resources(p: PlayerCommon) -> bool {
    exists|i: int| 0 <= i < TILE_KINDS && #[trigger] p.resources[i] > 0
}

/// The player holds some development card.
pub open spec fn holds_cards(p: PlayerCommon) -> bool {
    exists|i: int| 0 <= i < DEV_CARDS && #[trigger] p.cards[i] > 0
}

/// A screen that an entry of the menu opens, when the player may: the
/// entry closes it again when it is open.
pub open spec fn toggle(allowed: bool, state: CatanState, target: CatanState) -> Answer {
    if !allowed {
        nothing()
    } else if state == target {
        screen(CatanState::Menu)
    } else {
        screen(target)
    }
}

/// What a click on the menu entry `op` leads to, for the player `p` on the
/// screen `state`, `used_card` telling whether a card was played this turn.
/// The trade board is cleared when it opens.
pub open spec fn menu_answer(p: PlayerCommon, used_card: bool, op: Operation, state: CatanState) -> Answer {
    match op {
        Operation::BuildSettlement => toggle(affords_settlement(p), state, CatanState::BuidSettlement),
        Operation::BuildCity => toggle(affords_city(p), state, CatanState::BuildCity),
        Operation::BuildRoad => toggle(affords_road(p), state, CatanState::BuildRoad),
        Operation::Trade => if !holds_resources(p) {
            nothing()
        } else if state == CatanState::Trade {
            screen(CatanState::Menu)
        } else {
            Answer {
                action: None,
                next_state: Some(CatanState::Trade),
                next_trade_state: Some(TradeState::Offering),
                next_card_state: None,
            }
        },
        Operation::BuyCard => if affords_card(p) {
            Answer { action: Some(GameAct::BuyDevelopmentCard), next_state: None, next_trade_state: None, next_card_state: None }
        } else {
            nothing()
        },
        Operation::UseCard => if !holds_cards(p) || used_card {
            nothing()
        } else if state == CatanState::UseDevelopmentCard {
            screen(CatanState::Menu)
        } else {
            Answer {
                action: None,
                next_state: Some(CatanState::UseDevelopmentCard),
                next_trade_state: None,
                next_card_state: Some(UseCardState::SelectCard),
            }
        },
        Operation::EndTurn => send(GameAct::EndTurn, CatanState::Wait),
    }
}

/// Whether the click opens the trade board, which is cleared then.
pub open spec fn opens_trade(p: PlayerCommon, op: Operation, state: CatanState) -> bool {
    op == Operation::Trade && holds_resources(p) && state != CatanState::Trade
}

impl CatanView {
    /// What a click on the menu entry `op` leads to on the screen `state`
    /// (see `menu_answer`); the trade board is cleared when it opens.
    pub fn menu_click(&self, op: Operation, state: CatanState, trade: &mut TradeBoard) -> (a: Answer)
        requires
            self.me < self.players@.len(),
        ensures
            a == menu_answer(self.players@[self.me as int], self.used_card, op, state),
            final(trade)@ == (if opens_trade(self.players@[self.me as int], op, state) {
                cleared()
            } else {
                old(trade)@
            }),
    {
        let p = &self.players[self.me];
        match op {
            Operation::BuildSettlement => {
                if !p.can_build_settlement() {
                    Answer { action: None, next_state: None, next_trade_state: None, next_card_state: None }
                } else if state == CatanState::BuidSettlement {
                    Answer { action: None, next_state: Some(CatanState::Menu), next_trade_state: None, next_card_state: None }
                } else {
                    Answer { action: None, next_state: Some(CatanState::BuidSettlement), next_trade_state: None, next_card_state: None }
                }
            },
            Operation::BuildCity => {
                if !p.can_build_city() {
                    Answer { action: None, next_state: None, next_trade_state: None, next_card_state: None }
                } else if state == CatanState::BuildCity {
                    Answer { action: None, next_state: Some(CatanState::Menu), next_trade_state: None, next_card_state: None }
                } else {
                    Answer { action: None, next_state: Some(CatanState::BuildCity), next_trade_state: None, next_card_state: None }
                }
            },
            Operation::BuildRoad => {
                if !p.can_build_road() {
                    Answer { action: None, next_state: None, next_trade_state: None, next_card_state: None }
                } else if state == CatanState::BuildRoad {
                    Answer { action: None, next_state: Some(CatanState::Menu), next_trade_state: None, next_card_state: None }
                } else {
                    Answer { action: None, next_state: Some(CatanState::BuildRoad), next_trade_state: None, next_card_state: None }
                }
            },
            Operation::Trade => {
                if !p.can_trade() {
                    Answer { action: None, next_state: None, next_trade_state: None, next_card_state: None }
                } else if state == CatanState::Trade {
                    Answer { action: None, next_state: Some(CatanState::Menu), next_trade_state: None, next_card_state: None }
                } else {
                    trade.clear();
                    Answer {
                        action: None,
                        next_state: Some(CatanState::Trade),
                        next_trade_state: Some(TradeState::Offering),
                        next_card_state: None,
                    }
                }
            },
            Operation::BuyCard => {
                if p.can_buy_development_card() {
                    Answer { action: Some(GameAct::BuyDevelopmentCard), next_state: None, next_trade_state: None, next_card_state: None }
                } else {
                    Answer { action: None, next_state: None, next_trade_state: None, next_card_state: None }
                }
            },
            Operation::UseCard => {
                if !p.can_use_development_card() || self.used_card {
                    Answer { action: None, next_state: None, next_trade_state: None, next_card_state: None }
                } else if state == CatanState::UseDevelopmentCard {
                    Answer { action: None, next_state: Some(CatanState::Menu), next_trade_state: None, next_card_state: None }
                } else {
                    Answer {
                        action: None,
                        next_state: Some(CatanState::UseDevelopmentCard),
                        next_trade_state: None,
                        next_card_state: Some(UseCardState::SelectCard),
                    }
                }
            },
            Operation::EndTurn => {
                Answer { action: Some(GameAct::EndTurn), next_state: Some(CatanState::Wait), next_trade_state: None, next_card_state: None }
            },
        }
    }
}

/// A button of the trade board.
#[derive(Clone, Copy, PartialEq, Eq, Debug, Hash, Structural)]
pub enum TradeButton {
    /// One more of a kind offered.
    OfferMore(TileKind),
    /// One fewer of a kind offered.
    OfferLess(TileKind),
    /// One more of a kind wanted.
    WantMore(TileKind),
    /// One fewer of a kind wanted.
    WantLess(TileKind),
    /// Ask the bank.
    Bank,
    /// Ask at a harbor.
    Harbor,
    /// Ask the other players.
    Players,
    /// Close the board.
    Close,
}

/// A button of the board on which the resources to drop are counted.
#[derive(Clone, Copy, PartialEq, Eq, Debug, Hash, Structural)]
pub enum DropButton {
    More(TileKind),
    Less(TileKind),
    Done,
}

/// The counts of each kind to drop.
pub struct DropBoard {
    pub drop: [u8; TILE_KINDS],
}

impl DropBoard {
    /// Nothing to drop yet.
    pub fn new() -> (b: Self)
        ensures
            b.drop@ == Seq::new(TILE_KINDS as nat, |i: int| 0u8),
    {
        let b = DropBoard { drop: [0, 0, 0, 0, 0, 0, 0, 0, 0] };
        assert(b.drop@ =~= Seq::new(TILE_KINDS as nat, |i: int| 0u8));
        b
    }
}

/// The kind numbered `i` (see `TileKind::from_id`).
pub open spec fn kind_numbered(i: int) -> TileKind {
    match TileKind::from_id(i) {
        Ok(k) => k,
        Err(_) => TileKind::Max,
    }
}

/// The counts of a board as a list: each kind, in the order of their
/// numbers, with its count.
pub open spec fn count_list(counts: Seq<u8>) -> Seq<(TileKind, usize)> {
    Seq::new(counts.len(), |i: int| (kind_numbered(i), counts[i] as usize))
}

/// The sum of byte counters.
pub open spec fn byte_sum(s: Seq<u8>) -> int
    decreases s.len(),
{
    if s.len() == 0 {
        0
    } else {
        byte_sum(s.drop_last()) + s.last()
    }
}

/// Every counter of the board is at most twenty.
pub open spec fn within_twenty(s: Seq<u8>) -> bool {
    forall|i: int| 0 <= i < s.len() ==> #[trigger] s[i] <= 20
}

/// One more on counter `k`, up to twenty, when `allowed`.
pub open spec fn count_up(s: Seq<u8>, k: TileKind, allowed: bool) -> Seq<u8> {
    if allowed {
        s.update(k.id(), if s[k.id()] + 1 > 20 { 20u8 } else { (s[k.id()] + 1) as u8 })
    } else {
        s
    }
}

/// One fewer on counter `k`, not below zero.
pub open spec fn count_down(s: Seq<u8>, k: TileKind) -> Seq<u8> {
    s.update(k.id(), if s[k.id()] == 0 { 0u8 } else { (s[k.id()] - 1) as u8 })
}

/// The kind numbered `i`.
fn kind_of_number(i: usize) -> (k: TileKind)
    requires
        i < TILE_KINDS,
    ensures
        k == kind_numbered(i as int),
        k.id() == i,
{
    match i {
        0 => TileKind::Empty,
        1 => TileKind::Dessert,
        2 => TileKind::Ocean,
        3 => TileKind::Gold,
        4 => TileKind::Wood,
        5 => TileKind::Brick,
        6 => TileKind::Grain,
        7 => TileKind::Wool,
        _ => TileKind::Stone,
    }
}

/// The counts of a board as a list (see `count_list`).
fn list_counts(counts: &[u8; TILE_KINDS]) -> (v: Vec<(TileKind, usize)>)
    ensures
        v@ == count_list(counts@),
{
    let mut v: Vec<(TileKind, usize)> = Vec::new();
    let mut i: usize = 0;
    while i < TILE_KINDS
        invariant
            i <= TILE_KINDS,
            v@ == count_list(counts@).take(i as int),
        decreases TILE_KINDS - i,
    {
        v.push((kind_of_number(i), counts[i] as usize));
        i += 1;
        assert(v@ =~= count_list(counts@).take(i as int));
    }
    assert(count_list(counts@).take(TILE_KINDS as int) =~= count_list(counts@));
    v
}

/// One more on counter `k`, up to twenty, when `allowed`.
fn more(counts: &mut [u8; TILE_KINDS], k: TileKind, allowed: bool)
    requires
        k != TileKind::Max,
        within_twenty(old(counts)@),
    ensures
        final(counts)@ == count_up(old(counts)@, k, allowed),
        within_twenty(final(counts)@),
{
    if allowed {
        let i = k.to_index();
        counts[i] = counts[i] + 1;
        if counts[i] > 20 {
            counts[i] = 20;
        }
    }
    assert(within_twenty(counts@));
}

/// One fewer on counter `k`, not below zero.
fn less(counts: &mut [u8; TILE_KINDS], k: TileKind)
    requires
        k != TileKind::Max,
        within_twenty(old(counts)@),
    ensures
        final(counts)@ == count_down(old(counts)@, k),
        within_twenty(final(counts)@),
{
    let i = k.to_index();
    counts[i] = counts[i].saturating_sub(1);
    assert(within_twenty(counts@));
}

/// What a button of the trade board leads to while a trade is put
/// together: the counters change (an offer only up to what the player
/// holds), or a request with the counts of the board goes to the bank, a
/// harbor or the players, or the board closes.
pub open spec fn offering_answer(a: Answer, offer: Seq<u8>, want: Seq<u8>, button: TradeButton) -> bool {
    match button {
        TradeButton::Bank => request_sent(a, offer, want, TradeTarget::Bank),
        TradeButton::Harbor => request_sent(a, offer, want, TradeTarget::Harbor),
        TradeButton::Players => request_sent(a, offer, want, TradeTarget::Player),
        TradeButton::Close => a == screen(CatanState::Menu),
        _ => a == nothing(),
    }
}

/// A request with the counts `offer` and `want` goes to `target`, and the
/// board waits for the answer.
pub open spec fn request_sent(a: Answer, offer: Seq<u8>, want: Seq<u8>, target: TradeTarget) -> bool {
    &&& a.action matches Some(GameAct::TradeRequest(t)) && t.offered() == count_list(offer) && t.wanted()
        == count_list(want) && t.target_of() == target
    &&& a.next_state is None
    &&& a.next_trade_state == Some(TradeState::WaitingResponse)
    &&& a.next_card_state is None
}

impl TradeBoard {
    /// A click on `button` while a trade is put together, by a player
    /// holding `have` (see `offering_answer`).
    pub fn offering_click(&mut self, button: TradeButton, have: &[usize; TILE_KINDS]) -> (a: Answer)
        requires
            within_twenty(old(self)@.offer),
            within_twenty(old(self)@.want),
            button matches TradeButton::OfferMore(k) ==> k != TileKind::Max,
            button matches TradeButton::OfferLess(k) ==> k != TileKind::Max,
            button matches TradeButton::WantMore(k) ==> k != TileKind::Max,
            button matches TradeButton::WantLess(k) ==> k != TileKind::Max,
        ensures
            offering_answer(a, old(self)@.offer, old(self)@.want, button),
            final(self)@.offer == (match button {
                TradeButton::OfferMore(k) => count_up(
                    old(self)@.offer,
                    k,
                    have@[k.id()] > old(self)@.offer[k.id()],
                ),
                TradeButton::OfferLess(k) => count_down(old(self)@.offer, k),
                _ => old(self)@.offer,
            }),
            final(self)@.want == (match button {
                TradeButton::WantMore(k) => count_up(old(self)@.want, k, true),
                TradeButton::WantLess(k) => count_down(old(self)@.want, k),
                _ => old(self)@.want,
            }),
            final(self)@.response == old(self)@.response,
            within_twenty(final(self)@.offer),
            within_twenty(final(self)@.want),
    {
        match button {
            TradeButton::OfferMore(k) => {
                let allowed = have[k.to_index()] > self.offer[k.to_index()] as usize;
                more(&mut self.offer, k, allowed);
                Answer { action: None, next_state: None, next_trade_state: None, next_card_state: None }
            },
            TradeButton::OfferLess(k) => {
                less(&mut self.offer, k);
                Answer { action: None, next_state: None, next_trade_state: None, next_card_state: None }
            },
            TradeButton::WantMore(k) => {
                more(&mut self.want, k, true);
                Answer { action: None, next_state: None, next_trade_state: None, next_card_state: None }
            },
            TradeButton::WantLess(k) => {
                less(&mut self.want, k);
                Answer { action: None, next_state: None, next_trade_state: None, next_card_state: None }
            },
            TradeButton::Close => {
                Answer { action: None, next_state: Some(CatanState::Menu), next_trade_state: None, next_card_state: None }
            },
            _ => {
                let target = match button {
                    TradeButton::Bank => TradeTarget::Bank,
                    TradeButton::Harbor => TradeTarget::Harbor,
                    _ => TradeTarget::Player,
                };
                let request = TradeRequest::new(list_counts(&self.offer), list_counts(&self.want), target);
                Answer {
                    action: Some(GameAct::TradeRequest(request)),
                    next_state: None,
                    next_trade_state: Some(TradeState::WaitingResponse),
                    next_card_state: None,
                }
            },
        }
    }

    /// A click on either button of a request from another player: both
    /// accept it, and the board waits for the requester's choice.
    pub fn accepting_click(&self, yes: bool) -> (a: Answer)
        ensures
            a == (Answer {
                action: Some(GameAct::TradeResponse(TradeResponse::Accept)),
                next_state: None,
                next_trade_state: Some(TradeState::WaitingConfirm),
                next_card_state: None,
            }),
    {
        Answer {
            action: Some(GameAct::TradeResponse(TradeResponse::Accept)),
            next_state: None,
            next_trade_state: Some(TradeState::WaitingConfirm),
            next_card_state: None,
        }
    }

    /// A click on the answer of `player`: the trade with that player is
    /// confirmed.
    pub fn confirm_click(&self, player: usize) -> (a: Answer)
        ensures
            a == (Answer {
                action: Some(GameAct::TradeConfirm(Some(player))),
                next_state: None,
                next_trade_state: Some(TradeState::WaitingConfirm),
                next_card_state: None,
            }),
    {
        Answer {
            action: Some(GameAct::TradeConfirm(Some(player))),
            next_state: None,
            next_trade_state: Some(TradeState::WaitingConfirm),
            next_card_state: None,
        }
    }
}

/// The sum of the counters, for counters of at most twenty.
fn sum_counts(counts: &[u8; TILE_KINDS]) -> (n: usize)
    requires
        within_twenty(counts@),
    ensures
        n == byte_sum(counts@),
{
    let mut n: usize = 0;
    let mut i: usize = 0;
    while i < TILE_KINDS
        invariant
            i <= TILE_KINDS,
            within_twenty(counts@),
            n == byte_sum(counts@.take(i as int)),
            n <= 20 * i,
        decreases TILE_KINDS - i,
    {
        assert(counts@.take(i as int + 1).drop_last() =~= counts@.take(i as int));
        assert(counts@[i as int] <= 20);
        n = n + counts[i] as usize;
        i += 1;
    }
    assert(counts@.take(TILE_KINDS as int) =~= counts@);
    n
}

/// What the player holds of kind `k`.
pub open spec fn held(v: &CatanView, k: TileKind) -> usize {
    v.players@[v.me as int].resources[k.id()]
}

impl CatanView {
    /// A click on `button` of the board of resources to drop: a counter
    /// changes (up to what the player holds), or, once the counts add up to
    /// the number to drop, they are sent, the board is cleared, nothing is
    /// left to drop, and the screen turns to the menu on the player's own
    /// turn, else to waiting.
    pub fn drop_click(&mut self, board: &mut DropBoard, button: DropButton) -> (a: Answer)
        requires
            old(self).me < old(self).players@.len(),
            within_twenty(old(board).drop@),
            button matches DropButton::More(k) ==> k != TileKind::Max,
            button matches DropButton::Less(k) ==> k != TileKind::Max,
        ensures
            within_twenty(final(board).drop@),
            match button {
                DropButton::More(k) => {
                    &&& a == nothing()
                    &&& final(board).drop@ == count_up(
                        old(board).drop@,
                        k,
                        held(old(self), k) > old(board).drop@[k.id()],
                    )
                    &&& *final(self) == *old(self)
                },
                DropButton::Less(k) => {
                    &&& a == nothing()
                    &&& final(board).drop@ == count_down(old(board).drop@, k)
                    &&& *final(self) == *old(self)
                },
                DropButton::Done => if byte_sum(old(board).drop@) == old(self).drop_cnt {
                    &&& a.action matches Some(GameAct::DropResource(l)) && l@ == count_list(old(board).drop@)
                    &&& a.next_state == Some(
                        if old(self).current_turn == old(self).me {
                            CatanState::Menu
                        } else {
                            CatanState::Wait
                        },
                    )
                    &&& a.next_trade_state is None && a.next_card_state is None
                    &&& final(board).drop@ == Seq::new(TILE_KINDS as nat, |i: int| 0u8)
                    &&& *final(self) == (CatanView { drop_cnt: 0, ..*old(self) })
                } else {
                    &&& a == nothing()
                    &&& final(board).drop@ == old(board).drop@
                    &&& *final(self) == *old(self)
                },
            },
    {
        match button {
            DropButton::More(k) => {
                let allowed = self.players[self.me].resources[k.to_index()] > board.drop[k.to_index()] as usize;
                more(&mut board.drop, k, allowed);
                Answer { action: None, next_state: None, next_trade_state: None, next_card_state: None }
            },
            DropButton::Less(k) => {
                less(&mut board.drop, k);
                Answer { action: None, next_state: None, next_trade_state: None, next_card_state: None }
            },
            DropButton::Done => {
                if sum_counts(&board.drop) == self.drop_cnt {
                    let list = list_counts(&board.drop);
                    let st = if self.current_turn == self.me {
                        CatanState::Menu
                    } else {
                        CatanState::Wait
                    };
                    *board = DropBoard::new();
                    self.drop_cnt = 0;
                    Answer { action: Some(GameAct::DropResource(list)), next_state: Some(st), next_trade_state: None, next_card_state: None }
                } else {
                    Answer { action: None, next_state: None, next_trade_state: None, next_card_state: None }
                }
            },
        }
    }
}

/// What the player has picked so far on the screens that take a target or
/// a second pick: the players that can be robbed, the first road of a road
/// building card, the first kind of a year of plenty card.
pub struct Choices {
    pub stealing: Vec<usize>,
    pub road_building: Option<Line>,
    pub year_of_plenty: Option<TileKind>,
}

impl Choices {
    /// Nothing picked.
    pub fn new() -> (c: Self)
        ensures
            c.stealing@ == Seq::<usize>::empty(),
            c.road_building is None,
            c.year_of_plenty is None,
    {
        Choices { stealing: Vec::new(), road_building: None, year_of_plenty: None }
    }
}

/// The card screen turns to `st`, and nothing is sent.
pub open spec fn card_screen(st: UseCardState) -> Answer {
    Answer { action: None, next_state: None, next_trade_state: None, next_card_state: Some(st) }
}

/// `card` is played: the action goes to the server, the card screen turns
/// back to picking a card, the main screen to the menu.
pub open spec fn play(card: DevCard, how: DevelopmentCard) -> Answer {
    Answer {
        action: Some(GameAct::UseDevelopmentCard((card, how))),
        next_state: Some(CatanState::Menu),
        next_trade_state: None,
        next_card_state: Some(UseCardState::SelectCard),
    }
}

/// What picking the card numbered `card` leads to: a victory point is
/// played at once (and the main screen turns to the menu); the other cards
/// open their own screens.
pub open spec fn card_answer(card: int) -> Answer {
    match DevCard::from_id(card) {
        Ok(DevCard::Knight) => card_screen(UseCardState::Knight),
        Ok(DevCard::RoadBuilding) => card_screen(UseCardState::RoadBuilding),
        Ok(DevCard::YearOfPlenty) => card_screen(UseCardState::YearOfPlenty),
        Ok(DevCard::Monopoly) => card_screen(UseCardState::Monopoly),
        _ => send(GameAct::UseDevelopmentCard((DevCard::VictoryPoint, DevelopmentCard::VictoryPoint)), CatanState::Menu),
    }
}

impl CatanView {
    /// A click on the card numbered `card`: where the player holds one, it
    /// is picked (see `card_answer`) and a card counts as played this turn;
    /// else nothing happens.
    pub fn development_card_click(&mut self, card: usize) -> (a: Answer)
        requires
            old(self).me < old(self).players@.len(),
            card < DEV_CARDS,
        ensures
            if old(self).players@[old(self).me as int].cards[card as int] > 0 {
                a == card_answer(card as int) && *final(self) == (CatanView { used_card: true, ..*old(self) })
            } else {
                a == nothing() && *final(self) == *old(self)
            },
    {
        if self.players[self.me].cards[card] == 0 {
            return Answer { action: None, next_state: None, next_trade_state: None, next_card_state: None };
        }
        self.used_card = true;
        if card == 0 {
            Answer { action: None, next_state: None, next_trade_state: None, next_card_state: Some(UseCardState::Knight) }
        } else if card == 2 {
            Answer { action: None, next_state: None, next_trade_state: None, next_card_state: Some(UseCardState::RoadBuilding) }
        } else if card == 4 {
            Answer { action: None, next_state: None, next_trade_state: None, next_card_state: Some(UseCardState::YearOfPlenty) }
        } else if card == 3 {
            Answer { action: None, next_state: None, next_trade_state: None, next_card_state: Some(UseCardState::Monopoly) }
        } else {
            Answer {
                action: Some(GameAct::UseDevelopmentCard((DevCard::VictoryPoint, DevelopmentCard::VictoryPoint))),
                next_state: Some(CatanState::Menu),
                next_trade_state: None,
                next_card_state: None,
            }
        }
    }

    /// A click on a kind on the monopoly screen: the card is played on it.
    pub fn monopoly_click(&self, kind: TileKind) -> (a: Answer)
        ensures
            a == play(DevCard::Monopoly, DevelopmentCard::Monopoly(kind)),
    {
        Answer {
            action: Some(GameAct::UseDevelopmentCard((DevCard::Monopoly, DevelopmentCard::Monopoly(kind)))),
            next_state: Some(CatanState::Menu),
            next_trade_state: None,
            next_card_state: Some(UseCardState::SelectCard),
        }
    }

    /// A click on a kind on the year of plenty screen: the first pick is
    /// kept; a second, different kind plays the card on both, and the pick
    /// is forgotten; the same kind again does nothing.
    pub fn year_of_plenty_click(&self, choices: &mut Choices, kind: TileKind) -> (a: Answer)
        ensures
            final(choices).stealing@ == old(choices).stealing@,
            final(choices).road_building == old(choices).road_building,
            match old(choices).year_of_plenty {
                None => a == nothing() && final(choices).year_of_plenty == Some(kind),
                Some(first) => if first != kind {
                    a == play(DevCard::YearOfPlenty, DevelopmentCard::YearOfPlenty(first, kind))
                        && final(choices).year_of_plenty is None
                } else {
                    a == nothing() && final(choices).year_of_plenty == old(choices).year_of_plenty
                },
            },
    {
        match choices.year_of_plenty {
            None => {
                choices.year_of_plenty = Some(kind);
                Answer { action: None, next_state: None, next_trade_state: None, next_card_state: None }
            },
            Some(first) => {
                if first != kind {
                    choices.year_of_plenty = None;
                    Answer {
                        action: Some(GameAct::UseDevelopmentCard((DevCard::YearOfPlenty, DevelopmentCard::YearOfPlenty(first, kind)))),
                        next_state: Some(CatanState::Menu),
                        next_trade_state: None,
                        next_card_state: Some(UseCardState::SelectCard),
                    }
                } else {
                    Answer { action: None, next_state: None, next_trade_state: None, next_card_state: None }
                }
            },
        }
    }

    /// A click on a road on the road building screen: a road other than the
    /// first pick is kept as the first pick, or, once there is one, plays
    /// the card on both and the pick is forgotten; the first pick again does
    /// nothing.
    pub fn road_building_click(&self, choices: &mut Choices, road: Line) -> (a: Answer)
        ensures
            final(choices).stealing@ == old(choices).stealing@,
            final(choices).year_of_plenty == old(choices).year_of_plenty,
            match old(choices).road_building {
                None => a == nothing() && final(choices).road_building == Some(road),
                Some(first) => if first != road {
                    a == play(DevCard::RoadBuilding, DevelopmentCard::RoadBuilding([first, road]))
                        && final(choices).road_building is None
                } else {
                    a == nothing() && final(choices).road_building == old(choices).road_building
                },
            },
    {
        match choices.road_building {
            None => {
                choices.road_building = Some(road);
                Answer { action: None, next_state: None, next_trade_state: None, next_card_state: None }
            },
            Some(first) => {
                if first != road {
                    choices.road_building = None;
                    Answer {
                        action: Some(GameAct::UseDevelopmentCard((DevCard::RoadBuilding, DevelopmentCard::RoadBuilding([first, road])))),
                        next_state: Some(CatanState::Menu),
                        next_trade_state: None,
                        next_card_state: Some(UseCardState::SelectCard),
                    }
                } else {
                    Answer { action: None, next_state: None, next_trade_state: None, next_card_state: None }
                }
            },
        }
    }

    /// A click on the player `target` to rob, after the robber was moved,
    /// or, with a knight card, after the knight moved it: the robbery is
    /// sent (as the card, for a knight) and the screens turn back.
    pub fn steal_click(&self, target: usize, knight: bool) -> (a: Answer)
        ensures
            a == (if knight {
                play(
                    DevCard::Knight,
                    DevelopmentCard::Knight(SelectRobber { player: self.me, target: Some(target), coord: self@.robber }),
                )
            } else {
                send(GameAct::SelectRobber((Some(target), self@.robber)), CatanState::Menu)
            }),
    {
        let robber = self.inner.robber();
        if knight {
            Answer {
                action: Some(GameAct::UseDevelopmentCard((
                    DevCard::Knight,
                    DevelopmentCard::Knight(SelectRobber { player: self.me, target: Some(target), coord: robber }),
                ))),
                next_state: Some(CatanState::Menu),
                next_trade_state: None,
                next_card_state: Some(UseCardState::SelectCard),
            }
        } else {
            Answer {
                action: Some(GameAct::SelectRobber((Some(target), robber))),
                next_state: Some(CatanState::Menu),
                next_trade_state: None,
                next_card_state: None,
            }
        }
    }
}

/// The board beyond the picture (harbors and dice numbers) is the same.
pub open spec fn same_rest(a: &CatanView, b: &CatanView) -> bool {
    a.inner.harbor_list() == b.inner.harbor_list() && a.inner.dice() == b.inner.dice()
}

/// `r` with `n` taken from the counter of `k`.
pub open spec fn spend(r: Seq<usize>, k: TileKind, n: int) -> Seq<usize> {
    r.update(k.id(), (r[k.id()] - n) as usize)
}

/// The picture with the player's own resources as `r`.
pub open spec fn paid(v: Picture, r: Seq<usize>) -> Picture {
    with_holding(v, v.me as int, Holding { resources: r, ..v.players[v.me as int] })
}

/// The points joined to `c` by an edge, on the board of `v`.
pub open spec fn neighbors_of(v: &CatanView, c: Coordinate) -> Seq<Option<Coordinate>> {
    point_neighbors(c, v@.points.len(), v@.points[0].len())
}

/// Some point joined to `c` by an edge has an owner.
pub open spec fn neighbor_owned(v: &CatanView, c: Coordinate) -> bool {
    exists|i: int|
        0 <= i < 3 && (#[trigger] neighbors_of(v, c)[i]) is Some && v@.points[neighbors_of(v, c)[i]->0.x as int][neighbors_of(
            v,
            c,
        )[i]->0.y as int].owner is Some
}

/// The points joined to a point of the grid by an edge lie in the grid.
proof fn lemma_neighbors_in_grid(v: &CatanView, c: Coordinate)
    requires
        v.inner.wf(),
        v.inner.in_points(c),
    ensures
        forall|i: int| 0 <= i < 3 && (#[trigger] neighbors_of(v, c)[i]) is Some ==> v.inner.in_points(neighbors_of(v, c)[i]->0),
{
    let p = v@.points;
    assert forall|i: int| 0 <= i < 3 && (#[trigger] neighbors_of(v, c)[i]) is Some implies v.inner.in_points(neighbors_of(v, c)[i]->0) by {
        let n = neighbors_of(v, c)[i]->0;
        assert(p[n.x as int].len() == p[0].len());
        assert(p[c.x as int].len() == p[0].len());
    }
}

impl CatanView {
    /// Whether some point joined to `c` by an edge has an owner.
    fn has_owned_neighbor(&self, c: Coordinate) -> (b: bool)
        requires
            self.inner.wf(),
            self.inner.in_points(c),
        ensures
            b == neighbor_owned(self, c),
    {
        proof {
            lemma_neighbors_in_grid(self, c);
        }
        let around = self.inner.point_get_points(c);
        let mut i: usize = 0;
        while i < 3
            invariant
                self.inner.wf(),
                i <= 3,
                around@ == neighbors_of(self, c),
                forall|k: int| 0 <= k < 3 && (#[trigger] neighbors_of(self, c)[k]) is Some ==> self.inner.in_points(neighbors_of(self, c)[k]->0),
                forall|k: int|
                    0 <= k < i ==> !((#[trigger] neighbors_of(self, c)[k]) is Some && self@.points[neighbors_of(
                        self,
                        c,
                    )[k]->0.x as int][neighbors_of(self, c)[k]->0.y as int].owner is Some),
            decreases 3 - i,
        {
            if let Some(n) = around[i] {
                if self.inner.point(n).is_owned() {
                    assert(neighbors_of(self, c)[i as int] is Some);
                    return true;
                }
            }
            i += 1;
        }
        false
    }

    /// A click on the point `c` while a city is to be built: on a point of
    /// the board with one of the player's settlements, the city is asked
    /// for and paid for at once (three stone, two grain), and the screen
    /// turns to the menu; elsewhere nothing happens.
    pub fn build_city_click(&mut self, c: Coordinate) -> (a: Answer)
        requires
            old(self).inner.wf(),
            old(self).me < old(self).players@.len(),
            old(self).inner.in_points(c),
            old(self).inner.valid_point(c) && old(self)@.points[c.x as int][c.y as int].owner == Some(old(self).me)
                ==> held(old(self), TileKind::Stone) >= 3 && held(old(self), TileKind::Grain) >= 2,
        ensures
            same_rest(final(self), old(self)),
            if old(self).inner.valid_point(c) && old(self)@.points[c.x as int][c.y as int].owner == Some(old(self).me) {
                &&& a == send(GameAct::BuildCity(c), CatanState::Menu)
                &&& final(self)@ == paid(
                    old(self)@,
                    spend(spend(old(self)@.players[old(self).me as int].resources, TileKind::Stone, 3), TileKind::Grain, 2),
                )
            } else {
                a == nothing() && *final(self) == *old(self)
            },
    {
        let ghost v0 = self@;
        if self.inner.point_valid(c) && self.inner.point(c).owner == Some(self.me) {
            let me = self.me;
            self.players[me].resources[TileKind::Stone.to_index()] -= 3;
            self.players[me].resources[TileKind::Grain.to_index()] -= 2;
            assert(self@.players =~~= paid(
                v0,
                spend(spend(v0.players[me as int].resources, TileKind::Stone, 3), TileKind::Grain, 2),
            ).players);
            Answer { action: Some(GameAct::BuildCity(c)), next_state: Some(CatanState::Menu), next_trade_state: None, next_card_state: None }
        } else {
            Answer { action: None, next_state: None, next_trade_state: None, next_card_state: None }
        }
    }
}

/// A settlement may go on `c` while building: a point of the board without
/// an owner, none of whose neighbours has one, that one of the player's
/// roads reaches, the player being able to pay for it.
pub open spec fn settlement_allowed(v: &CatanView, c: Coordinate) -> bool {
    &&& v.inner.valid_point(c)
    &&& v@.points[c.x as int][c.y as int].owner is None
    &&& affords_settlement(v.players@[v.me as int])
    &&& crate::catan::rules::reaches(v.players@[v.me as int].roads@, c)
    &&& !neighbor_owned(v, c)
}

/// A first settlement may go on `c` during the setup: a point of the board
/// without an owner, none of whose neighbours has one.
pub open spec fn first_settlement_allowed(v: &CatanView, c: Coordinate) -> bool {
    &&& v.inner.valid_point(c)
    &&& v@.points[c.x as int][c.y as int].owner is None
    &&& !neighbor_owned(v, c)
}

impl CatanView {
    /// A click on the point `c` while a settlement is to be built: where
    /// one is allowed (see `settlement_allowed`), it is asked for and paid
    /// for at once (a wood, a grain, a wool, a brick), and the screen turns
    /// to the menu; elsewhere nothing happens.
    pub fn build_settlement_click(&mut self, c: Coordinate) -> (a: Answer)
        requires
            old(self).inner.wf(),
            old(self).me < old(self).players@.len(),
            old(self).inner.in_points(c),
        ensures
            same_rest(final(self), old(self)),
            if settlement_allowed(old(self), c) {
                &&& a == send(GameAct::BuildSettlement(c), CatanState::Menu)
                &&& final(self)@ == paid(
                    old(self)@,
                    spend(
                        spend(
                            spend(spend(old(self)@.players[old(self).me as int].resources, TileKind::Wood, 1), TileKind::Grain, 1),
                            TileKind::Wool,
                            1,
                        ),
                        TileKind::Brick,
                        1,
                    ),
                )
            } else {
                a == nothing() && *final(self) == *old(self)
            },
    {
        let ghost v0 = self@;
        let me = self.me;
        if self.inner.point_valid(c) && self.inner.point(c).owner.is_none()
            && self.players[me].can_build_settlement() && self.players[me].have_roads_to(c)
            && !self.has_owned_neighbor(c) {
            self.players[me].resources[TileKind::Wood.to_index()] -= 1;
            self.players[me].resources[TileKind::Grain.to_index()] -= 1;
            self.players[me].resources[TileKind::Wool.to_index()] -= 1;
            self.players[me].resources[TileKind::Brick.to_index()] -= 1;
            assert(self@.players =~~= paid(
                v0,
                spend(
                    spend(spend(spend(v0.players[me as int].resources, TileKind::Wood, 1), TileKind::Grain, 1), TileKind::Wool, 1),
                    TileKind::Brick,
                    1,
                ),
            ).players);
            Answer {
                action: Some(GameAct::BuildSettlement(c)),
                next_state: Some(CatanState::Menu),
                next_trade_state: None,
                next_card_state: None,
            }
        } else {
            Answer { action: None, next_state: None, next_trade_state: None, next_card_state: None }
        }
    }

    /// A click on the point `c` while the first settlements are placed:
    /// where one is allowed (see `first_settlement_allowed`), it is asked
    /// for and shown at once, and the screen turns to placing a road;
    /// elsewhere nothing happens.
    pub fn init_settlement_click(&mut self, c: Coordinate) -> (a: Answer)
        requires
            old(self).inner.wf(),
            old(self).inner.in_points(c),
        ensures
            same_rest(final(self), old(self)),
            if first_settlement_allowed(old(self), c) {
                &&& a == send(GameAct::BuildSettlement(c), CatanState::InitRoad)
                &&& final(self)@ == (Picture {
                    points: old(self).inner.points_with(
                        c,
                        crate::seafarers::element::Point { owner: Some(old(self).me), city: old(self)@.points[c.x as int][c.y as int].city },
                    ),
                    ..old(self)@
                })
            } else {
                a == nothing() && *final(self) == *old(self)
            },
    {
        if self.inner.point_valid(c) && self.inner.point(c).owner.is_none() && !self.has_owned_neighbor(c) {
            let me = self.me;
            self.inner.add_settlement(me, c);
            Answer {
                action: Some(GameAct::BuildSettlement(c)),
                next_state: Some(CatanState::InitRoad),
                next_trade_state: None,
                next_card_state: None,
            }
        } else {
            Answer { action: None, next_state: None, next_trade_state: None, next_card_state: None }
        }
    }
}

/// The robber may move to the tile `c`: one that is neither empty nor the
/// desert, other than the one it stands on.
pub open spec fn robber_may_go(v: &CatanView, c: Coordinate) -> bool {
    let k = v@.tiles[c.x as int][c.y as int].kind_of();
    k != TileKind::Empty && k != TileKind::Dessert && v@.robber != c
}

/// Player `o`, not the player of the picture, owns a corner of the tile
/// `c`.
pub open spec fn robbable(v: &CatanView, c: Coordinate, o: usize) -> bool {
    o != v.me && exists|k: int|
        0 <= k < 6 && v@.points[(#[trigger] tile_corners(c)[k]).x as int][tile_corners(c)[k].y as int].owner == Some(o)
}

/// What moving the robber to `c` asks next: the player to rob, where there
/// is one to pick from, else the move is sent at once (as the card, for a
/// knight).
pub open spec fn robber_answer(me: usize, c: Coordinate, knight: bool, someone: bool) -> Answer {
    if someone {
        if knight {
            card_screen(UseCardState::KnightStealing)
        } else {
            screen(CatanState::Stealing)
        }
    } else if knight {
        play(DevCard::Knight, DevelopmentCard::Knight(SelectRobber { player: me, target: None, coord: c }))
    } else {
        send(GameAct::SelectRobber((None, c)), CatanState::Menu)
    }
}

/// Whether `x` is in `v`.
fn holds_number(v: &Vec<usize>, x: usize) -> (b: bool)
    ensures
        b == v@.contains(x),
{
    let mut i: usize = 0;
    while i < v.len()
        invariant
            i <= v.len(),
            forall|k: int| 0 <= k < i ==> v@[k] != x,
        decreases v.len() - i,
    {
        if v[i] == x {
            return true;
        }
        i += 1;
    }
    false
}

impl CatanView {
    /// A click on the tile `c` while the robber is to be moved (by a seven,
    /// or by a knight card): where it may go (see `robber_may_go`), the
    /// robber moves there, the players to rob become those owning a corner
    /// of the tile (see `robbable`), each once, and the screens turn as
    /// `robber_answer` says; elsewhere nothing happens.
    pub fn select_robber_click(&mut self, choices: &mut Choices, c: Coordinate, knight: bool) -> (a: Answer)
        requires
            old(self).inner.wf(),
            old(self).inner.in_tiles(c),
            corners_fit(c),
            forall|k: int| 0 <= k < 6 ==> old(self).inner.in_points(#[trigger] tile_corners(c)[k]),
        ensures
            same_rest(final(self), old(self)),
            final(choices).road_building == old(choices).road_building,
            final(choices).year_of_plenty == old(choices).year_of_plenty,
            if robber_may_go(old(self), c) {
                &&& final(self)@ == (Picture { robber: c, ..old(self)@ })
                &&& final(choices).stealing@.no_duplicates()
                &&& forall|o: usize| #[trigger] final(choices).stealing@.contains(o) <==> robbable(old(self), c, o)
                &&& a == robber_answer(old(self).me, c, knight, final(choices).stealing@.len() > 0)
            } else {
                &&& a == nothing()
                &&& *final(self) == *old(self)
                &&& final(choices).stealing@ == old(choices).stealing@
            },
    {
        let kind = self.inner.tile(c).kind();
        if kind == TileKind::Empty || kind == TileKind::Dessert || self.inner.robber() == c {
            return Answer { action: None, next_state: None, next_trade_state: None, next_card_state: None };
        }
        self.inner.set_robber(c);
        let corners = self.inner.tile_get_points(c);
        let mut found: Vec<usize> = Vec::new();
        let mut k: usize = 0;
        while k < 6
            invariant
                k <= 6,
                self.inner.wf(),
                corners@ == tile_corners(c),
                forall|j: int| 0 <= j < 6 ==> self.inner.in_points(#[trigger] tile_corners(c)[j]),
                self@.points == old(self)@.points,
                self.me == old(self).me,
                found@.no_duplicates(),
                forall|o: usize|
                    #[trigger] found@.contains(o) <==> (o != self.me && exists|j: int|
                        0 <= j < k && self@.points[(#[trigger] tile_corners(c)[j]).x as int][tile_corners(c)[j].y as int].owner
                            == Some(o)),
            decreases 6 - k,
        {
            let p = self.inner.point(corners[k]);
            let ghost f0 = found@;
            let ghost here = tile_corners(c)[k as int];
            assert(p == self@.points[here.x as int][here.y as int]);
            match p.owner {
                Some(o) => {
                    if o != self.me && !holds_number(&found, o) {
                        found.push(o);
                        proof {
                            assert forall|a: int, b: int| 0 <= a < b < found@.len() implies found@[a] != found@[b] by {
                                if b == found@.len() - 1 {
                                    assert(f0.contains(found@[a]) ==> true);
                                    assert(found@[a] == f0[a]);
                                }
                            }
                        }
                    }
                },
                None => {},
            }
            proof {
                assert forall|o: usize|
                    #[trigger] found@.contains(o) <==> (o != self.me && exists|j: int|
                        0 <= j < k + 1 && self@.points[(#[trigger] tile_corners(c)[j]).x as int][tile_corners(c)[j].y as int].owner
                            == Some(o)) by {
                    if found@.contains(o) {
                        if f0.contains(o) {
                            let j = choose|j: int|
                                0 <= j < k && self@.points[(#[trigger] tile_corners(c)[j]).x as int][tile_corners(c)[j].y as int].owner
                                    == Some(o);
                            assert(0 <= j < k + 1);
                        } else {
                            let w = choose|w: int| 0 <= w < found@.len() && found@[w] == o;
                            assert(w == f0.len());
                            assert(p.owner == Some(o));
                        }
                    }
                    if o != self.me && exists|j: int|
                        0 <= j < k + 1 && self@.points[(#[trigger] tile_corners(c)[j]).x as int][tile_corners(c)[j].y as int].owner
                            == Some(o) {
                        let j = choose|j: int|
                            0 <= j < k + 1 && self@.points[(#[trigger] tile_corners(c)[j]).x as int][tile_corners(c)[j].y as int].owner
                                == Some(o);
                        if j < k {
                            assert(f0.contains(o));
                            let w = choose|w: int| 0 <= w < f0.len() && f0[w] == o;
                            assert(found@[w] == o);
                        } else {
                            assert(p.owner == Some(o));
                            if f0.contains(o) {
                                let w = choose|w: int| 0 <= w < f0.len() && f0[w] == o;
                                assert(found@[w] == o);
                            } else {
                                assert(found@[found@.len() - 1] == o);
                            }
                        }
                    }
                }
            }
            k += 1;
        }
        choices.stealing = found;
        if choices.stealing.len() > 0 {
            if knight {
                Answer { action: None, next_state: None, next_trade_state: None, next_card_state: Some(UseCardState::KnightStealing) }
            } else {
                Answer { action: None, next_state: Some(CatanState::Stealing), next_trade_state: None, next_card_state: None }
            }
        } else if knight {
            Answer {
                action: Some(GameAct::UseDevelopmentCard((
                    DevCard::Knight,
                    DevelopmentCard::Knight(SelectRobber { player: self.me, target: None, coord: c }),
                ))),
                next_state: Some(CatanState::Menu),
                next_trade_state: None,
                next_card_state: Some(UseCardState::SelectCard),
            }
        } else {
            Answer {
                action: Some(GameAct::SelectRobber((None, c))),
                next_state: Some(CatanState::Menu),
                next_trade_state: None,
                next_card_state: None,
            }
        }
    }
}

/// A road may be placed on `l` during the setup: it leaves a point of the
/// player's, along an edge, where no road is yet.
pub open spec fn first_road_candidate(v: &CatanView, l: Line) -> bool {
    &&& v.inner.in_points(l.start)
    &&& v@.points[l.start.x as int][l.start.y as int].owner == Some(v.me)
    &&& neighbors_of(v, l.start).contains(Some(l.end))
    &&& !v@.roads.contains_key(l)
}

/// `l` was looked at before the slot `k` of the point at row `i`, column
/// `j`, in the order rows, columns, slots.
pub open spec fn scanned_before(v: &CatanView, l: Line, i: int, j: int, k: int) -> bool {
    ||| l.start.x < i
    ||| l.start.x == i && l.start.y < j
    ||| l.start.x == i && l.start.y == j && exists|kk: int| 0 <= kk < k && #[trigger] neighbors_of(v, l.start)[kk] == Some(l.end)
}

/// Whether `l` is in `v`.
fn holds_line(v: &Vec<Line>, l: Line) -> (b: bool)
    ensures
        b == v@.contains(l),
{
    let mut i: usize = 0;
    while i < v.len()
        invariant
            i <= v.len(),
            forall|k: int| 0 <= k < i ==> v@[k] != l,
        decreases v.len() - i,
    {
        if v[i] == l {
            return true;
        }
        i += 1;
    }
    false
}

/// `r` with `l` added at the end unless it is there already.
fn add_line(r: &mut Vec<Line>, l: Line)
    requires
        old(r)@.no_duplicates(),
    ensures
        final(r)@.no_duplicates(),
        forall|x: Line| #[trigger] final(r)@.contains(x) <==> old(r)@.contains(x) || x == l,
{
    if !holds_line(r, l) {
        let ghost r0 = r@;
        r.push(l);
        proof {
            assert forall|x: Line| #[trigger] r@.contains(x) <==> r0.contains(x) || x == l by {
                if r0.contains(x) {
                    let w = choose|w: int| 0 <= w < r0.len() && r0[w] == x;
                    assert(r@[w] == x);
                }
                if x == l {
                    assert(r@[r@.len() - 1] == l);
                }
                if r@.contains(x) {
                    let w = choose|w: int| 0 <= w < r@.len() && r@[w] == x;
                    if w < r0.len() {
                        assert(r0[w] == x);
                    }
                }
            }
        }
    }
}

impl CatanView {
    /// The lines on which the player may place a road during the setup
    /// (see `first_road_candidate`), each once: the screen finds the one
    /// clicked among them.
    pub fn initable_roads(&self) -> (r: Vec<Line>)
        requires
            self.inner.wf(),
        ensures
            r@.no_duplicates(),
            forall|l: Line| #[trigger] r@.contains(l) <==> first_road_candidate(self, l),
    {
        let mut r: Vec<Line> = Vec::new();
        let rows = self.inner.point_rows();
        let cols = self.inner.point_cols();
        let mut i: usize = 0;
        while i < rows
            invariant
                self.inner.wf(),
                rows == self@.points.len(),
                cols == self@.points[0].len(),
                i <= rows,
                r@.no_duplicates(),
                forall|l: Line| #[trigger] r@.contains(l) <==> first_road_candidate(self, l) && scanned_before(self, l, i as int, 0, 0),
            decreases rows - i,
        {
            let mut j: usize = 0;
            while j < cols
                invariant
                    self.inner.wf(),
                    rows == self@.points.len(),
                    cols == self@.points[0].len(),
                    i < rows,
                    j <= cols,
                    r@.no_duplicates(),
                    forall|l: Line| #[trigger] r@.contains(l) <==> first_road_candidate(self, l) && scanned_before(self, l, i as int, j as int, 0),
                decreases cols - j,
            {
                let point = Coordinate { x: i, y: j };
                assert(self@.points[i as int].len() == cols);
                let mine = match self.inner.point(point).owner {
                    Some(o) => o == self.me,
                    None => false,
                };
                let around = self.inner.point_get_points(point);
                let mut k: usize = 0;
                while k < 3
                    invariant
                        self.inner.wf(),
                        rows == self@.points.len(),
                        cols == self@.points[0].len(),
                        i < rows,
                        j < cols,
                        k <= 3,
                        point == (Coordinate { x: i, y: j }),
                        self.inner.in_points(point),
                        mine == (self@.points[i as int][j as int].owner == Some(self.me)),
                        around@ == neighbors_of(self, point),
                        r@.no_duplicates(),
                        forall|l: Line| #[trigger] r@.contains(l) <==> first_road_candidate(self, l) && scanned_before(self, l, i as int, j as int, k as int),
                    decreases 3 - k,
                {
                    let ghost r0 = r@;
                    if let Some(n) = around[k] {
                        let road = Line::new(point, n);
                        if mine && self.inner.roads().get(road).is_none() {
                            add_line(&mut r, road);
                        }
                    }
                    proof {
                        assert forall|l: Line| #[trigger] r@.contains(l) <==> first_road_candidate(self, l)
                            && scanned_before(self, l, i as int, j as int, k as int + 1) by {
                            if l.start == point && neighbors_of(self, point)[k as int] == Some(l.end) {
                                assert(neighbors_of(self, l.start).contains(Some(l.end)));
                            }
                            if first_road_candidate(self, l) && scanned_before(self, l, i as int, j as int, k as int + 1)
                                && !scanned_before(self, l, i as int, j as int, k as int) {
                                assert(l.start == point);
                                let kk = choose|kk: int| 0 <= kk < k + 1 && #[trigger] neighbors_of(self, l.start)[kk] == Some(l.end);
                                assert(kk == k);
                            }
                        }
                    }
                    k += 1;
                }
                proof {
                    assert forall|l: Line| #[trigger] r@.contains(l) <==> first_road_candidate(self, l)
                        && scanned_before(self, l, i as int, j as int + 1, 0) by {
                        if first_road_candidate(self, l) && l.start == point {
                            let kk = choose|kk: int| 0 <= kk < neighbors_of(self, l.start).len() && neighbors_of(self, l.start)[kk] == Some(l.end);
                            assert(neighbors_of(self, l.start)[kk] == Some(l.end));
                        }
                    }
                }
                j += 1;
            }
            proof {
                assert forall|l: Line| #[trigger] r@.contains(l) <==> first_road_candidate(self, l)
                    && scanned_before(self, l, i as int + 1, 0, 0) by {
                    if first_road_candidate(self, l) && l.start.x == i {
                        assert(self@.points[i as int].len() == cols);
                    }
                }
            }
            i += 1;
        }
        proof {
            assert forall|l: Line| #[trigger] r@.contains(l) <==> first_road_candidate(self, l) by {
                if first_road_candidate(self, l) {
                    assert(l.start.x < rows);
                }
            }
        }
        r
    }
}

/// A road may be built on `l`: it leaves an end of one of the player's
/// roads, along an edge, where no road is yet.
pub open spec fn road_candidate(v: &CatanView, l: Line) -> bool {
    &&& exists|m: Line| #[trigger] v@.roads.contains_key(m) && v@.roads[m] == v.me && (l.start == m.start || l.start == m.end)
    &&& neighbors_of(v, l.start).contains(Some(l.end))
    &&& !v@.roads.contains_key(l)
}

/// As `road_candidate`, for the roads among the first `t` of `pairs`, and
/// the slots of the first end of road `t` before `k0`, of its second end
/// before `k1`.
pub open spec fn road_candidate_upto(
    v: &CatanView,
    pairs: Seq<(Line, usize)>,
    l: Line,
    t: int,
    k0: int,
    k1: int,
) -> bool {
    &&& neighbors_of(v, l.start).contains(Some(l.end))
    &&& !v@.roads.contains_key(l)
    &&& {
        ||| exists|u: int| 0 <= u < t && (#[trigger] pairs[u]).1 == v.me && (l.start == pairs[u].0.start || l.start == pairs[u].0.end)
        ||| (t < pairs.len() && pairs[t].1 == v.me && l.start == pairs[t].0.start && exists|kk: int|
            0 <= kk < k0 && #[trigger] neighbors_of(v, l.start)[kk] == Some(l.end))
        ||| (t < pairs.len() && pairs[t].1 == v.me && l.start == pairs[t].0.end && exists|kk: int|
            0 <= kk < k1 && #[trigger] neighbors_of(v, l.start)[kk] == Some(l.end))
    }
}

impl CatanView {
    /// Adds to `r` the lines from `end` to the points joined to it where no
    /// road is yet.
    fn open_lines_from(&self, r: &mut Vec<Line>, end: Coordinate, Ghost(pairs): Ghost<Seq<(Line, usize)>>, Ghost(t): Ghost<int>, Ghost(first): Ghost<bool>)
        requires
            self.inner.wf(),
            old(r)@.no_duplicates(),
            0 <= t < pairs.len(),
            pairs[t].1 == self.me,
            end == (if first { pairs[t].0.start } else { pairs[t].0.end }),
            forall|l: Line| #[trigger] old(r)@.contains(l) <==> road_candidate_upto(self, pairs, l, t, if first { 0 } else { 3 }, 0),
        ensures
            final(r)@.no_duplicates(),
            forall|l: Line| #[trigger] final(r)@.contains(l) <==> road_candidate_upto(self, pairs, l, t, 3, if first { 0 } else { 3 }),
    {
        let around = self.inner.point_get_points(end);
        let mut k: usize = 0;
        while k < 3
            invariant
                self.inner.wf(),
                k <= 3,
                0 <= t < pairs.len(),
                pairs[t].1 == self.me,
                end == (if first { pairs[t].0.start } else { pairs[t].0.end }),
                around@ == neighbors_of(self, end),
                r@.no_duplicates(),
                forall|l: Line| #[trigger] r@.contains(l) <==> road_candidate_upto(
                    self,
                    pairs,
                    l,
                    t,
                    if first { k as int } else { 3 },
                    if first { 0 } else { k as int },
                ),
            decreases 3 - k,
        {
            if let Some(n) = around[k] {
                let road = Line::new(end, n);
                if self.inner.roads().get(road).is_none() {
                    add_line(r, road);
                }
            }
            proof {
                assert forall|l: Line| #[trigger] r@.contains(l) <==> road_candidate_upto(
                    self,
                    pairs,
                    l,
                    t,
                    if first { k as int + 1 } else { 3 },
                    if first { 0 } else { k as int + 1 },
                ) by {
                    if l.start == end && neighbors_of(self, end)[k as int] == Some(l.end) {
                        assert(neighbors_of(self, l.start).contains(Some(l.end)));
                    }
                    if exists|kk: int| 0 <= kk < k + 1 && #[trigger] neighbors_of(self, l.start)[kk] == Some(l.end) {
                        let kk = choose|kk: int| 0 <= kk < k + 1 && #[trigger] neighbors_of(self, l.start)[kk] == Some(l.end);
                        if kk < k {
                            assert(exists|kk2: int| 0 <= kk2 < k && #[trigger] neighbors_of(self, l.start)[kk2] == Some(l.end));
                        }
                    }
                }
            }
            k += 1;
        }
    }

    /// The lines on which the player may build a road (see
    /// `road_candidate`), each once: the screen finds the one clicked among
    /// them.
    pub fn buildable_roads(&self) -> (r: Vec<Line>)
        requires
            self.inner.wf(),
        ensures
            r@.no_duplicates(),
            forall|l: Line| #[trigger] r@.contains(l) <==> road_candidate(self, l),
    {
        let pairs = self.inner.roads().entries();
        let ghost ps = pairs@;
        let mut r: Vec<Line> = Vec::new();
        let mut t: usize = 0;
        while t < pairs.len()
            invariant
                self.inner.wf(),
                pairs@ == ps,
                keys_distinct(ps),
                lines_map(ps) == self@.roads,
                t <= ps.len(),
                r@.no_duplicates(),
                forall|l: Line| #[trigger] r@.contains(l) <==> road_candidate_upto(self, ps, l, t as int, 0, 0),
            decreases ps.len() - t,
        {
            let (line, owner) = pairs[t];
            if owner == self.me {
                self.open_lines_from(&mut r, line.start, Ghost(ps), Ghost(t as int), Ghost(true));
                self.open_lines_from(&mut r, line.end, Ghost(ps), Ghost(t as int), Ghost(false));
            }
            proof {
                assert forall|l: Line| #[trigger] r@.contains(l) <==> road_candidate_upto(self, ps, l, t as int + 1, 0, 0) by {
                    if road_candidate_upto(self, ps, l, t as int + 1, 0, 0) {
                        let u = choose|u: int| 0 <= u < t + 1 && (#[trigger] ps[u]).1 == self.me && (l.start == ps[u].0.start
                            || l.start == ps[u].0.end);
                        if u == t {
                            let kk = choose|kk: int| 0 <= kk < neighbors_of(self, l.start).len() && neighbors_of(self, l.start)[kk] == Some(l.end);
                            assert(neighbors_of(self, l.start)[kk] == Some(l.end));
                        }
                    }
                }
            }
            t += 1;
        }
        proof {
            assert forall|l: Line| #[trigger] r@.contains(l) <==> road_candidate(self, l) by {
                if road_candidate_upto(self, ps, l, ps.len() as int, 0, 0) {
                    let u = choose|u: int| 0 <= u < ps.len() && (#[trigger] ps[u]).1 == self.me && (l.start == ps[u].0.start
                        || l.start == ps[u].0.end);
                    lemma_lines_map_at(ps, u);
                    assert(self@.roads.contains_key(ps[u].0));
                }
                if road_candidate(self, l) {
                    let m = choose|m: Line| #[trigger] self@.roads.contains_key(m) && self@.roads[m] == self.me && (l.start == m.start
                        || l.start == m.end);
                    let u = choose|u: int| 0 <= u < ps.len() && #[trigger] ps[u].0 == m;
                    lemma_lines_map_at(ps, u);
                    assert((#[trigger] ps[u]).1 == self.me);
                }
            }
        }
        r
    }
}

impl CatanView {
    /// A click on the line `road` among the buildable ones (see
    /// `buildable_roads`): the road is asked for and paid for at once (a
    /// brick, a wood), and the screen turns to the menu.
    pub fn build_road_click(&mut self, road: Line) -> (a: Answer)
        requires
            old(self).me < old(self).players@.len(),
            held(old(self), TileKind::Brick) >= 1,
            held(old(self), TileKind::Wood) >= 1,
        ensures
            same_rest(final(self), old(self)),
            a == send(GameAct::BuildRoad(road), CatanState::Menu),
            final(self)@ == paid(
                old(self)@,
                spend(spend(old(self)@.players[old(self).me as int].resources, TileKind::Brick, 1), TileKind::Wood, 1),
            ),
    {
        let ghost v0 = self@;
        let me = self.me;
        self.players[me].resources[TileKind::Brick.to_index()] -= 1;
        self.players[me].resources[TileKind::Wood.to_index()] -= 1;
        assert(self@.players =~~= paid(
            v0,
            spend(spend(v0.players[me as int].resources, TileKind::Brick, 1), TileKind::Wood, 1),
        ).players);
        Answer { action: Some(GameAct::BuildRoad(road)), next_state: Some(CatanState::Menu), next_trade_state: None, next_card_state: None }
    }

    /// A click on the line `road` among those open during the setup (see
    /// `initable_roads`): the road is asked for and shown at once, on the
    /// board and among the player's roads, and the screen turns to waiting.
    pub fn init_road_click(&mut self, road: Line) -> (a: Answer)
        requires
            old(self).me < old(self).players@.len(),
        ensures
            same_rest(final(self), old(self)),
            a == send(GameAct::BuildRoad(road), CatanState::Wait),
            final(self)@ == (Picture {
                roads: old(self)@.roads.insert(road, old(self).me),
                players: old(self)@.players.update(
                    old(self).me as int,
                    Holding {
                        roads: old(self)@.players[old(self).me as int].roads.push(road),
                        ..old(self)@.players[old(self).me as int]
                    },
                ),
                ..old(self)@
            }),
    {
        let ghost v0 = self@;
        let me = self.me;
        self.inner.add_road(me, road);
        self.players[me].add_road(road);
        assert(self@.players =~~= v0.players.update(
            me as int,
            Holding { roads: v0.players[me as int].roads.push(road), ..v0.players[me as int] },
        ));
        Answer { action: Some(GameAct::BuildRoad(road)), next_state: Some(CatanState::Wait), next_trade_state: None, next_card_state: None }
    }
}

} // verus!
