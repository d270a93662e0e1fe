use crate::catan::element::{
    BuildCity, BuildRoad, BuildSettlement, BuyDevelopmentCard, CatanCommon, DevCard, DevelopmentCard, GameMsg,
    OfferResources, PlayerCommon, Point, SelectRobber, TileKind, Trade, UseDevelopmentCard, DEV_CARDS,
    TILE_KINDS,
};
pub use crate::catan::rules::GameUpdate;
use crate::catan::rules::{self, GameError, GameState, PlayerState};
use crate::catan::element::TradeTarget;
use crate::catan::data::{basic_board, lemma_basic_board_ok, CatanData, CatanDataSetup};
use crate::catan::element::lemma_valid_point_in_grid;
use crate::model::lines_map;
use crate::element::{Coordinate, Line};
use vstd::prelude::*;

verus! {

broadcast use {vstd::array::group_array_axioms, vstd::std_specs::hash::group_hash_axioms};

/// A seat at the table: whoever plays it (`inner`), what the board shows
/// of it, its knights played, and the messages for it alone.
pub struct Player<P> {
    pub inner: P,
    pub base: PlayerCommon,
    pub knight_count: usize,
    pub message: Vec<GameMsg>,
}

impl<P> Player<P> {
    pub open spec fn state(&self) -> PlayerState {
        PlayerState {
            score: self.base.score,
            resources: self.base.resources@,
            cards: self.base.cards@,
            roads: self.base.roads@,
            settlement_left: self.base.settlement_left,
            city_left: self.base.city_left,
            knight_count: self.knight_count,
            messages: self.message@,
        }
    }

    pub fn new(inner: P) -> (p: Self)
        ensures
            p.inner == inner,
            p.state() == (PlayerState {
                score: 0,
                resources: Seq::new(TILE_KINDS as nat, |i: int| 0usize),
                cards: Seq::new(DEV_CARDS as nat, |i: int| 0usize),
                roads: Seq::empty(),
                settlement_left: 5,
                city_left: 4,
                knight_count: 0,
                messages: Seq::empty(),
            }),
    {
        Player { inner, base: PlayerCommon::default(), knight_count: 0, message: Vec::new() }
    }
}

/// A game in progress.
pub struct Catan<P> {
    pub inner: CatanCommon,
    pub dev_cards: Vec<DevCard>,
    pub players: Vec<Player<P>>,
    pub is_initialized: bool,
    pub longest_road: Option<(usize, usize)>,
    pub most_knights: Option<(usize, usize)>,
    pub broadcast: Vec<GameMsg>,
    pub current_player: usize,
    pub win_score: usize,
}

impl<P> View for Catan<P> {
    type V = GameState;

    open spec fn view(&self) -> GameState {
        GameState {
            tiles: self.inner.tile_grid(),
            points: self.inner.point_grid(),
            roads: self.inner.road_map(),
            harbors: self.inner.harbor_list(),
            robber: self.inner.robber_at(),
            dice: self.inner.dice(),
            dev_cards: self.dev_cards@,
            players: Seq::new(self.players@.len(), |i: int| self.players@[i].state()),
            is_initialized: self.is_initialized,
            longest_road: self.longest_road,
            most_knights: self.most_knights,
            broadcast: self.broadcast@,
            current_player: self.current_player,
            win_score: self.win_score,
        }
    }
}

impl<P> Catan<P> {
    /// The state of a fresh player.
    pub open spec fn fresh_player() -> PlayerState {
        PlayerState {
            score: 0,
            resources: Seq::new(TILE_KINDS as nat, |i: int| 0usize),
            cards: Seq::new(DEV_CARDS as nat, |i: int| 0usize),
            roads: Seq::empty(),
            settlement_left: 5,
            city_left: 4,
            knight_count: 0,
            messages: Seq::empty(),
        }
    }

    /// A game on a basic board (see `basic_board`): the players, in order,
    /// fresh; no roads, setup not done, no titles, nothing told, the first
    /// player to move, ten points to win.
    pub fn new(players: Vec<P>, setup: CatanDataSetup) -> (game: Self)
        ensures
            game.wf(),
            game.players@.len() == players@.len(),
            forall|i: int| 0 <= i < players@.len() ==> #[trigger] game.players@[i].inner == players@[i],
            game@.players == Seq::new(players@.len(), |i: int| Self::fresh_player()),
            game@.roads == Map::<Line, usize>::empty(),
            basic_board(game@.tiles, game@.points, game@.harbors, game@.robber, game@.dice, game@.dev_cards),
            !game.is_initialized,
            game.longest_road is None,
            game.most_knights is None,
            game@.broadcast == Seq::<GameMsg>::empty(),
            game.current_player == 0,
            game.win_score == 10,
    {
        let data = CatanData::new(setup);
        let ghost d = data;
        let mut players = players;
        let ghost given = players@;
        let mut seats: Vec<Player<P>> = Vec::new();
        while players.len() > 0
            invariant
                seats@.len() + players@.len() == given.len(),
                players@ == given.subrange(seats@.len() as int, given.len() as int),
                forall|i: int| 0 <= i < seats@.len() ==> #[trigger] seats@[i].inner == given[i],
                forall|i: int| 0 <= i < seats@.len() ==> #[trigger] seats@[i].state() == Self::fresh_player(),
            decreases players@.len(),
        {
            let p = players.remove(0);
            seats.push(Player::new(p));
            assert(players@ =~= given.subrange(seats@.len() as int, given.len() as int));
        }
        let game = Catan {
            dev_cards: data.dev_cards,
            inner: CatanCommon::new(
                data.tiles,
                data.points,
                Vec::new(),
                data.harbors,
                data.dics_map,
                data.robber,
            ),
            win_score: data.winscore as usize,
            players: seats,
            current_player: 0,
            is_initialized: false,
            longest_road: None,
            most_knights: None,
            broadcast: Vec::new(),
        };
        proof {
            lemma_basic_board_ok(d, game@);
            assert(game@.players =~= Seq::new(given.len(), |i: int| Self::fresh_player()));
            assert(lines_map(Seq::<(Line, usize)>::empty()) =~= Map::<Line, usize>::empty());
        }
        game
    }

    /// The board is well formed.
    pub open spec fn wf(&self) -> bool {
        self.inner.wf() && rules::board_ok(self@)
    }

    /// The same people sit at the same seats.
    pub open spec fn same_people(&self, other: &Self) -> bool {
        &&& self.players@.len() == other.players@.len()
        &&& forall|i: int| 0 <= i < self.players@.len() ==> #[trigger] self.players@[i].inner == other.players@[i].inner
    }

    /// The same people sit at the same seats, and it is the same one's
    /// turn.
    pub open spec fn same_seats(&self, other: &Self) -> bool {
        &&& self.current_player == other.current_player
        &&& self.same_people(other)
    }

    fn build_road(&mut self, build: BuildRoad) -> (r: Result<(), GameError>)
        requires
            old(self).wf(),
            build.player < old(self).players.len(),
        ensures
            (final(self)@, r) == rules::build_road(old(self)@, build),
            final(self).wf(),
            final(self).same_seats(old(self)),
    {
        let p = build.player;
        if !self.inner.point_valid(build.road.start) || !self.inner.point_valid(build.road.end) {
            return Err(GameError::InvalidRoadPosition);
        }
        if self.players[p].base.roads.len() >= 15 {
            return Err(GameError::RoadLimitReached);
        }
        if self.is_initialized {
            if self.players[p].base.resources[TileKind::Brick.to_index()] < 1
                || self.players[p].base.resources[TileKind::Wood.to_index()] < 1 {
                return Err(GameError::NotEnoughResources);
            } else {
                self.players[p].base.resources[TileKind::Brick.to_index()] -= 1;
                self.players[p].base.resources[TileKind::Wood.to_index()] -= 1;
            }
        }
        let ghost s1 = self@;
        if self.is_initialized && !self.players[p].base.have_roads_to(build.road.start)
            && !self.players[p].base.have_roads_to(build.road.end) {
            assert(self@ =~= rules::build_road(old(self)@, build).0);
            proof {
                rules::lemma_board_ok_frame(old(self)@, self@);
            }
            return Err(GameError::NoRoadTo(build.road));
        }
        self.players[p].base.add_road(build.road);
        match self.inner.add_road(build.player, build.road) {
            Some(_) => {
                assert(self@ =~= rules::build_road(old(self)@, build).0);
                proof {
                    rules::lemma_board_ok_frame(old(self)@, self@);
                }
                Err(GameError::RoadAlreadyExists)
            },
            None => {
                self.broadcast.push(GameMsg::PlayerBuildRoad(build));
                assert(self@ =~= rules::build_road(old(self)@, build).0);
                proof {
                    rules::lemma_board_ok_frame(old(self)@, self@);
                }
                Ok(())
            },
        }
    }

    /// Whether a neighbour of the point `c` has an owner.
    fn neighbor_owned(&self, c: Coordinate) -> (r: bool)
        requires
            self.wf(),
            crate::catan::element::in_grid(self@.points, c),
        ensures
            r == rules::neighbor_owned(self@, c),
    {
        let points = self.inner.point_get_points(c);
        let ghost nb = crate::geometry::point_neighbors(
            c,
            self@.points.len(),
            self@.points[0].len(),
        );
        let mut count: usize = 0;
        let mut i: usize = 0;
        while i < 3
            invariant
                self.wf(),
                crate::catan::element::in_grid(self@.points, c),
                i <= 3,
                count <= i,
                points@ == nb,
                nb == crate::geometry::point_neighbors(c, self@.points.len(), self@.points[0].len()),
                (count > 0) == exists|k: int|
                    0 <= k < i && (#[trigger] nb[k]) is Some && rules::point_of(self@, nb[k]->0).owner is Some,
            decreases 3 - i,
        {
            if let Some(q) = points[i] {
                assert(nb[i as int] == Some(q));
                assert(q.x < self@.points.len() && q.y < self@.points[0].len());
                assert(self@.points[q.x as int].len() == self@.points[0].len());
                if self.inner.point(q).is_owned() {
                    count += 1;
                }
            }
            i += 1;
        }
        count > 0
    }

    fn build_settlement(&mut self, build: BuildSettlement) -> (r: Result<(), GameError>)
        requires
            old(self).wf(),
            build.player < old(self).players.len(),
            old(self).players@[build.player as int].base.score < usize::MAX,
        ensures
            (final(self)@, r) == rules::build_settlement(old(self)@, build),
            final(self).wf(),
            final(self).same_seats(old(self)),
    {
        let p = build.player;
        if !self.inner.point_valid(build.point) {
            return Err(GameError::InvalidSettlementPosition);
        }
        if self.players[p].base.settlement_left == 0 {
            return Err(GameError::SettlementLimitReached);
        }
        proof {
            lemma_valid_point_in_grid(self@.tiles, self@.points, build.point);
        }
        match self.inner.point(build.point).owner() {
            Some(_) => {
                return Err(GameError::PointAlreadyOwned);
            },
            None => {
                if self.neighbor_owned(build.point) {
                    return Err(GameError::AdjacentPointOwned);
                }
                if self.is_initialized && !self.players[p].base.have_roads_to(build.point) {
                    return Err(GameError::NoRoadToPoint(build.point));
                }
                if self.is_initialized {
                    if self.players[p].base.resources[TileKind::Brick.to_index()] < 1
                        || self.players[p].base.resources[TileKind::Grain.to_index()] < 1
                        || self.players[p].base.resources[TileKind::Wool.to_index()] < 1
                        || self.players[p].base.resources[TileKind::Wood.to_index()] < 1 {
                        return Err(GameError::NotEnoughResources);
                    } else {
                        self.players[p].base.resources[TileKind::Brick.to_index()] -= 1;
                        self.players[p].base.resources[TileKind::Grain.to_index()] -= 1;
                        self.players[p].base.resources[TileKind::Wool.to_index()] -= 1;
                        self.players[p].base.resources[TileKind::Wood.to_index()] -= 1;
                    }
                }
                self.inner.add_settlement(build.player, build.point);
                self.players[p].base.score += 1;
                self.players[p].base.settlement_left -= 1;
                self.broadcast.push(GameMsg::PlayerBuildSettlement(build));
                assert(self@ =~= rules::build_settlement(old(self)@, build).0);
                proof {
                    rules::lemma_board_ok_point(
                        old(self)@,
                        self@,
                        build.point,
                        Point { owner: Some(build.player), city: old(self).inner.point_at(build.point).city },
                    );
                }
                Ok(())
            },
        }
    }

    fn build_city(&mut self, build: BuildCity) -> (r: Result<(), GameError>)
        requires
            old(self).wf(),
            build.player < old(self).players.len(),
            old(self).players@[build.player as int].base.score < usize::MAX,
            old(self).players@[build.player as int].base.settlement_left < usize::MAX,
        ensures
            (final(self)@, r) == rules::build_city(old(self)@, build),
            final(self).wf(),
            final(self).same_seats(old(self)),
    {
        let p = build.player;
        if !self.inner.point_valid(build.point) {
            return Err(GameError::InvalidCityPosition);
        }
        if self.players[p].base.city_left == 0 {
            return Err(GameError::CityLimitReached);
        }
        proof {
            lemma_valid_point_in_grid(self@.tiles, self@.points, build.point);
        }
        match self.inner.point(build.point).owner() {
            Some(owner) => {
                if self.players[p].base.resources[TileKind::Stone.to_index()] < 3
                    || self.players[p].base.resources[TileKind::Grain.to_index()] < 2 {
                    return Err(GameError::NotEnoughResources);
                }
                if owner != build.player {
                    return Err(GameError::PointNotOwnedByPlayer);
                }
                self.inner.add_city(build.player, build.point);
                self.players[p].base.resources[TileKind::Stone.to_index()] -= 3;
                self.players[p].base.resources[TileKind::Grain.to_index()] -= 2;
                self.players[p].base.score += 1;
            },
            None => {
                return Err(GameError::PointNotOwned);
            },
        }
        self.players[p].base.city_left -= 1;
        self.players[p].base.settlement_left += 1;
        self.broadcast.push(GameMsg::PlayerBuildCity(build));
        assert(self@ =~= rules::build_city(old(self)@, build).0);
        proof {
            rules::lemma_board_ok_point(
                old(self)@,
                self@,
                build.point,
                Point { owner: Some(build.player), city: true },
            );
        }
        Ok(())
    }

    fn offer_resources(&mut self, offer: OfferResources)
        requires
            old(self).wf(),
            rules::offer_ok(old(self)@, offer),
        ensures
            final(self)@ == rules::offer_resources(old(self)@, offer),
            final(self).wf(),
            final(self).same_seats(old(self)),
    {
        let p = offer.player;
        let k = offer.kind.to_index();
        let r = self.players[p].base.resources[k];
        let v: isize = (r as isize + offer.count).min(0).max(20);
        self.players[p].base.resources[k] = v as usize;
        self.broadcast.push(GameMsg::PlayerOfferResources(offer));
        assert(self@ =~= rules::offer_resources(old(self)@, offer));
        proof {
            rules::lemma_board_ok_frame(old(self)@, self@);
        }
    }

    fn buy_development_card(&mut self, buy: BuyDevelopmentCard) -> (r: Result<(), GameError>)
        requires
            old(self).wf(),
            buy.player < old(self).players.len(),
            old(self).dev_cards.len() > 0 ==> old(self).dev_cards@.last() != DevCard::Max
                && old(self).players@[buy.player as int].base.cards[old(self).dev_cards@.last().id()]
                < usize::MAX,
        ensures
            (final(self)@, r) == rules::buy_development_card(old(self)@, buy),
            final(self).wf(),
            final(self).same_seats(old(self)),
    {
        let mut told = buy;
        let p = buy.player;
        if self.players[p].base.resources[TileKind::Grain.to_index()] < 1
            || self.players[p].base.resources[TileKind::Wool.to_index()] < 1
            || self.players[p].base.resources[TileKind::Stone.to_index()] < 1 {
            return Err(GameError::NotEnoughResources);
        }
        self.players[p].base.resources[TileKind::Grain.to_index()] -= 1;
        self.players[p].base.resources[TileKind::Wool.to_index()] -= 1;
        self.players[p].base.resources[TileKind::Stone.to_index()] -= 1;
        match self.dev_cards.pop() {
            Some(card) => {
                self.players[p].base.cards[card.to_index()] += 1;
                self.broadcast.push(GameMsg::PlayerBuyDevelopmentCard(buy));
                told.card = Some(card);
                self.players[p].message.push(GameMsg::PlayerBuyDevelopmentCard(told));
            },
            None => {},
        }
        assert(self@ =~= rules::buy_development_card(old(self)@, buy).0);
        proof {
            rules::lemma_board_ok_frame(old(self)@, self@);
        }
        Ok(())
    }

    fn select_robber(&mut self, select_robber: SelectRobber, roll: usize) -> (r: Option<
        Result<(), GameError>,
    >)
        requires
            old(self).wf(),
            old(self).inner.in_tiles(select_robber.coord),
            select_robber.player < old(self).players.len(),
            select_robber.target matches Some(t) ==> t < old(self).players.len(),
        ensures
            r is None <==> rules::select_robber(old(self)@, select_robber, roll) is None,
            r matches Some(e) ==> rules::select_robber(old(self)@, select_robber, roll) == Some(
                (final(self)@, e),
            ),
            final(self).wf(),
            final(self).same_seats(old(self)),
    {
        if self.inner.tile(select_robber.coord).is_empty() {
            return Some(Err(GameError::InvalidRobberPosition));
        }
        let ghost s0 = self@;
        assert(rules::tile_of(s0, select_robber.coord) == self.inner.tile_at(select_robber.coord));
        if let Some(target) = select_robber.target {
            let points = self.inner.tile_get_points(select_robber.coord);
            let ghost corners = crate::geometry::tile_corners(select_robber.coord);
            let mut k: usize = 0;
            while k < 6
                invariant
                    self@ == s0,
                    s0 == old(self)@,
                    self.wf(),
                    self.same_seats(old(self)),
                    rules::tile_of(s0, select_robber.coord).kind_of() != TileKind::Empty,
                    select_robber.target == Some(target),
                    select_robber.player < old(self).players.len(),
                    target < old(self).players.len(),
                    k <= 6,
                    points@ == corners,
                    corners == crate::geometry::tile_corners(select_robber.coord),
                    forall|j: int| 0 <= j < 6 ==> crate::catan::element::in_grid(s0.points, #[trigger] corners[j]),
                    forall|j: int|
                        0 <= j < k ==> rules::point_of(s0, #[trigger] corners[j]).owner != Some(target),
                decreases 6 - k,
            {
                let point = self.inner.point(points[k]);
                if point.is_owned() && point.owner().unwrap() == target {
                    assert(rules::owns_corner(s0, select_robber.coord, target));
                    let ghost res_t = self@.players[target as int].resources;
                    let mut available: Vec<usize> = Vec::new();
                    let mut i: usize = 0;
                    while i < TILE_KINDS
                        invariant
                            self@ == s0,
                            i <= TILE_KINDS,
                            target < self.players.len(),
                            res_t == self@.players[target as int].resources,
                            res_t.len() == TILE_KINDS,
                            available@ == rules::available(res_t.subrange(0, i as int)),
                        decreases TILE_KINDS - i,
                    {
                        assert(res_t.subrange(0, i as int + 1).drop_last() =~= res_t.subrange(0, i as int));
                        if self.players[target].base.resources[i] > 0 {
                            available.push(i);
                        }
                        i += 1;
                    }
                    assert(res_t.subrange(0, TILE_KINDS as int) =~= res_t);
                    if available.len() > 0 {
                        proof {
                            rules::lemma_available_bound(res_t);
                        }
                        let idx = available[roll % available.len()];
                        let kind = TileKind::try_from(idx as u8).unwrap();
                        assert(kind.id() == idx as int);
                        let taken = OfferResources { player: target, count: -1, kind };
                        if !self.offer_ok(taken) {
                            return None;
                        }
                        self.offer_resources(taken);
                        let given = OfferResources { player: select_robber.player, count: 1, kind };
                        if !self.offer_ok(given) {
                            return None;
                        }
                        self.offer_resources(given);
                    } else {
                        assert(self@ == s0);
                        assert(rules::available(s0.players[target as int].resources).len() == 0);
                        assert(rules::tile_of(s0, select_robber.coord).kind_of() != TileKind::Empty);
                        assert(rules::select_robber(s0, select_robber, roll) == Some((s0, Err::<(), GameError>(GameError::NoResourceToSteal))));
                        return Some(Err(GameError::NoResourceToSteal));
                    }
                    self.inner.set_robber(select_robber.coord);
                    self.broadcast.push(GameMsg::PlayerSelectRobber(select_robber));
                    assert(self@ =~= (rules::select_robber(s0, select_robber, roll)->0).0);
                    proof {
                        rules::lemma_board_ok_frame(s0, self@);
                    }
                    return Some(Ok(()));
                }
                k += 1;
            }
            assert(!rules::owns_corner(s0, select_robber.coord, target));
            Some(Err(GameError::InvalidStealTarget))
        } else {
            self.inner.set_robber(select_robber.coord);
            self.broadcast.push(GameMsg::PlayerSelectRobber(select_robber));
            assert(self@ =~= (rules::select_robber(s0, select_robber, roll)->0).0);
            proof {
                rules::lemma_board_ok_frame(s0, self@);
            }
            Some(Ok(()))
        }
    }

    /// Pays a roll of `dice` (see `rules::hit_dice`); `false` where an offer
    /// cannot be computed, the game then left part way.
    fn hit_dice(&mut self, dice: usize) -> (paid: bool)
        requires
            old(self).wf(),
            old(self).inner.dice().contains_key(dice),
        ensures
            paid <==> rules::hit_dice(old(self)@, dice) is Some,
            paid ==> rules::hit_dice(old(self)@, dice) == Some(final(self)@),
            final(self).wf(),
            final(self).same_seats(old(self)),
    {
        let ghost s0 = self@;
        let tiles: Vec<Coordinate> = self.inner.dice_map().get(&dice).unwrap().clone();
        assert(tiles@ =~= s0.dice[dice]@);
        let mut i: usize = 0;
        while i < tiles.len()
            invariant
                i <= tiles.len(),
                tiles@ == s0.dice[dice]@,
                s0.dice.contains_key(dice),
                s0 == old(self)@,
                self.wf(),
                self.same_seats(old(self)),
                self@.dice == s0.dice,
                rules::hit_tiles(s0, tiles@.take(i as int)) == Some(self@),
            decreases tiles.len() - i,
        {
            let ghost si = self@;
            assert(tiles@.take(i as int + 1).drop_last() =~= tiles@.take(i as int));
            let c = tiles[i];
            assert(self@.dice.contains_key(dice));
            assert(c == self@.dice[dice]@[i as int]);
            assert(crate::catan::element::in_grid(self@.tiles, c));
            let tile = *self.inner.tile(c);
            let kind = tile.kind();
            assert(rules::tile_of(si, c) == tile);
            if !tile.is_empty() && c != self.inner.robber() {
                let points = self.inner.tile_get_points(c);
                let ghost corners = crate::geometry::tile_corners(c);
                let mut k: usize = 0;
                while k < 6
                    invariant
                        k <= 6,
                        points@ == corners,
                        corners == crate::geometry::tile_corners(c),
                        kind == tile.kind_of(),
                        kind != TileKind::Max,
                        self.wf(),
                        self.same_seats(old(self)),
                        self@.points == si.points,
                        self@.dice == s0.dice,
                        forall|j: int| 0 <= j < 6 ==> crate::catan::element::in_grid(si.points, #[trigger] corners[j]),
                        rules::hit_corners(si, corners.take(k as int), kind) == Some(self@),
                        i < tiles@.len(),
                        rules::hit_tiles(s0, tiles@.take(i as int)) == Some(si),
                        tiles@.take(i as int + 1).drop_last() == tiles@.take(i as int),
                        tiles@.take(i as int + 1).last() == c,
                        tiles@ == s0.dice[dice]@,
                        s0 == old(self)@,
                        rules::tile_of(si, c) == tile,
                        tile.kind_of() != TileKind::Empty && c != si.robber,
                    decreases 6 - k,
                {
                    assert(corners.take(k as int + 1).drop_last() =~= corners.take(k as int));
                    let pt = self.inner.point(points[k]);
                    if pt.is_owned() {
                        let o = pt.owner().unwrap();
                        assert(o < self.players.len());
                        let count: isize = if pt.city {
                            2
                        } else {
                            1
                        };
                        let offer = OfferResources { player: o, count, kind };
                        assert(offer == rules::corner_offer(pt, o, kind));
                        if !self.offer_ok(offer) {
                            proof {
                                assert(pt == rules::point_of(self@, corners.take(k as int + 1).last()));
                                assert(rules::hit_corners(si, corners.take(k as int + 1), kind) is None);
                                rules::lemma_hit_corners_stops(si, corners, kind, k as int + 1);
                                assert(rules::hit_corners(si, crate::geometry::tile_corners(c), rules::tile_of(si, c).kind_of()) is None);
                                assert(rules::hit_tiles(s0, tiles@.take(i as int + 1)) is None);
                                rules::lemma_hit_tiles_stops(s0, tiles@, i as int + 1);
                            }
                            return false;
                        }
                        self.offer_resources(offer);
                    }
                    k += 1;
                }
                assert(corners.take(6) =~= corners);
            }
            i += 1;
        }
        assert(tiles@.take(tiles@.len() as int) =~= tiles@);
        true
    }

    /// Whether the longest road title can be checked (see
    /// `rules::longest_road_fits`).
    pub fn longest_road_fits(&self) -> (b: bool)
        ensures
            b == rules::longest_road_fits(self@),
    {
        let cur = self.current_player;
        if cur >= self.players.len() {
            return false;
        }
        let lr = self.players[cur].base.get_longest_road();
        if lr < 5 {
            return true;
        }
        match self.longest_road {
            Some((q, l)) => {
                if l >= lr {
                    return true;
                }
                if q >= self.players.len() || self.players[q].base.score < 2 {
                    return false;
                }
                if q == cur {
                    true
                } else {
                    self.players[cur].base.score <= usize::MAX - 2
                }
            },
            None => self.players[cur].base.score <= usize::MAX - 2,
        }
    }

    /// The current player's longest road of five or more takes the title
    /// (see `rules::check_longest_road`).
    pub fn check_longest_road(&mut self)
        requires
            old(self).wf(),
            rules::longest_road_fits(old(self)@),
        ensures
            final(self)@ == rules::check_longest_road(old(self)@),
            final(self).wf(),
            final(self).same_seats(old(self)),
    {
        let cur = self.current_player;
        let longest_road = self.players[cur].base.get_longest_road();
        if longest_road >= 5 {
            if let Some((player, length)) = self.longest_road {
                if length < longest_road {
                    self.longest_road = Some((cur, longest_road));
                    self.players[player].base.score -= 2;
                    self.players[cur].base.score += 2;
                }
            } else {
                self.longest_road = Some((cur, longest_road));
                self.players[cur].base.score += 2;
            }
        }
        assert(self@ =~= rules::check_longest_road(old(self)@));
        proof {
            rules::lemma_board_ok_frame(old(self)@, self@);
        }
    }

    pub fn check_winner(&self) -> (w: Option<usize>)
        ensures
            w == rules::winner(self@),
    {
        let mut i: usize = 0;
        while i < self.players.len()
            invariant
                i <= self.players.len(),
                forall|j: int| 0 <= j < i ==> #[trigger] self@.players[j].score <= self.win_score,
            decreases self.players.len() - i,
        {
            if self.players[i].base.score > self.win_score {
                assert(self@.players[i as int].score > self@.win_score);
                return Some(i);
            }
            i += 1;
        }
        None
    }

    fn do_player_trade(&mut self, trade: &Trade) -> (r: Option<Result<(), GameError>>)
        requires
            old(self).wf(),
            trade.from < old(self).players.len(),
            trade.to < old(self).players.len(),
        ensures
            r is None <==> rules::do_player_trade(old(self)@, *trade) is None,
            r matches Some(e) ==> rules::do_player_trade(old(self)@, *trade) == Some((final(self)@, e))
                && final(self).wf(),
            final(self).same_seats(old(self)),
    {
        let ghost s0 = self@;
        let from = trade.request.from();
        let to = trade.request.to();
        let ghost rf = s0.players[trade.from as int].resources;
        let ghost rt = s0.players[trade.to as int].resources;
        let mut i: usize = 0;
        while i < from.len()
            invariant
                i <= from.len(),
                self@ == s0,
                s0 == old(self)@,
                self.wf(),
                self.same_seats(old(self)),
                trade.from < self.players.len(),
                rf == s0.players[trade.from as int].resources,
                from@ == trade.request.offered(),
                rules::covers(rf, from@.take(i as int)) == Some(true),
            decreases from.len() - i,
        {
            proof {
                assert(from@.take(i as int + 1).drop_last() =~= from@.take(i as int));
                rules::lemma_covers_prefix(rf, from@, i as int + 1);
            }
            let (kind, count) = from[i];
            if kind.to_index() >= TILE_KINDS {
                return None;
            }
            if self.players[trade.from].base.resources[kind.to_index()] < count {
                return Some(Err(GameError::PlayerLacksResources(trade.from)));
            }
            i += 1;
        }
        assert(from@.take(from@.len() as int) =~= from@);
        let mut i: usize = 0;
        while i < to.len()
            invariant
                i <= to.len(),
                self@ == s0,
                s0 == old(self)@,
                self.wf(),
                self.same_seats(old(self)),
                rules::covers(rf, from@) == Some(true),
                rf == s0.players[trade.from as int].resources,
                from@ == trade.request.offered(),
                trade.to < self.players.len(),
                rt == s0.players[trade.to as int].resources,
                to@ == trade.request.wanted(),
                rules::covers(rt, to@.take(i as int)) == Some(true),
            decreases to.len() - i,
        {
            proof {
                assert(to@.take(i as int + 1).drop_last() =~= to@.take(i as int));
                rules::lemma_covers_prefix(rt, to@, i as int + 1);
            }
            let (kind, count) = to[i];
            if kind.to_index() >= TILE_KINDS {
                return None;
            }
            if self.players[trade.to].base.resources[kind.to_index()] < count {
                return Some(Err(GameError::PlayerLacksResources(trade.to)));
            }
            i += 1;
        }
        assert(to@.take(to@.len() as int) =~= to@);
        let ghost q0 = rules::shift(s0.players, trade.from as int, trade.to as int, from@, true);
        let mut i: usize = 0;
        while i < from.len()
            invariant
                i <= from.len(),
                trade.from < self.players.len(),
                trade.to < self.players.len(),
                from@ == trade.request.offered(),
                q0 == rules::shift(s0.players, trade.from as int, trade.to as int, from@, true),
                rules::covers(rf, from@) == Some(true),
                rules::covers(rt, to@) == Some(true),
                rf == s0.players[trade.from as int].resources,
                rt == s0.players[trade.to as int].resources,
                to@ == trade.request.wanted(),
                rules::shift(s0.players, trade.from as int, trade.to as int, from@.take(i as int), true)
                    == Some(self@.players),
                self@ == (GameState { players: self@.players, ..s0 }),
                self.same_seats(old(self)),
                s0 == old(self)@,
            decreases from.len() - i,
        {
            proof {
                assert(from@.take(i as int + 1).drop_last() =~= from@.take(i as int));
                rules::lemma_shift_prefix(s0.players, trade.from as int, trade.to as int, from@, true, i as int + 1);
            }
            let (kind, count) = from[i];
            let k = kind.to_index();
            if k >= TILE_KINDS || self.players[trade.from].base.resources[k] < count {
                return None;
            }
            self.players[trade.from].base.resources[k] -= count;
            if self.players[trade.to].base.resources[k] > usize::MAX - count {
                return None;
            }
            self.players[trade.to].base.resources[k] += count;
            i += 1;
            assert(self@ =~= (GameState { players: self@.players, ..s0 }));
        }
        assert(from@.take(from@.len() as int) =~= from@);
        let ghost q = q0->0;
        let mut i: usize = 0;
        while i < to.len()
            invariant
                i <= to.len(),
                trade.from < self.players.len(),
                trade.to < self.players.len(),
                to@ == trade.request.wanted(),
                from@ == trade.request.offered(),
                q0 == Some(q),
                q0 == rules::shift(s0.players, trade.from as int, trade.to as int, from@, true),
                rules::covers(rf, from@) == Some(true),
                rules::covers(rt, to@) == Some(true),
                rf == s0.players[trade.from as int].resources,
                rt == s0.players[trade.to as int].resources,
                rules::shift(q, trade.to as int, trade.from as int, to@.take(i as int), false)
                    == Some(self@.players),
                self@ == (GameState { players: self@.players, ..s0 }),
                self.same_seats(old(self)),
                s0 == old(self)@,
            decreases to.len() - i,
        {
            proof {
                assert(to@.take(i as int + 1).drop_last() =~= to@.take(i as int));
                rules::lemma_shift_prefix(q, trade.to as int, trade.from as int, to@, false, i as int + 1);
            }
            let (kind, count) = to[i];
            let k = kind.to_index();
            if k >= TILE_KINDS || self.players[trade.from].base.resources[k] > usize::MAX - count {
                return None;
            }
            self.players[trade.from].base.resources[k] += count;
            if self.players[trade.to].base.resources[k] < count {
                return None;
            }
            self.players[trade.to].base.resources[k] -= count;
            i += 1;
            assert(self@ =~= (GameState { players: self@.players, ..s0 }));
        }
        assert(to@.take(to@.len() as int) =~= to@);
        proof {
            rules::lemma_board_ok_frame(s0, self@);
        }
        Some(Ok(()))
    }

    /// Plays a knight for player `p` (see `rules::play_knight`); `None`
    /// where that stops, the game then left part way.
    fn play_knight(&mut self, p: usize, select_robber: SelectRobber, roll: usize) -> (r: Option<
        Result<(), GameError>,
    >)
        requires
            old(self).wf(),
            p < old(self).players.len(),
        ensures
            r is None <==> rules::play_knight(old(self)@, p as int, select_robber, roll) is None,
            r matches Some(e) ==> rules::play_knight(old(self)@, p as int, select_robber, roll) == Some(
                (final(self)@, e),
            ) && final(self).wf(),
            final(self).same_seats(old(self)),
    {
        let ghost s0 = self@;
        if !self.select_robber_ok(select_robber) {
            return None;
        }
        match self.select_robber(select_robber, roll) {
            None => {
                return None;
            },
            Some(Err(e)) => {
                return Some(Err(e));
            },
            Some(Ok(())) => {},
        }
        let ghost s1 = self@;
        if self.players[p].knight_count == usize::MAX {
            return None;
        }
        self.players[p].knight_count += 1;
        let kc = self.players[p].knight_count;
        if kc >= 3 {
            if let Some((player, knights)) = self.most_knights {
                if knights < kc {
                    if player >= self.players.len() || self.players[player].base.score < 2 {
                        return None;
                    }
                    self.most_knights = Some((p, kc));
                    self.players[player].base.score -= 2;
                    if self.players[p].base.score > usize::MAX - 2 {
                        return None;
                    }
                    self.players[p].base.score += 2;
                }
            } else {
                if self.players[p].base.score > usize::MAX - 2 {
                    return None;
                }
                self.most_knights = Some((p, kc));
                self.players[p].base.score += 2;
            }
        }
        assert(self@ =~= (rules::play_knight(s0, p as int, select_robber, roll)->0).0);
        proof {
            rules::lemma_board_ok_frame(s1, self@);
        }
        Some(Ok(()))
    }

    /// Plays road building for player `p` (see
    /// `rules::play_road_building`); `false` where that stops, the game then
    /// left part way.
    fn play_road_building(&mut self, p: usize, roads: [Line; 2]) -> (ok: bool)
        requires
            old(self).wf(),
            p < old(self).players.len(),
        ensures
            ok == rules::play_road_building(old(self)@, p as int, roads) is Some,
            ok ==> Some(final(self)@) == rules::play_road_building(old(self)@, p as int, roads)
                && final(self).wf(),
            final(self).same_seats(old(self)),
    {
        let ghost s0 = self@;
        let brick = TileKind::Brick.to_index();
        let wood = TileKind::Wood.to_index();
        if self.players[p].base.resources[brick] == usize::MAX || self.players[p].base.resources[wood]
            == usize::MAX {
            return false;
        }
        self.players[p].base.resources[brick] += 1;
        self.players[p].base.resources[wood] += 1;
        assert(self@ =~= rules::with_player(
            s0,
            p as int,
            rules::add_res(rules::add_res(s0.players[p as int], TileKind::Brick, 1), TileKind::Wood, 1),
        ));
        proof {
            rules::lemma_board_ok_frame(s0, self@);
        }
        if self.build_road(BuildRoad { player: p, road: roads[0] }).is_err() {
            return false;
        }
        let ghost s2 = self@;
        if self.players[p].base.resources[brick] == usize::MAX || self.players[p].base.resources[wood]
            == usize::MAX {
            return false;
        }
        self.players[p].base.resources[brick] += 1;
        self.players[p].base.resources[wood] += 1;
        assert(self@ =~= rules::with_player(
            s2,
            p as int,
            rules::add_res(rules::add_res(s2.players[p as int], TileKind::Brick, 1), TileKind::Wood, 1),
        ));
        proof {
            rules::lemma_board_ok_frame(s2, self@);
        }
        self.build_road(BuildRoad { player: p, road: roads[1] }).is_ok()
    }

    /// Whether monopoly can be played for player `p` on `kind` (see
    /// `rules::play_monopoly`).
    fn monopoly_fits(&self, p: usize, kind: TileKind) -> (b: bool)
        requires
            p < self.players.len(),
        ensures
            b == rules::play_monopoly(self@, p as int, kind) is Some,
    {
        let ghost s0 = self@;
        let k = kind.to_index();
        if k >= TILE_KINDS {
            return false;
        }
        let n = self.players.len();
        let mut count: usize = 0;
        let mut i: usize = 0;
        while i < n
            invariant
                n == self.players.len(),
                n == s0.players.len(),
                s0 == self@,
                i <= n,
                k < 7,
                p < n,
                k == kind.id(),
                count == rules::others_total(s0.players.take(i as int), p as int, k as int),
            decreases n - i,
        {
            proof {
                assert(s0.players.take(i as int + 1).drop_last() =~= s0.players.take(i as int));
                rules::lemma_others_total_prefix(s0.players, p as int, k as int, i as int + 1);
            }
            assert(s0.players.take(i as int + 1).last() == s0.players[i as int]);
            assert(self.players[i as int].base.resources[k as int] == s0.players[i as int].resources[k as int]);
            if i != p {
                if count > usize::MAX - self.players[i].base.resources[k] {
                    assert(rules::others_total(s0.players.take(i as int + 1), p as int, k as int) > usize::MAX);
                    return false;
                }
                count += self.players[i].base.resources[k];
            }
            i += 1;
        }
        assert(s0.players.take(n as int) =~= s0.players);
        self.players[p].base.resources[k] <= usize::MAX - count
    }

    fn play_monopoly(&mut self, p: usize, kind: TileKind)
        requires
            old(self).wf(),
            p < old(self).players.len(),
            rules::play_monopoly(old(self)@, p as int, kind) is Some,
        ensures
            Some(final(self)@) == rules::play_monopoly(old(self)@, p as int, kind),
            final(self).wf(),
            final(self).same_seats(old(self)),
    {
        let ghost s0 = self@;
        let k = kind.to_index();
        let mut count: usize = 0;
        let mut i: usize = 0;
        let n = self.players.len();
        proof {
            rules::lemma_others_total_prefix(s0.players, p as int, k as int, n as int);
        }
        while i < n
            invariant
                n == self.players.len(),
                n == s0.players.len(),
                i <= n,
                p < n,
                k < 7,
                k == kind.id(),
                s0 == old(self)@,
                self.same_seats(old(self)),
                rules::others_total(s0.players, p as int, k as int) <= usize::MAX,
                count == rules::others_total(s0.players.take(i as int), p as int, k as int),
                self@ == (GameState { players: self@.players, ..s0 }),
                forall|j: int|
                    0 <= j < n ==> #[trigger] self@.players[j] == (if j < i && j != p {
                        PlayerState {
                            resources: s0.players[j].resources.update(k as int, 0usize),
                            ..s0.players[j]
                        }
                    } else {
                        s0.players[j]
                    }),
            decreases n - i,
        {
            proof {
                assert(s0.players.take(i as int + 1).drop_last() =~= s0.players.take(i as int));
                rules::lemma_others_total_prefix(s0.players, p as int, k as int, i as int + 1);
                assert(self@.players[i as int] == s0.players[i as int]);
            }
            let ghost before = self@.players;
            if i != p {
                count += self.players[i].base.resources[k];
                self.players[i].base.resources[k] = 0;
                assert(self@.players =~= before.update(
                    i as int,
                    PlayerState {
                        resources: s0.players[i as int].resources.update(k as int, 0usize),
                        ..s0.players[i as int]
                    },
                ));
            }
            i += 1;
            assert(self@ =~= (GameState { players: self@.players, ..s0 }));
        }
        assert(s0.players.take(n as int) =~= s0.players);
        assert(self@.players[p as int] == s0.players[p as int]);
        let ghost before = self@.players;
        self.players[p].base.resources[k] += count;
        let ghost target = (rules::play_monopoly(s0, p as int, kind)->0).players;
        assert(self@.players =~= before.update(
            p as int,
            PlayerState {
                resources: s0.players[p as int].resources.update(
                    k as int,
                    (s0.players[p as int].resources[k as int] + count) as usize,
                ),
                ..s0.players[p as int]
            },
        ));
        assert forall|j: int| 0 <= j < n implies #[trigger] self@.players[j] == target[j] by {
            assert(before[j] == self@.players[j] || j == p);
        }
        assert(self@.players =~= target);
        assert(self@ =~= rules::play_monopoly(s0, p as int, kind)->0);
        proof {
            rules::lemma_board_ok_frame(s0, self@);
        }
    }

    /// Plays a development card (see `rules::use_development_card`); `None`
    /// where that stops, the game then left part way.
    fn use_development_card(&mut self, use_card: UseDevelopmentCard, roll: usize) -> (r: Option<
        Result<(), GameError>,
    >)
        requires
            old(self).wf(),
            use_card.player < old(self).players.len(),
        ensures
            r is None <==> rules::use_development_card(old(self)@, use_card, roll) is None,
            r matches Some(e) ==> rules::use_development_card(old(self)@, use_card, roll) == Some(
                (final(self)@, e),
            ) && final(self).wf(),
            final(self).same_seats(old(self)),
    {
        let ghost s0 = self@;
        let p = use_card.player;
        let c = use_card.card.to_index();
        if c >= DEV_CARDS {
            return None;
        }
        if self.players[p].base.cards[c] == 0 {
            return Some(Err(GameError::CardNotFound));
        }
        match use_card.card {
            DevCard::Knight => {
                if let DevelopmentCard::Knight(select_robber) = use_card.usage {
                    match self.play_knight(p, select_robber, roll) {
                        None => {
                            return None;
                        },
                        Some(Err(e)) => {
                            return Some(Err(e));
                        },
                        Some(Ok(())) => {},
                    }
                } else {
                    return Some(Err(GameError::InvalidCardUsage(DevCard::Knight)));
                }
            },
            DevCard::VictoryPoint => {
                if let DevelopmentCard::VictoryPoint = use_card.usage {
                    if self.players[p].base.score == usize::MAX {
                        return None;
                    }
                    self.players[p].base.score += 1;
                    assert(self@ =~= rules::add_score(s0, p as int, 1)->0);
                    proof {
                        rules::lemma_board_ok_frame(s0, self@);
                    }
                } else {
                    return Some(Err(GameError::InvalidCardUsage(DevCard::VictoryPoint)));
                }
            },
            DevCard::RoadBuilding => {
                if let DevelopmentCard::RoadBuilding(roads) = use_card.usage {
                    if !self.play_road_building(p, roads) {
                        return None;
                    }
                } else {
                    return Some(Err(GameError::InvalidCardUsage(DevCard::RoadBuilding)));
                }
            },
            DevCard::Monopoly => {
                if let DevelopmentCard::Monopoly(kind) = use_card.usage {
                    if !self.monopoly_fits(p, kind) {
                        return None;
                    }
                    self.play_monopoly(p, kind);
                } else {
                    return Some(Err(GameError::InvalidCardUsage(DevCard::Monopoly)));
                }
            },
            DevCard::YearOfPlenty => {
                if let DevelopmentCard::YearOfPlenty(kind1, kind2) = use_card.usage {
                    let k1 = kind1.to_index();
                    let k2 = kind2.to_index();
                    if k1 >= TILE_KINDS || k2 >= TILE_KINDS || self.players[p].base.resources[k1]
                        == usize::MAX {
                        return None;
                    }
                    self.players[p].base.resources[k1] += 1;
                    if self.players[p].base.resources[k2] == usize::MAX {
                        return None;
                    }
                    self.players[p].base.resources[k2] += 1;
                    assert(self@ =~= rules::play_year_of_plenty(s0, p as int, kind1, kind2)->0);
                    proof {
                        rules::lemma_board_ok_frame(s0, self@);
                    }
                } else {
                    return Some(Err(GameError::InvalidCardUsage(DevCard::YearOfPlenty)));
                }
            },
            DevCard::Max => {
                return None;
            },
        }
        let ghost s1 = self@;
        self.players[p].base.cards[c] -= 1;
        self.broadcast.push(GameMsg::PlayerUseDevelopmentCard(use_card));
        assert(self@ =~= (rules::spend_card(s1, use_card)->0).0);
        proof {
            rules::lemma_board_ok_frame(s1, self@);
        }
        Some(Ok(()))
    }

    /// Whether the offer can be computed (see `rules::offer_ok`).
    fn offer_ok(&self, offer: OfferResources) -> (b: bool)
        ensures
            b == rules::offer_ok(self@, offer),
    {
        if offer.player >= self.players.len() || offer.kind.to_index() >= TILE_KINDS {
            return false;
        }
        let r = self.players[offer.player].base.resources[offer.kind.to_index()];
        (r as isize).checked_add(offer.count).is_some()
    }

    /// Whether moving the robber can be computed (see
    /// `rules::select_robber_ok`).
    fn select_robber_ok(&self, sr: SelectRobber) -> (b: bool)
        ensures
            b == rules::select_robber_ok(self@, sr),
    {
        let tiles = self.inner.tiles();
        assert(tiles@.len() == self@.tiles.len());
        if sr.coord.x >= tiles.len() {
            return false;
        }
        assert(tiles@[sr.coord.x as int]@ == self@.tiles[sr.coord.x as int]);
        if sr.coord.y >= tiles[sr.coord.x].len() || sr.player >= self.players.len() {
            return false;
        }
        match sr.target {
            None => true,
            Some(t) => t < self.players.len(),
        }
    }

    /// Applies a move, with `roll` choosing the resource a robber steals.
    /// `None` where the rules cannot go on (see `rules::update`); the game
    /// is then left part way.
    pub fn update_with_roll(&mut self, update: GameUpdate, roll: usize) -> (r: Option<
        Result<(), GameError>,
    >)
        requires
            old(self).wf(),
        ensures
            r is None <==> rules::update(old(self)@, update, roll) is None,
            r matches Some(e) ==> rules::update(old(self)@, update, roll) == Some((final(self)@, e))
                && final(self).wf(),
            final(self).same_seats(old(self)),
    {
        let n = self.players.len();
        match update {
            GameUpdate::BuildRoad(build) => {
                if build.player >= n {
                    return None;
                }
                Some(self.build_road(build))
            },
            GameUpdate::BuildSettlement(build) => {
                if build.player >= n || self.players[build.player].base.score == usize::MAX {
                    return None;
                }
                Some(self.build_settlement(build))
            },
            GameUpdate::BuildCity(build) => {
                if build.player >= n || self.players[build.player].base.score == usize::MAX
                    || self.players[build.player].base.settlement_left == usize::MAX {
                    return None;
                }
                Some(self.build_city(build))
            },
            GameUpdate::BuyDevelopmentCard(buy) => {
                if buy.player >= n {
                    return None;
                }
                if self.dev_cards.len() > 0 {
                    let card = self.dev_cards[self.dev_cards.len() - 1];
                    if card == DevCard::Max || self.players[buy.player].base.cards[card.to_index()]
                        == usize::MAX {
                        return None;
                    }
                }
                Some(self.buy_development_card(buy))
            },
            GameUpdate::UseDevelopmentCard(use_card) => {
                if use_card.player >= n {
                    return None;
                }
                self.use_development_card(use_card, roll)
            },
            GameUpdate::Trade(trade) => {
                if let Some(t) = &trade {
                    if t.from >= n || (*t.request.target() == TradeTarget::Player && t.to >= n) {
                        return None;
                    }
                }
                self.do_trade(trade)
            },
            GameUpdate::SelectRobber(select_robber) => {
                if !self.select_robber_ok(select_robber) {
                    return None;
                }
                self.select_robber(select_robber, roll)
            },
            GameUpdate::OfferResources(offer) => {
                if !self.offer_ok(offer) {
                    return None;
                }
                self.offer_resources(offer);
                Some(Ok(()))
            },
            GameUpdate::HitDice(dice) => {
                if !self.inner.dice_map().contains_key(&dice) || !self.hit_dice(dice) {
                    return None;
                }
                Some(Ok(()))
            },
        }
    }

    /// Applies a move; a robber steals a resource chosen at random. `None`
    /// where the rules cannot go on for the roll drawn (see `rules::update`).
    pub fn update(&mut self, update: GameUpdate) -> (r: Option<Result<(), GameError>>)
        requires
            old(self).wf(),
        ensures
            exists|roll: usize|
                {
                    &&& r is None <==> #[trigger] rules::update(old(self)@, update, roll) is None
                    &&& r matches Some(e) ==> rules::update(old(self)@, update, roll) == Some(
                        (final(self)@, e),
                    )
                },
            r is Some ==> final(self).wf(),
            final(self).same_seats(old(self)),
    {
        let roll = crate::random::random_usize();
        self.update_with_roll(update, roll)
    }

    fn owns_harbor(&self, p: usize) -> (r: bool)
        requires
            self.wf(),
        ensures
            r == rules::owns_harbor(self@, p),
    {
        let harbors = self.inner.harbors();
        let mut i: usize = 0;
        while i < harbors.len()
            invariant
                self.wf(),
                i <= harbors.len(),
                harbors@ == self@.harbors,
                forall|j: int|
                    0 <= j < i ==> !(rules::point_of(self@, (#[trigger] self@.harbors[j]).0.start).owner
                        == Some(p) || rules::point_of(self@, self@.harbors[j].0.end).owner == Some(p)),
            decreases harbors.len() - i,
        {
            let line = harbors[i].0;
            assert(self@.harbors[i as int] == harbors@[i as int]);
            if self.inner.point(line.start).owner() != Some(p) && self.inner.point(line.end).owner()
                != Some(p) {
                i += 1;
            } else {
                return true;
            }
        }
        false
    }

    fn do_local_trade(&mut self, trade: &Trade) -> (r: Option<Result<(), GameError>>)
        requires
            old(self).wf(),
            trade.from < old(self).players.len(),
            trade.request.target_of() != TradeTarget::Player,
        ensures
            r is None <==> rules::do_local_trade(old(self)@, *trade) is None,
            r matches Some(e) ==> rules::do_local_trade(old(self)@, *trade) == Some((final(self)@, e))
                && final(self).wf(),
            final(self).same_seats(old(self)),
    {
        let ghost s0 = self@;
        let p = trade.from;
        let target = *trade.request.target();
        let resources = self.players[p].base.resources;
        assert(resources@ == s0.players[p as int].resources);
        let scanned = match target {
            TradeTarget::Player => {
                return None;
            },
            TradeTarget::Bank => scan_offer(&resources, trade.request.from(), target),
            TradeTarget::Harbor(harbor_kind) => {
                if !self.owns_harbor(trade.from) {
                    return Some(Err(GameError::NoHarborOwned));
                }
                if harbor_kind == TileKind::Dessert {
                    return None;
                }
                scan_offer(&resources, trade.request.from(), target)
            },
        };
        let valid_count = match scanned {
            None => {
                return None;
            },
            Some(Err(e)) => {
                return Some(Err(e));
            },
            Some(Ok(v)) => v,
        };
        let to = trade.request.to();
        let mut request_count: usize = 0;
        let mut i: usize = 0;
        while i < to.len()
            invariant
                i <= to.len(),
                to@ == trade.request.wanted(),
                request_count == rules::count_sum(to@.take(i as int)),
                s0 == old(self)@,
                self.same_seats(old(self)),
                rules::count_sum(to@) > usize::MAX ==> rules::do_local_trade(s0, *trade) is None,
            decreases to.len() - i,
        {
            proof {
                assert(to@.take(i as int + 1).drop_last() =~= to@.take(i as int));
                rules::lemma_count_sum_prefix(to@, i as int + 1);
            }
            if request_count > usize::MAX - to[i].1 {
                return None;
            }
            request_count += to[i].1;
            i += 1;
        }
        assert(to@.take(to@.len() as int) =~= to@);
        if valid_count != request_count {
            return Some(Err(GameError::InvalidTradeRequest));
        }
        let mut resources = resources;
        if !apply_counts(&mut resources, trade.request.from(), true) {
            return None;
        }
        if !apply_counts(&mut resources, trade.request.to(), false) {
            return None;
        }
        self.players[p].base.resources = resources;
        assert(self@ =~= (rules::do_local_trade(s0, *trade)->0).0);
        proof {
            rules::lemma_board_ok_frame(s0, self@);
        }
        Some(Ok(()))
    }

    fn do_trade(&mut self, trade: Option<Trade>) -> (r: Option<Result<(), GameError>>)
        requires
            old(self).wf(),
            trade matches Some(t) ==> t.from < old(self).players.len() && (t.request.target_of()
                == TradeTarget::Player ==> t.to < old(self).players.len()),
        ensures
            r is None <==> rules::do_trade(old(self)@, trade) is None,
            r matches Some(e) ==> rules::do_trade(old(self)@, trade) == Some((final(self)@, e))
                && final(self).wf(),
            final(self).same_seats(old(self)),
    {
        let ghost s0 = self@;
        match trade {
            Some(trade) => {
                let done = if *trade.request.target() == TradeTarget::Player {
                    self.do_player_trade(&trade)
                } else {
                    self.do_local_trade(&trade)
                };
                match done {
                    None => {
                        return None;
                    },
                    Some(Err(e)) => {
                        return Some(Err(e));
                    },
                    Some(Ok(())) => {},
                }
                let ghost s1 = self@;
                self.broadcast.push(GameMsg::PlayerTrade(Some(trade)));
                proof {
                    rules::lemma_board_ok_frame(s1, self@);
                }
            },
            None => {
                self.broadcast.push(GameMsg::PlayerTrade(None));
                proof {
                    rules::lemma_board_ok_frame(s0, self@);
                }
            },
        }
        Some(Ok(()))
    }
}

/// Checks the offer of a trade with the bank or a harbor against the
/// counters (see `rules::scan_offer`) and gives what it buys; `None` where
/// the scan cannot be computed.
fn scan_offer(resources: &[usize; TILE_KINDS], from: &Vec<(TileKind, usize)>, target: TradeTarget) -> (r:
    Option<Result<usize, GameError>>)
    requires
        target != TradeTarget::Player,
    ensures
        match r {
            None => rules::scan_offer(resources@, from@, target) is None,
            Some(Ok(v)) => rules::scan_offer(resources@, from@, target) == Some(Ok::<int, GameError>(v as int)),
            Some(Err(e)) => rules::scan_offer(resources@, from@, target) == Some(Err::<int, GameError>(e)),
        },
{
    let mut valid_count: usize = 0;
    let mut i: usize = 0;
    while i < from.len()
        invariant
            i <= from.len(),
            target != TradeTarget::Player,
            rules::scan_offer(resources@, from@.take(i as int), target) == Some(
                Ok::<int, GameError>(valid_count as int),
            ),
        decreases from.len() - i,
    {
        proof {
            assert(from@.take(i as int + 1).drop_last() =~= from@.take(i as int));
            rules::lemma_scan_prefix(resources@, from@, target, i as int + 1);
        }
        let (kind, count) = from[i];
        let rate: usize = match target {
            TradeTarget::Bank => {
                if count < 4 {
                    return Some(Err(GameError::NotEnoughToTradeWithBank(kind)));
                }
                4
            },
            TradeTarget::Harbor(TileKind::Empty) => {
                if count < 3 {
                    return Some(Err(GameError::NotEnoughForHarbor(kind, TileKind::Empty)));
                }
                3
            },
            TradeTarget::Harbor(harbor_kind) => {
                if kind != harbor_kind {
                    return Some(Err(GameError::InvalidHarborTrade));
                }
                2
            },
            TradeTarget::Player => 1,
        };
        if count % rate != 0 {
            return Some(Err(GameError::TradeCountNotMultiple(rate)));
        }
        if kind.to_index() >= TILE_KINDS {
            return None;
        }
        if resources[kind.to_index()] < count {
            return Some(Err(GameError::NotEnoughResources));
        }
        if valid_count > usize::MAX - count / rate {
            return None;
        }
        valid_count += count / rate;
        i += 1;
    }
    assert(from@.take(from@.len() as int) =~= from@);
    Some(Ok(valid_count))
}

/// Adds (or, with `take`, subtracts) each count of `list` to the counter of
/// its kind, in order (see `rules::apply_counts`); `false` where that stops,
/// the counters then left part way.
fn apply_counts(resources: &mut [usize; TILE_KINDS], list: &Vec<(TileKind, usize)>, take: bool) -> (ok: bool)
    ensures
        ok == rules::apply_counts(old(resources)@, list@, take) is Some,
        ok ==> Some(final(resources)@) == rules::apply_counts(old(resources)@, list@, take),
{
    let mut i: usize = 0;
    while i < list.len()
        invariant
            i <= list.len(),
            rules::apply_counts(old(resources)@, list@.take(i as int), take) == Some(resources@),
        decreases list.len() - i,
    {
        proof {
            assert(list@.take(i as int + 1).drop_last() =~= list@.take(i as int));
            rules::lemma_apply_prefix(old(resources)@, list@, take, i as int + 1);
        }
        let (kind, count) = list[i];
        let k = kind.to_index();
        if k >= TILE_KINDS {
            return false;
        }
        if take {
            if resources[k] < count {
                return false;
            }
            resources[k] -= count;
        } else {
            if resources[k] > usize::MAX - count {
                return false;
            }
            resources[k] += count;
        }
        i += 1;
    }
    assert(list@.take(list@.len() as int) =~= list@);
    true
}

} // verus!
