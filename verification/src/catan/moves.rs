//! What each move of the game costs, needs and pays, stated against the
//! prices and rates of the game itself.
use crate::catan::element::{
    in_grid, valid_point, BuildCity, BuildRoad, DevCard, DevelopmentCard, GameMsg, Trade, TradeTarget, TileKind,
    UseDevelopmentCard, TILE_KINDS,
};
use crate::catan::game::GameUpdate;
use crate::catan::laws::count_of;
use crate::catan::rules::{self, GameError, GameState};
use crate::element::{Coordinate, Line};
use crate::geometry::tile_corners;
use vstd::prelude::*;

verus! {

/// A city is built exactly on a point of the board that the player owns,
/// by a player with a city left and with at least three stone and two
/// grain. It then costs exactly three stone and two grain, turns the point
/// into the player's city, scores a point, uses up a city and gives back a
/// settlement, leaves the other players alone and is told to everyone. A
/// refused city changes nothing.
pub proof fn lemma_city_built(s: GameState, b: BuildCity, roll: usize, s2: GameState, r: Result<(), GameError>)
    requires
        rules::update(s, GameUpdate::BuildCity(b), roll) == Some((s2, r)),
        in_grid(s.points, b.point),
        s.players[b.player as int].resources.len() == TILE_KINDS,
    ensures
        r is Ok <==> {
            &&& valid_point(s.tiles, s.points, b.point)
            &&& s.players[b.player as int].city_left > 0
            &&& s.points[b.point.x as int][b.point.y as int].owner == Some(b.player)
            &&& s.players[b.player as int].resources[TileKind::Stone.id()] >= 3
            &&& s.players[b.player as int].resources[TileKind::Grain.id()] >= 2
        },
        r is Err ==> s2 == s,
        r is Ok ==> {
            let p = b.player as int;
            let before = s.players[p];
            let after = s2.players[p];
            &&& s2.players.len() == s.players.len()
            &&& after.resources.len() == TILE_KINDS
            &&& after.resources[TileKind::Stone.id()] == before.resources[TileKind::Stone.id()] - 3
            &&& after.resources[TileKind::Grain.id()] == before.resources[TileKind::Grain.id()] - 2
            &&& forall|k: int|
                0 <= k < TILE_KINDS && k != TileKind::Stone.id() && k != TileKind::Grain.id()
                    ==> #[trigger] after.resources[k] == before.resources[k]
            &&& after.score == before.score + 1
            &&& after.city_left == before.city_left - 1
            &&& after.settlement_left == before.settlement_left + 1
            &&& s2.points[b.point.x as int][b.point.y as int].owner == Some(b.player)
            &&& s2.points[b.point.x as int][b.point.y as int].city
            &&& forall|i: int| 0 <= i < s.players.len() && i != p ==> s2.players[i] == s.players[i]
            &&& s2.broadcast == s.broadcast.push(GameMsg::PlayerBuildCity(b))
        },
{
}

/// The line `l` shares an end with one of `roads`.
pub open spec fn meets_road(roads: Seq<Line>, l: Line) -> bool {
    exists|i: int|
        0 <= i < roads.len() && {
            let m = #[trigger] roads[i];
            m.start == l.start || m.end == l.start || m.start == l.end || m.end == l.end
        }
}

/// A road is built exactly when both its ends are points of the board, the
/// player has fewer than fifteen roads, the line has no road yet, and, once
/// the setup is done, the player holds a brick and a wood and the line
/// shares an end with a road the player had before. A road built costs
/// exactly a brick and a wood once the setup is done and nothing during it,
/// is added to the player's roads, and leaves the other players alone.
pub proof fn lemma_road_connected(s: GameState, b: BuildRoad, roll: usize, s2: GameState, r: Result<(), GameError>)
    requires
        rules::update(s, GameUpdate::BuildRoad(b), roll) == Some((s2, r)),
        s.players[b.player as int].resources.len() == TILE_KINDS,
    ensures
        r is Ok <==> {
            &&& valid_point(s.tiles, s.points, b.road.start)
            &&& valid_point(s.tiles, s.points, b.road.end)
            &&& s.players[b.player as int].roads.len() < 15
            &&& !s.roads.contains_key(b.road)
            &&& s.is_initialized ==> {
                &&& s.players[b.player as int].resources[TileKind::Brick.id()] >= 1
                &&& s.players[b.player as int].resources[TileKind::Wood.id()] >= 1
                &&& meets_road(s.players[b.player as int].roads, b.road)
            }
        },
        r is Ok ==> {
            &&& s2.players.len() == s.players.len()
            &&& s2.players[b.player as int].roads == s.players[b.player as int].roads.push(b.road)
            &&& s2.players[b.player as int].resources.len() == TILE_KINDS
            &&& forall|k: int|
                0 <= k < TILE_KINDS ==> #[trigger] s2.players[b.player as int].resources[k]
                    == s.players[b.player as int].resources[k] - (if s.is_initialized && (k == TileKind::Brick.id()
                    || k == TileKind::Wood.id()) {
                    1int
                } else {
                    0int
                })
            &&& forall|i: int| 0 <= i < s.players.len() && i != b.player ==> s2.players[i] == s.players[i]
            &&& s2.broadcast == s.broadcast.push(GameMsg::PlayerBuildRoad(b))
        },
{
    let roads = s.players[b.player as int].roads;
    if rules::reaches(roads, b.road.start) {
        let i = choose|i: int| 0 <= i < roads.len() && (#[trigger] roads[i]).touches(b.road.start);
        assert(roads[i].start == b.road.start || roads[i].end == b.road.start);
    }
    if rules::reaches(roads, b.road.end) {
        let i = choose|i: int| 0 <= i < roads.len() && (#[trigger] roads[i]).touches(b.road.end);
        assert(roads[i].start == b.road.end || roads[i].end == b.road.end);
    }
    if meets_road(roads, b.road) {
        let i = choose|i: int|
            0 <= i < roads.len() && {
                let m = #[trigger] roads[i];
                m.start == b.road.start || m.end == b.road.start || m.start == b.road.end || m.end == b.road.end
            };
        assert(roads[i].touches(b.road.start) || roads[i].touches(b.road.end));
    }
}

/// A knight played adds one to the player's knights and to nobody else's.
/// The largest army title stays where it was, or goes to the player when
/// its knights reach three or more and pass those of the holder (or nobody
/// holds it), and then only: the player gains two points and the former
/// holder loses two; otherwise no score changes.
pub proof fn lemma_knight_played(s: GameState, u: UseDevelopmentCard, roll: usize, s2: GameState)
    requires
        rules::update(s, GameUpdate::UseDevelopmentCard(u), roll) == Some((s2, Ok::<(), GameError>(()))),
        u.card == DevCard::Knight,
    ensures
        ({
            let p = u.player as int;
            let kc = s2.players[p].knight_count;
            &&& s2.players.len() == s.players.len()
            &&& kc == s.players[p].knight_count + 1
            &&& forall|i: int| 0 <= i < s.players.len() && i != p ==> #[trigger] s2.players[i].knight_count == s.players[i].knight_count
            &&& (s2.most_knights == s.most_knights || (s2.most_knights == Some((u.player, kc)) && kc >= 3))
            &&& s2.most_knights != s.most_knights <==> (kc >= 3 && match s.most_knights {
                None => true,
                Some((q, k)) => k < kc,
            })
            &&& s2.most_knights == s.most_knights ==> forall|i: int|
                0 <= i < s.players.len() ==> #[trigger] s2.players[i].score == s.players[i].score
            &&& s2.most_knights != s.most_knights ==> forall|i: int|
                0 <= i < s.players.len() ==> #[trigger] s2.players[i].score == s.players[i].score + (if i == p {
                    2int
                } else {
                    0int
                }) - (match s.most_knights {
                    Some((q, k)) => if q == i {
                        2int
                    } else {
                        0int
                    },
                    None => 0int,
                })
        }),
{
    let p = u.player as int;
    match u.usage {
        DevelopmentCard::Knight(sr) => {
            let (s1, r1) = rules::select_robber(s, sr, roll)->0;
            lemma_steal_keeps_titles(s, sr, roll);
            let kc = (s1.players[p].knight_count + 1) as usize;
            let s2k = rules::with_player(s1, p, rules::PlayerState { knight_count: kc, ..s1.players[p] });
            assert(s2k.players.len() == s.players.len());
            assert forall|i: int| 0 <= i < s.players.len() implies #[trigger] s2k.players[i].score == s.players[i].score by {
                assert(s1.players[i].score == s.players[i].score);
            }
            assert forall|i: int| 0 <= i < s.players.len() && i != p implies #[trigger] s2k.players[i].knight_count == s.players[i].knight_count by {
                assert(s1.players[i].knight_count == s.players[i].knight_count);
            }
        },
        _ => {},
    }
}

/// Moving the robber changes no score, no knight count and no title.
proof fn lemma_steal_keeps_titles(s: GameState, sr: crate::catan::element::SelectRobber, roll: usize)
    requires
        rules::select_robber(s, sr, roll) is Some,
    ensures
        ({
            let s1 = (rules::select_robber(s, sr, roll)->0).0;
            &&& s1.players.len() == s.players.len()
            &&& s1.most_knights == s.most_knights
            &&& forall|i: int|
                0 <= i < s.players.len() ==> (#[trigger] s1.players[i]).score == s.players[i].score
                    && s1.players[i].knight_count == s.players[i].knight_count
        }),
{
}

/// An offer from `tiles` in order (see `rules::hit_tiles` and
/// `rules::hit_corners`) reaches no player that owns no corner of the
/// tiles that pay: such a player's counters stay as they were and no offer
/// to it is told; the board, the robber and the dice stay as they were.
spec fn pays_not(s: GameState, s2: GameState, q: usize) -> bool {
    &&& s2.players.len() == s.players.len()
    &&& s2.points == s.points
    &&& s2.tiles == s.tiles
    &&& s2.robber == s.robber
    &&& s2.dice == s.dice
    &&& (q < s.players.len() ==> s2.players[q as int].resources == s.players[q as int].resources)
    &&& s2.broadcast.len() >= s.broadcast.len()
    &&& s2.broadcast.take(s.broadcast.len() as int) == s.broadcast
    &&& forall|i: int|
        s.broadcast.len() <= i < s2.broadcast.len() ==> (#[trigger] s2.broadcast[i] matches GameMsg::PlayerOfferResources(o)
            && o.player != q)
}

proof fn lemma_pays_not_trans(s: GameState, s1: GameState, s2: GameState, q: usize)
    requires
        pays_not(s, s1, q),
        pays_not(s1, s2, q),
    ensures
        pays_not(s, s2, q),
{
    assert(s2.broadcast.take(s.broadcast.len() as int) =~= s1.broadcast.take(s.broadcast.len() as int));
    assert forall|i: int|
        s.broadcast.len() <= i < s2.broadcast.len() implies (#[trigger] s2.broadcast[i] matches GameMsg::PlayerOfferResources(o)
            && o.player != q) by {
        if i < s1.broadcast.len() {
            assert(s2.broadcast[i] == s2.broadcast.take(s1.broadcast.len() as int)[i]);
        }
    }
}

proof fn lemma_corners_pay_not(s: GameState, corners: Seq<Coordinate>, kind: TileKind, q: usize)
    requires
        rules::hit_corners(s, corners, kind) is Some,
        forall|k: int| 0 <= k < corners.len() ==> rules::point_of(s, #[trigger] corners[k]).owner != Some(q),
    ensures
        pays_not(s, rules::hit_corners(s, corners, kind)->0, q),
    decreases corners.len(),
{
    if corners.len() == 0 {
        assert(s.broadcast.take(s.broadcast.len() as int) =~= s.broadcast);
    } else {
        let init = corners.drop_last();
        assert forall|k: int| 0 <= k < init.len() implies rules::point_of(s, #[trigger] init[k]).owner != Some(q) by {
            assert(init[k] == corners[k]);
        }
        lemma_corners_pay_not(s, init, kind, q);
        let s1 = rules::hit_corners(s, init, kind)->0;
        let pt = rules::point_of(s1, corners.last());
        assert(pt.owner != Some(q));
        match pt.owner {
            Some(o) => {
                let s2 = rules::offer_resources(s1, rules::corner_offer(pt, o, kind));
                assert(s2.broadcast.take(s1.broadcast.len() as int) =~= s1.broadcast);
                assert(pays_not(s1, s2, q));
                lemma_pays_not_trans(s, s1, s2, q);
            },
            None => {},
        }
    }
}

proof fn lemma_tiles_pay_not(s: GameState, tiles: Seq<Coordinate>, q: usize)
    requires
        rules::hit_tiles(s, tiles) is Some,
        forall|j: int|
            0 <= j < tiles.len() && #[trigger] tiles[j] != s.robber && rules::tile_of(s, tiles[j]).kind_of() != TileKind::Empty
                ==> forall|k: int| 0 <= k < 6 ==> rules::point_of(s, #[trigger] tile_corners(tiles[j])[k]).owner != Some(q),
    ensures
        pays_not(s, rules::hit_tiles(s, tiles)->0, q),
    decreases tiles.len(),
{
    if tiles.len() == 0 {
        assert(s.broadcast.take(s.broadcast.len() as int) =~= s.broadcast);
    } else {
        let init = tiles.drop_last();
        assert forall|j: int|
            0 <= j < init.len() && #[trigger] init[j] != s.robber && rules::tile_of(s, init[j]).kind_of() != TileKind::Empty
                implies forall|k: int| 0 <= k < 6 ==> rules::point_of(s, #[trigger] tile_corners(init[j])[k]).owner != Some(q) by {
            assert(init[j] == tiles[j]);
        }
        lemma_tiles_pay_not(s, init, q);
        let s1 = rules::hit_tiles(s, init)->0;
        let c = tiles.last();
        let t = rules::tile_of(s1, c);
        if t.kind_of() != TileKind::Empty && c != s1.robber {
            assert(tiles[tiles.len() - 1] == c);
            assert forall|k: int| 0 <= k < tile_corners(c).len() implies rules::point_of(s1, #[trigger] tile_corners(c)[k]).owner
                != Some(q) by {
                assert(rules::point_of(s, tile_corners(tiles[tiles.len() - 1])[k]).owner != Some(q));
            }
            lemma_corners_pay_not(s1, tile_corners(c), t.kind_of(), q);
            lemma_pays_not_trans(s, s1, rules::hit_corners(s1, tile_corners(c), t.kind_of())->0, q);
        }
    }
}

/// A roll of the dice pays only the tiles of its number that are not under
/// the robber: a player that owns no corner of such a tile keeps its
/// counters, and no offer to it is told, even where it owns a corner of the
/// tile under the robber. The board and the robber stay where they were.
pub proof fn lemma_robbed_tile_pays_nothing(s: GameState, d: usize, roll: usize, s2: GameState, q: usize)
    requires
        rules::update(s, GameUpdate::HitDice(d), roll) == Some((s2, Ok::<(), GameError>(()))),
        q < s.players.len(),
        forall|j: int|
            0 <= j < s.dice[d]@.len() && #[trigger] s.dice[d]@[j] != s.robber && s.tiles[s.dice[d]@[j].x as int][s.dice[d]@[j].y as int].kind_of()
                != TileKind::Empty ==> forall|k: int|
                0 <= k < 6 ==> {
                    let pt = #[trigger] tile_corners(s.dice[d]@[j])[k];
                    s.points[pt.x as int][pt.y as int].owner != Some(q)
                },
    ensures
        s2.players.len() == s.players.len(),
        s2.players[q as int].resources == s.players[q as int].resources,
        s2.points == s.points,
        s2.robber == s.robber,
        s2.broadcast.take(s.broadcast.len() as int) == s.broadcast,
        forall|i: int|
            s.broadcast.len() <= i < s2.broadcast.len() ==> (#[trigger] s2.broadcast[i] matches GameMsg::PlayerOfferResources(o)
                && o.player != q),
{
    let tiles = s.dice[d]@;
    assert forall|j: int|
        0 <= j < tiles.len() && #[trigger] tiles[j] != s.robber && rules::tile_of(s, tiles[j]).kind_of() != TileKind::Empty
            implies forall|k: int| 0 <= k < 6 ==> rules::point_of(s, #[trigger] tile_corners(tiles[j])[k]).owner != Some(q) by {
        assert forall|k: int| 0 <= k < 6 implies rules::point_of(s, #[trigger] tile_corners(tiles[j])[k]).owner != Some(q) by {
            let pt = tile_corners(s.dice[d]@[j])[k];
            assert(s.points[pt.x as int][pt.y as int].owner != Some(q));
        }
    }
    lemma_tiles_pay_not(s, tiles, q);
}

/// One entry of an offer to a two-for-one harbor of kind `hk` is
/// acceptable: of the harbor's kind, an even count, and held.
pub open spec fn harbor_entry_ok(r: Seq<usize>, e: (TileKind, usize), hk: TileKind) -> bool {
    e.0 == hk && e.1 % 2 == 0 && 0 <= e.0.id() < r.len() && r[e.0.id()] >= e.1
}

/// The sum of half (rounded down) of each count of `list`.
pub open spec fn half_total(list: Seq<(TileKind, usize)>) -> int
    decreases list.len(),
{
    if list.len() == 0 {
        0
    } else {
        half_total(list.drop_last()) + list.last().1 / 2
    }
}

/// Where the scan of an offer to a two-for-one harbor of kind `hk` can be
/// made, it accepts exactly offers of acceptable entries, and then values
/// each at half its count.
pub proof fn lemma_harbor_scan(r: Seq<usize>, list: Seq<(TileKind, usize)>, hk: TileKind)
    requires
        hk != TileKind::Empty,
    ensures
        rules::scan_offer(r, list, TradeTarget::Harbor(hk)) matches Some(x) ==> {
            &&& (x is Ok <==> forall|i: int| 0 <= i < list.len() ==> harbor_entry_ok(r, #[trigger] list[i], hk))
            &&& x matches Ok(v) ==> v == half_total(list)
        },
    decreases list.len(),
{
    if list.len() > 0 {
        let init = list.drop_last();
        lemma_harbor_scan(r, init, hk);
        let x = rules::scan_offer(r, list, TradeTarget::Harbor(hk));
        if x is Some {
            if x->0 is Ok {
                assert forall|i: int| 0 <= i < list.len() implies harbor_entry_ok(r, #[trigger] list[i], hk) by {
                    if i < init.len() {
                        assert(init[i] == list[i]);
                    }
                }
            } else {
                if rules::scan_offer(r, init, TradeTarget::Harbor(hk)) matches Some(Ok(_)) {
                    assert(!harbor_entry_ok(r, list[list.len() - 1], hk));
                } else {
                    let j = choose|j: int| 0 <= j < init.len() && !harbor_entry_ok(r, #[trigger] init[j], hk);
                    assert(list[j] == init[j]);
                }
            }
        }
    }
}

/// A trade with a two-for-one harbor of kind `hk` is made exactly when the
/// player owns a point at an end of some harbor, every entry offered is of
/// the harbor's kind, an even count and held, and the counts asked for add
/// up to half of each count offered. Then, for each kind, the player gives
/// what it offers of it and gets what it asked for, and the other players
/// keep theirs. A refused trade changes nothing.
pub proof fn lemma_harbor_trade(s: GameState, t: Trade, roll: usize, s2: GameState, r: Result<(), GameError>)
    requires
        rules::update(s, GameUpdate::Trade(Some(t)), roll) == Some((s2, r)),
        t.request.target_of() == TradeTarget::Harbor(t.request.target_of()->Harbor_0),
        t.request.target_of()->Harbor_0 != TileKind::Empty,
        s.players[t.from as int].resources.len() == TILE_KINDS,
    ensures
        ({
            let hk = t.request.target_of()->Harbor_0;
            let p = t.from as int;
            &&& r is Ok <==> {
                &&& exists|i: int|
                    0 <= i < s.harbors.len() && ({
                        let l = (#[trigger] s.harbors[i]).0;
                        s.points[l.start.x as int][l.start.y as int].owner == Some(t.from)
                            || s.points[l.end.x as int][l.end.y as int].owner == Some(t.from)
                    })
                &&& forall|i: int|
                    0 <= i < t.request.offered().len() ==> harbor_entry_ok(
                        s.players[p].resources,
                        #[trigger] t.request.offered()[i],
                        hk,
                    )
                &&& rules::count_sum(t.request.wanted()) == half_total(t.request.offered())
            }
            &&& r is Err ==> s2 == s
            &&& r is Ok ==> {
                &&& s2.players.len() == s.players.len()
                &&& forall|k: TileKind|
                    0 <= k.id() < TILE_KINDS ==> #[trigger] s2.players[p].resources[k.id()]
                        == s.players[p].resources[k.id()] - count_of(t.request.offered(), k) + count_of(
                        t.request.wanted(),
                        k,
                    )
                &&& forall|i: int| 0 <= i < s.players.len() && i != p ==> #[trigger] s2.players[i] == s.players[i]
                &&& s2.broadcast == s.broadcast.push(GameMsg::PlayerTrade(Some(t)))
            }
        }),
{
    let hk = t.request.target_of()->Harbor_0;
    let p = t.from as int;
    let pl = s.players[p];
    let offered = t.request.offered();
    lemma_harbor_scan(pl.resources, offered, hk);
    if rules::owns_harbor(s, t.from) {
        let i = choose|i: int|
            0 <= i < s.harbors.len() && (rules::point_of(s, (#[trigger] s.harbors[i]).0.start).owner == Some(t.from)
                || rules::point_of(s, s.harbors[i].0.end).owner == Some(t.from));
        let l = s.harbors[i].0;
        assert(s.points[l.start.x as int][l.start.y as int].owner == Some(t.from)
            || s.points[l.end.x as int][l.end.y as int].owner == Some(t.from));
    } else {
        assert forall|i: int| 0 <= i < s.harbors.len() implies !({
            let l = (#[trigger] s.harbors[i]).0;
            s.points[l.start.x as int][l.start.y as int].owner == Some(t.from)
                || s.points[l.end.x as int][l.end.y as int].owner == Some(t.from)
        }) by {
            assert(!(rules::point_of(s, s.harbors[i].0.start).owner == Some(t.from)
                || rules::point_of(s, s.harbors[i].0.end).owner == Some(t.from)));
        }
    }
    if r is Ok {
        let r1 = rules::apply_counts(pl.resources, offered, true)->0;
        crate::catan::laws::lemma_apply_counts(pl.resources, offered, true, r1);
        let r2 = rules::apply_counts(r1, t.request.wanted(), false)->0;
        crate::catan::laws::lemma_apply_counts(r1, t.request.wanted(), false, r2);
    }
}

/// Some counter is above zero exactly when the list of counters above zero
/// is not empty.
proof fn lemma_available_nonempty(r: Seq<usize>)
    ensures
        rules::available(r).len() > 0 <==> exists|k: int| 0 <= k < r.len() && #[trigger] r[k] > 0,
    decreases r.len(),
{
    if r.len() > 0 {
        lemma_available_nonempty(r.drop_last());
        if exists|k: int| 0 <= k < r.len() - 1 && #[trigger] r.drop_last()[k] > 0 {
            let k = choose|k: int| 0 <= k < r.len() - 1 && #[trigger] r.drop_last()[k] > 0;
            assert(r[k] > 0);
        }
        if exists|k: int| 0 <= k < r.len() && #[trigger] r[k] > 0 {
            let k = choose|k: int| 0 <= k < r.len() && #[trigger] r[k] > 0;
            if k < r.len() - 1 {
                assert(r.drop_last()[k] > 0);
            }
        }
    }
}

/// The robber is moved exactly onto a tile that is not empty, and, when it
/// steals, from a target that owns a corner of that tile and holds some
/// resource. It then stands on the tile, the players other than the thief
/// and the target keep all they had, no score, knight count or title
/// changes, and everyone is told. A refused move changes nothing.
pub proof fn lemma_robber_moved(
    s: GameState,
    sr: crate::catan::element::SelectRobber,
    roll: usize,
    s2: GameState,
    r: Result<(), GameError>,
)
    requires
        rules::update(s, GameUpdate::SelectRobber(sr), roll) == Some((s2, r)),
    ensures
        r is Ok <==> {
            &&& s.tiles[sr.coord.x as int][sr.coord.y as int].kind_of() != TileKind::Empty
            &&& sr.target matches Some(t) ==> {
                &&& exists|k: int|
                    0 <= k < 6 && {
                        let pt = #[trigger] tile_corners(sr.coord)[k];
                        s.points[pt.x as int][pt.y as int].owner == Some(t)
                    }
                &&& exists|k: int|
                    0 <= k < s.players[t as int].resources.len() && #[trigger] s.players[t as int].resources[k] > 0
            }
        },
        r is Err ==> s2 == s,
        r is Ok ==> {
            &&& s2.robber == sr.coord
            &&& s2.players.len() == s.players.len()
            &&& s2.most_knights == s.most_knights
            &&& forall|i: int|
                0 <= i < s.players.len() ==> (#[trigger] s2.players[i]).score == s.players[i].score
                    && s2.players[i].knight_count == s.players[i].knight_count
            &&& forall|i: int|
                0 <= i < s.players.len() && i != sr.player && Some(i as usize) != sr.target ==> #[trigger] s2.players[i]
                    == s.players[i]
            &&& s2.broadcast.last() == GameMsg::PlayerSelectRobber(sr)
        },
{
    match sr.target {
        Some(t) => {
            lemma_available_nonempty(s.players[t as int].resources);
            if rules::owns_corner(s, sr.coord, t) {
                let k = choose|k: int| 0 <= k < 6 && rules::point_of(s, #[trigger] tile_corners(sr.coord)[k]).owner == Some(t);
                let pt = tile_corners(sr.coord)[k];
                assert(s.points[pt.x as int][pt.y as int].owner == Some(t));
            } else {
                assert forall|k: int| 0 <= k < 6 implies !({
                    let pt = #[trigger] tile_corners(sr.coord)[k];
                    s.points[pt.x as int][pt.y as int].owner == Some(t)
                }) by {
                    assert(rules::point_of(s, tile_corners(sr.coord)[k]).owner != Some(t));
                }
            }
        },
        None => {},
    }
}

/// One entry of an offer to a three-for-one harbor is acceptable: at least
/// three, a multiple of three, and held.
pub open spec fn three_entry_ok(r: Seq<usize>, e: (TileKind, usize)) -> bool {
    e.1 >= 3 && e.1 % 3 == 0 && 0 <= e.0.id() < r.len() && r[e.0.id()] >= e.1
}

/// The sum of a third (rounded down) of each count of `list`.
pub open spec fn third_total(list: Seq<(TileKind, usize)>) -> int
    decreases list.len(),
{
    if list.len() == 0 {
        0
    } else {
        third_total(list.drop_last()) + list.last().1 / 3
    }
}

/// Where the scan of an offer to a three-for-one harbor can be made, it
/// accepts exactly offers of acceptable entries, and then values each at a
/// third of its count.
pub proof fn lemma_three_scan(r: Seq<usize>, list: Seq<(TileKind, usize)>)
    ensures
        rules::scan_offer(r, list, TradeTarget::Harbor(TileKind::Empty)) matches Some(x) ==> {
            &&& (x is Ok <==> forall|i: int| 0 <= i < list.len() ==> three_entry_ok(r, #[trigger] list[i]))
            &&& x matches Ok(v) ==> v == third_total(list)
        },
    decreases list.len(),
{
    if list.len() > 0 {
        let init = list.drop_last();
        lemma_three_scan(r, init);
        let x = rules::scan_offer(r, list, TradeTarget::Harbor(TileKind::Empty));
        if x is Some {
            if x->0 is Ok {
                assert forall|i: int| 0 <= i < list.len() implies three_entry_ok(r, #[trigger] list[i]) by {
                    if i < init.len() {
                        assert(init[i] == list[i]);
                    }
                }
            } else {
                if rules::scan_offer(r, init, TradeTarget::Harbor(TileKind::Empty)) matches Some(Ok(_)) {
                    assert(!three_entry_ok(r, list[list.len() - 1]));
                } else {
                    let j = choose|j: int| 0 <= j < init.len() && !three_entry_ok(r, #[trigger] init[j]);
                    assert(list[j] == init[j]);
                }
            }
        }
    }
}

/// A trade with a three-for-one harbor is made exactly when the player owns
/// a point at an end of some harbor, every count offered is at least three,
/// a multiple of three and held, and the counts asked for add up to a third
/// of each count offered. Then, for each kind, the player gives what it
/// offers of it and gets what it asked for, and the other players keep
/// theirs. A refused trade changes nothing.
pub proof fn lemma_three_for_one_trade(s: GameState, t: Trade, roll: usize, s2: GameState, r: Result<(), GameError>)
    requires
        rules::update(s, GameUpdate::Trade(Some(t)), roll) == Some((s2, r)),
        t.request.target_of() == TradeTarget::Harbor(TileKind::Empty),
        s.players[t.from as int].resources.len() == TILE_KINDS,
    ensures
        ({
            let p = t.from as int;
            &&& r is Ok <==> {
                &&& exists|i: int|
                    0 <= i < s.harbors.len() && ({
                        let l = (#[trigger] s.harbors[i]).0;
                        s.points[l.start.x as int][l.start.y as int].owner == Some(t.from)
                            || s.points[l.end.x as int][l.end.y as int].owner == Some(t.from)
                    })
                &&& forall|i: int|
                    0 <= i < t.request.offered().len() ==> three_entry_ok(
                        s.players[p].resources,
                        #[trigger] t.request.offered()[i],
                    )
                &&& rules::count_sum(t.request.wanted()) == third_total(t.request.offered())
            }
            &&& r is Err ==> s2 == s
            &&& r is Ok ==> {
                &&& s2.players.len() == s.players.len()
                &&& forall|k: TileKind|
                    0 <= k.id() < TILE_KINDS ==> #[trigger] s2.players[p].resources[k.id()]
                        == s.players[p].resources[k.id()] - count_of(t.request.offered(), k) + count_of(
                        t.request.wanted(),
                        k,
                    )
                &&& forall|i: int| 0 <= i < s.players.len() && i != p ==> #[trigger] s2.players[i] == s.players[i]
                &&& s2.broadcast == s.broadcast.push(GameMsg::PlayerTrade(Some(t)))
            }
        }),
{
    let p = t.from as int;
    let pl = s.players[p];
    let offered = t.request.offered();
    lemma_three_scan(pl.resources, offered);
    if rules::owns_harbor(s, t.from) {
        let i = choose|i: int|
            0 <= i < s.harbors.len() && (rules::point_of(s, (#[trigger] s.harbors[i]).0.start).owner == Some(t.from)
                || rules::point_of(s, s.harbors[i].0.end).owner == Some(t.from));
        let l = s.harbors[i].0;
        assert(s.points[l.start.x as int][l.start.y as int].owner == Some(t.from)
            || s.points[l.end.x as int][l.end.y as int].owner == Some(t.from));
    } else {
        assert forall|i: int| 0 <= i < s.harbors.len() implies !({
            let l = (#[trigger] s.harbors[i]).0;
            s.points[l.start.x as int][l.start.y as int].owner == Some(t.from)
                || s.points[l.end.x as int][l.end.y as int].owner == Some(t.from)
        }) by {
            assert(!(rules::point_of(s, s.harbors[i].0.start).owner == Some(t.from)
                || rules::point_of(s, s.harbors[i].0.end).owner == Some(t.from)));
        }
    }
    if r is Ok {
        let r1 = rules::apply_counts(pl.resources, offered, true)->0;
        crate::catan::laws::lemma_apply_counts(pl.resources, offered, true, r1);
        let r2 = rules::apply_counts(r1, t.request.wanted(), false)->0;
        crate::catan::laws::lemma_apply_counts(r1, t.request.wanted(), false, r2);
    }
}

/// Every player has a counter for each resource kind.
pub open spec fn counters_complete(s: GameState) -> bool {
    forall|i: int| 0 <= i < s.players.len() ==> (#[trigger] s.players[i]).resources.len() == TILE_KINDS
}

/// What paying corners or tiles keeps: the board, the robber, the dice,
/// the players and their counters' number, and every counter at twenty.
spec fn pay_frame(s: GameState, s2: GameState) -> bool {
    &&& s2.players.len() == s.players.len()
    &&& s2.points == s.points
    &&& s2.tiles == s.tiles
    &&& s2.robber == s.robber
    &&& s2.dice == s.dice
    &&& counters_complete(s) ==> counters_complete(s2)
    &&& forall|q: int, k: int|
        0 <= q < s.players.len() && 0 <= k < TILE_KINDS && #[trigger] s.players[q].resources[k] == 20
            && counters_complete(s) ==> s2.players[q].resources[k] == 20
}

proof fn lemma_pay_frame_trans(s: GameState, s1: GameState, s2: GameState)
    requires
        pay_frame(s, s1),
        pay_frame(s1, s2),
    ensures
        pay_frame(s, s2),
{
    assert forall|q: int, k: int|
        0 <= q < s.players.len() && 0 <= k < TILE_KINDS && #[trigger] s.players[q].resources[k] == 20
            && counters_complete(s) implies s2.players[q].resources[k] == 20 by {
        assert(s1.players[q].resources[k] == 20);
    }
}

proof fn lemma_corners_pay(s: GameState, corners: Seq<Coordinate>, kind: TileKind)
    requires
        rules::hit_corners(s, corners, kind) is Some,
        counters_complete(s),
    ensures
        pay_frame(s, rules::hit_corners(s, corners, kind)->0),
        forall|m: int|
            0 <= m < corners.len() && #[trigger] rules::point_of(s, corners[m]).owner is Some ==> {
                let o = rules::point_of(s, corners[m]).owner->0;
                &&& o < s.players.len()
                &&& kind.id() < TILE_KINDS
                &&& (rules::hit_corners(s, corners, kind)->0).players[o as int].resources[kind.id()] == 20
            },
    decreases corners.len(),
{
    if corners.len() > 0 {
        let init = corners.drop_last();
        lemma_corners_pay(s, init, kind);
        let s1 = rules::hit_corners(s, init, kind)->0;
        let s2 = rules::hit_corners(s, corners, kind)->0;
        let pt = rules::point_of(s1, corners.last());
        match pt.owner {
            Some(o) => {
                let off = rules::corner_offer(pt, o, kind);
                assert(s2 == rules::offer_resources(s1, off));
                assert(pay_frame(s1, s2));
                lemma_pay_frame_trans(s, s1, s2);
            },
            None => {},
        }
        assert forall|m: int|
            0 <= m < corners.len() && #[trigger] rules::point_of(s, corners[m]).owner is Some implies {
                let o = rules::point_of(s, corners[m]).owner->0;
                &&& o < s.players.len()
                &&& kind.id() < TILE_KINDS
                &&& s2.players[o as int].resources[kind.id()] == 20
            } by {
            if m < init.len() {
                assert(init[m] == corners[m]);
                let o = rules::point_of(s, corners[m]).owner->0;
                assert(s1.players[o as int].resources[kind.id()] == 20);
            }
        }
    } else {
        assert(pay_frame(s, s));
    }
}

proof fn lemma_tiles_pay(s: GameState, tiles: Seq<Coordinate>)
    requires
        rules::hit_tiles(s, tiles) is Some,
        counters_complete(s),
    ensures
        pay_frame(s, rules::hit_tiles(s, tiles)->0),
        forall|j: int, m: int|
            0 <= j < tiles.len() && 0 <= m < 6 && tiles[j] != s.robber && rules::tile_of(s, tiles[j]).kind_of()
                != TileKind::Empty && #[trigger] rules::point_of(s, tile_corners(#[trigger] tiles[j])[m]).owner is Some ==> {
                let o = rules::point_of(s, tile_corners(tiles[j])[m]).owner->0;
                &&& o < s.players.len()
                &&& rules::tile_of(s, tiles[j]).kind_of().id() < TILE_KINDS
                &&& (rules::hit_tiles(s, tiles)->0).players[o as int].resources[rules::tile_of(s, tiles[j]).kind_of().id()]
                    == 20
            },
    decreases tiles.len(),
{
    if tiles.len() > 0 {
        let init = tiles.drop_last();
        lemma_tiles_pay(s, init);
        let s1 = rules::hit_tiles(s, init)->0;
        let s2 = rules::hit_tiles(s, tiles)->0;
        let c = tiles.last();
        let t = rules::tile_of(s1, c);
        if t.kind_of() != TileKind::Empty && c != s1.robber {
            lemma_corners_pay(s1, tile_corners(c), t.kind_of());
            lemma_pay_frame_trans(s, s1, s2);
        } else {
            assert(pay_frame(s1, s2));
        }
        assert forall|j: int, m: int|
            0 <= j < tiles.len() && 0 <= m < 6 && tiles[j] != s.robber && rules::tile_of(s, tiles[j]).kind_of()
                != TileKind::Empty && #[trigger] rules::point_of(s, tile_corners(#[trigger] tiles[j])[m]).owner is Some implies {
                let o = rules::point_of(s, tile_corners(tiles[j])[m]).owner->0;
                &&& o < s.players.len()
                &&& rules::tile_of(s, tiles[j]).kind_of().id() < TILE_KINDS
                &&& s2.players[o as int].resources[rules::tile_of(s, tiles[j]).kind_of().id()] == 20
            } by {
            let o = rules::point_of(s, tile_corners(tiles[j])[m]).owner->0;
            if j < init.len() {
                assert(init[j] == tiles[j]);
                assert(rules::point_of(s, tile_corners(init[j])[m]).owner is Some);
                assert(rules::tile_of(s, tiles[j]).kind_of().id() < TILE_KINDS);
                assert(s1.players[o as int].resources[rules::tile_of(s, tiles[j]).kind_of().id()] == 20);
                assert(counters_complete(s1));
            } else {
                assert(tiles[j] == c);
                assert(tile_corners(c)[m] == tile_corners(tiles[j])[m]);
                assert(s1.robber == s.robber && s1.tiles == s.tiles && s1.points == s.points);
                assert(rules::tile_of(s1, c) == rules::tile_of(s, c));
                assert(c != s1.robber);
                assert(rules::point_of(s1, tile_corners(c)[m]).owner is Some);
                assert(s2 == rules::hit_corners(s1, tile_corners(c), rules::tile_of(s1, c).kind_of())->0);
                assert(s2.players[o as int].resources[rules::tile_of(s1, c).kind_of().id()] == 20);
            }
        }
    } else {
        assert(pay_frame(s, s));
    }
}

/// A roll of the dice pays every owner of a corner of each tile of its
/// number that is not empty and not under the robber: the owner's counter
/// of the tile's kind is offered, which sets it to twenty.
pub proof fn lemma_roll_pays_owners(s: GameState, d: usize, roll: usize, s2: GameState)
    requires
        rules::update(s, GameUpdate::HitDice(d), roll) == Some((s2, Ok::<(), GameError>(()))),
        counters_complete(s),
    ensures
        s2.players.len() == s.players.len(),
        forall|j: int, m: int|
            0 <= j < s.dice[d]@.len() && 0 <= m < 6 && s.dice[d]@[j] != s.robber
                && s.tiles[s.dice[d]@[j].x as int][s.dice[d]@[j].y as int].kind_of() != TileKind::Empty && ({
                let pt = #[trigger] tile_corners(#[trigger] s.dice[d]@[j])[m];
                s.points[pt.x as int][pt.y as int].owner is Some
            }) ==> {
                let pt = tile_corners(s.dice[d]@[j])[m];
                let o = s.points[pt.x as int][pt.y as int].owner->0;
                let kind = s.tiles[s.dice[d]@[j].x as int][s.dice[d]@[j].y as int].kind_of();
                &&& o < s.players.len()
                &&& s2.players[o as int].resources[kind.id()] == 20
            },
{
    let tiles = s.dice[d]@;
    lemma_tiles_pay(s, tiles);
    assert forall|j: int, m: int|
        0 <= j < s.dice[d]@.len() && 0 <= m < 6 && s.dice[d]@[j] != s.robber
            && s.tiles[s.dice[d]@[j].x as int][s.dice[d]@[j].y as int].kind_of() != TileKind::Empty && ({
            let pt = #[trigger] tile_corners(#[trigger] s.dice[d]@[j])[m];
            s.points[pt.x as int][pt.y as int].owner is Some
        }) implies {
            let pt = tile_corners(s.dice[d]@[j])[m];
            let o = s.points[pt.x as int][pt.y as int].owner->0;
            let kind = s.tiles[s.dice[d]@[j].x as int][s.dice[d]@[j].y as int].kind_of();
            &&& o < s.players.len()
            &&& s2.players[o as int].resources[kind.id()] == 20
        } by {
        assert(tiles[j] == s.dice[d]@[j]);
        assert(rules::point_of(s, tile_corners(tiles[j])[m]).owner is Some);
    }
}

} // verus!
