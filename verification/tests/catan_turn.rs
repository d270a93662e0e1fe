use boardgame::catan::data::CatanDataSetup;
use boardgame::catan::element::{GameAct, GameMsg, TradeRequest, TradeResponse, TradeTarget, TileKind};
use boardgame::catan::turn::{CatanGame, Draw, Fault, Outgoing, Prompt};
use boardgame::element::Coordinate;

fn c(x: usize, y: usize) -> Coordinate {
    Coordinate::new(x, y)
}

const LOW: Draw = Draw { first: 0, second: 0, steal: 0 };
const SEVEN: Draw = Draw { first: 2, second: 3, steal: 0 };
const HIGH: Draw = Draw { first: 5, second: 5, steal: 0 };

fn told(out: &[Outgoing], msg: &GameMsg) -> bool {
    out.iter().any(|o| matches!(o, Outgoing::All(m) if m == msg))
}

fn act(g: &mut CatanGame<&str>, a: GameAct, d: Draw) -> (Vec<Outgoing>, Prompt) {
    g.step_with(a, d).unwrap()
}

/// Plays the setup of a two player game, on the points the game test uses.
fn set_up() -> CatanGame<&'static str> {
    let (mut g, out, prompt) = CatanGame::new(vec!["a", "b"], CatanDataSetup::Basic);
    assert_eq!(prompt, Prompt::Act(0));
    assert_eq!(out.len(), 3);
    assert!(matches!(&out[0], Outgoing::One(0, GameMsg::GameStart(s)) if s.you == 0 && s.players.len() == 2));
    assert!(matches!(&out[1], Outgoing::One(1, GameMsg::GameStart(s)) if s.you == 1));
    assert!(told(&out, &GameMsg::PlayerInit(0)));

    let (out, p) = act(&mut g, GameAct::BuildSettlement(c(1, 1)), LOW);
    assert_eq!(p, Prompt::Act(0));
    assert_eq!(out.len(), 1);
    let (out, p) = act(&mut g, GameAct::BuildRoad(c(1, 1), c(1, 2)), LOW);
    assert_eq!(p, Prompt::Act(1));
    assert!(told(&out, &GameMsg::PlayerInit(1)));
    let (_, p) = act(&mut g, GameAct::BuildSettlement(c(1, 3)), LOW);
    assert_eq!(p, Prompt::Act(1));
    let (out, p) = act(&mut g, GameAct::BuildRoad(c(1, 3), c(2, 3)), LOW);
    assert_eq!(p, Prompt::Act(1));
    assert!(told(&out, &GameMsg::PlayerInit(1)));
    let (_, p) = act(&mut g, GameAct::BuildSettlement(c(3, 5)), LOW);
    assert_eq!(p, Prompt::Act(1));
    let (out, p) = act(&mut g, GameAct::BuildRoad(c(3, 5), c(3, 6)), LOW);
    assert_eq!(p, Prompt::Act(0));
    assert!(told(&out, &GameMsg::PlayerInit(0)));
    let (_, p) = act(&mut g, GameAct::BuildSettlement(c(1, 5)), LOW);
    assert_eq!(p, Prompt::Act(0));
    let (out, p) = act(&mut g, GameAct::BuildRoad(c(1, 5), c(1, 6)), LOW);
    assert_eq!(p, Prompt::Act(0));
    assert!(told(&out, &GameMsg::PlayerTurn(0)));
    assert!(told(&out, &GameMsg::PlayerRollDice(2)));
    g
}

#[test]
fn setup_then_turns() {
    let mut g = set_up();
    assert!(g.game().is_initialized);
    assert_eq!(g.game().players[0].base.score, 2);
    assert_eq!(g.game().players[1].base.score, 2);
    assert_eq!(g.game().players[1].base.roads[0].start, c(2, 3));
    let (out, p) = act(&mut g, GameAct::EndTurn, HIGH);
    assert_eq!(p, Prompt::Act(1));
    assert!(told(&out, &GameMsg::PlayerEndTurn(0)));
    assert!(told(&out, &GameMsg::PlayerTurn(1)));
    assert!(told(&out, &GameMsg::PlayerRollDice(12)));
    assert_eq!(g.game().current_player, 1);
}

#[test]
fn seven_moves_the_robber() {
    let mut g = set_up();
    let (out, p) = act(&mut g, GameAct::EndTurn, SEVEN);
    assert_eq!(p, Prompt::Act(1));
    assert!(told(&out, &GameMsg::PlayerRollDice(7)));
    assert_eq!(g.step_with(GameAct::EndTurn, LOW).unwrap_err(), Fault::UnexpectedAction);

    let mut g = set_up();
    act(&mut g, GameAct::EndTurn, SEVEN);
    let (_, p) = act(&mut g, GameAct::SelectRobber((None, c(2, 2))), LOW);
    assert_eq!(p, Prompt::Act(1));
    assert_eq!(g.game().inner.robber(), c(2, 2));
    let (out, p) = act(&mut g, GameAct::EndTurn, LOW);
    assert_eq!(p, Prompt::Act(0));
    assert!(told(&out, &GameMsg::PlayerEndTurn(1)));
}

#[test]
fn trade_requests_ask_the_others() {
    let mut g = set_up();
    let request = TradeRequest::new(vec![(TileKind::Wood, 1)], vec![(TileKind::Brick, 1)], TradeTarget::Player);
    let (out, p) = act(&mut g, GameAct::TradeRequest(request.clone()), LOW);
    assert_eq!(p, Prompt::Act(1));
    assert!(told(&out, &GameMsg::PlayerTradeRequest((0, request))));
    let (out, p) = act(&mut g, GameAct::TradeResponse(TradeResponse::Reject), LOW);
    assert_eq!(p, Prompt::Act(0));
    assert!(told(&out, &GameMsg::PlayerTradeResponse((1, TradeResponse::Reject))));
    let (out, p) = act(&mut g, GameAct::TradeConfirm(None), LOW);
    assert_eq!(p, Prompt::Act(0));
    assert!(told(&out, &GameMsg::PlayerTrade(None)));

    let bank = TradeRequest::new(vec![(TileKind::Wood, 4)], vec![(TileKind::Brick, 1)], TradeTarget::Bank);
    act(&mut g, GameAct::TradeRequest(bank.clone()), LOW);
    act(&mut g, GameAct::TradeRequest(bank.clone()), LOW);
    assert!(!g.allows(&GameAct::TradeRequest(bank)));
    assert!(g.allows(&GameAct::EndTurn));
}

#[test]
fn confirming_a_refusal_stops() {
    let mut g = set_up();
    let request = TradeRequest::new(vec![(TileKind::Wood, 1)], vec![(TileKind::Brick, 1)], TradeTarget::Player);
    act(&mut g, GameAct::TradeRequest(request), LOW);
    act(&mut g, GameAct::TradeResponse(TradeResponse::Reject), LOW);
    assert_eq!(g.step_with(GameAct::TradeConfirm(Some(1)), LOW).unwrap_err(), Fault::TradeRejected);

    let mut g = set_up();
    let request = TradeRequest::new(vec![(TileKind::Wood, 1)], vec![(TileKind::Brick, 1)], TradeTarget::Player);
    act(&mut g, GameAct::TradeRequest(request), LOW);
    act(&mut g, GameAct::TradeResponse(TradeResponse::Reject), LOW);
    assert_eq!(g.step_with(GameAct::TradeConfirm(Some(0)), LOW).unwrap_err(), Fault::InvalidPlayerIndex);

    let mut g = set_up();
    let request = TradeRequest::new(vec![(TileKind::Wood, 1)], vec![(TileKind::Brick, 1)], TradeTarget::Player);
    act(&mut g, GameAct::TradeRequest(request), LOW);
    assert_eq!(g.step_with(GameAct::EndTurn, LOW).unwrap_err(), Fault::UnexpectedTradeResponse);
}

#[test]
fn setup_takes_only_settlements_then_roads() {
    let (mut g, _, _) = CatanGame::new(vec!["a"], CatanDataSetup::Basic);
    assert_eq!(g.step_with(GameAct::BuildCity(c(1, 1)), LOW).unwrap_err(), Fault::UnexpectedAction);
    let (mut g, _, _) = CatanGame::new(vec!["a"], CatanDataSetup::Basic);
    act(&mut g, GameAct::BuildSettlement(c(1, 1)), LOW);
    assert_eq!(
        g.step_with(GameAct::BuildSettlement(c(1, 3)), LOW).unwrap_err(),
        Fault::UnexpectedAction
    );
}

#[test]
fn a_card_needs_a_card() {
    let mut g = set_up();
    let err = g
        .step_with(
            GameAct::UseDevelopmentCard((
                boardgame::catan::element::DevCard::Monopoly,
                boardgame::catan::element::DevelopmentCard::Monopoly(TileKind::Wood),
            )),
            LOW,
        )
        .unwrap_err();
    assert_eq!(err, Fault::Refused(boardgame::catan::rules::GameError::CardNotFound));
}

#[test]
fn ignored_actions_keep_the_turn() {
    let mut g = set_up();
    let (out, p) = act(&mut g, GameAct::StealResource(1), LOW);
    assert_eq!(p, Prompt::Act(0));
    assert!(out.is_empty());
    let (_, p) = act(&mut g, GameAct::BuildCity(c(0, 0)), LOW);
    assert_eq!(p, Prompt::Act(0));
    assert_eq!(g.seat(1), &"b");
    assert_eq!(g.player_count(), 2);
}

#[test]
fn the_starting_board_is_dealt_in_full() {
    for _ in 0..20 {
        let (_, out, _) = CatanGame::new(vec!["a", "b"], CatanDataSetup::Basic);
        let start = match &out[0] {
            Outgoing::One(0, GameMsg::GameStart(s)) => s,
            _ => panic!("the first message is the start of the game"),
        };
        let land = |x: usize, y: usize| match x {
            0 | 4 => (1..=3).contains(&y),
            1 | 3 => y <= 3,
            _ => y <= 4,
        };
        let r = start.robber;
        assert_eq!(start.tile[r.x][r.y].kind(), TileKind::Dessert);
        assert_eq!(start.tile[r.x][r.y].number(), None);
        assert_eq!(start.dice_map.get(&7), Some(&vec![r]));
        let counts = [0usize, 0, 1, 2, 2, 2, 2, 1, 2, 2, 2, 2, 1];
        for k in 0..13usize {
            match start.dice_map.get(&k) {
                Some(list) => assert_eq!(list.len(), counts[k]),
                None => assert_eq!(counts[k], 0),
            }
        }
        assert_eq!(start.dice_map.len(), 11);
        let mut seen = Vec::new();
        for x in 0..5 {
            for y in 0..5 {
                let t = start.tile[x][y];
                if !land(x, y) {
                    assert_eq!(t.kind(), TileKind::Empty);
                    assert_eq!(t.number(), None);
                } else if c(x, y) != r {
                    let n = t.number().unwrap();
                    assert!(start.dice_map[&n].contains(&c(x, y)));
                    seen.push(c(x, y));
                }
            }
        }
        assert_eq!(seen.len(), 18);
        assert_eq!(start.harbor.len(), 9);
    }
}
