use boardgame::catan::data::CatanDataSetup;
use boardgame::catan::element::{
    BuildCity, BuildRoad, BuildSettlement, BuyDevelopmentCard, DevCard, DevelopmentCard, GameMsg,
    TileKind, UseDevelopmentCard,
};
use boardgame::catan::game::{Catan, GameUpdate};
use boardgame::element::{Coordinate, Line};

struct TestPlayer {
    name: String,
}

impl TestPlayer {
    fn new(name: String) -> Self {
        Self { name }
    }
}

fn pop_msg_and_assert<P>(game: &mut Catan<P>, expected: GameMsg) {
    let msg = game.broadcast.pop().unwrap();

    println!("{:?}", msg);
    assert_eq!(msg, expected);
}

fn pop_player_msg_and_assert<P>(game: &mut Catan<P>, i: usize, expected: GameMsg) {
    let msg = game.players[i].message.pop().unwrap();

    println!("{:?}", msg);
    assert_eq!(msg, expected);
}

#[test]
fn test_game() {
    let player1 = TestPlayer::new("Player1".to_string());
    let player2 = TestPlayer::new("Player2".to_string());

    let mut game = Catan::new(vec![player1, player2], CatanDataSetup::Basic);

    let build = BuildSettlement {
        player: 0,
        point: Coordinate::new(1, 1),
    };
    game.update(GameUpdate::BuildSettlement(build.clone()))
        .unwrap().unwrap();
    pop_msg_and_assert(&mut game, GameMsg::PlayerBuildSettlement(build.clone()));

    let build = BuildRoad {
        player: 0,
        road: Line {
            start: Coordinate::new(1, 1),
            end: Coordinate::new(1, 2),
        },
    };
    game.update(GameUpdate::BuildRoad(build.clone())).unwrap().unwrap();
    pop_msg_and_assert(&mut game, GameMsg::PlayerBuildRoad(build.clone()));

    let build = BuildSettlement {
        player: 1,
        point: Coordinate::new(1, 1),
    };
    game.update(GameUpdate::BuildSettlement(build.clone()))
        .unwrap()
        .expect_err("duplicate build");

    let build = BuildRoad {
        player: 1,
        road: Line {
            start: Coordinate::new(1, 1),
            end: Coordinate::new(1, 2),
        },
    };
    game.update(GameUpdate::BuildRoad(build.clone()))
        .unwrap()
        .expect_err("duplicate build");

    let build = BuildSettlement {
        player: 1,
        point: Coordinate::new(1, 2),
    };
    game.update(GameUpdate::BuildSettlement(build.clone()))
        .unwrap()
        .expect_err("impossible build");

    let build = BuildSettlement {
        player: 1,
        point: Coordinate::new(1, 3),
    };
    game.update(GameUpdate::BuildSettlement(build.clone()))
        .unwrap().unwrap();
    pop_msg_and_assert(&mut game, GameMsg::PlayerBuildSettlement(build.clone()));

    let build = BuildRoad {
        player: 1,
        road: Line {
            start: Coordinate::new(1, 3),
            end: Coordinate::new(2, 3),
        },
    };
    game.update(GameUpdate::BuildRoad(build.clone())).unwrap().unwrap();
    pop_msg_and_assert(&mut game, GameMsg::PlayerBuildRoad(build.clone()));

    let build = BuildSettlement {
        player: 0,
        point: Coordinate::new(1, 5),
    };
    game.update(GameUpdate::BuildSettlement(build.clone()))
        .unwrap().unwrap();
    pop_msg_and_assert(&mut game, GameMsg::PlayerBuildSettlement(build.clone()));

    let build = BuildRoad {
        player: 0,
        road: Line {
            start: Coordinate::new(1, 5),
            end: Coordinate::new(1, 6),
        },
    };
    game.update(GameUpdate::BuildRoad(build.clone())).unwrap().unwrap();
    pop_msg_and_assert(&mut game, GameMsg::PlayerBuildRoad(build.clone()));

    let build = BuildSettlement {
        player: 1,
        point: Coordinate::new(3, 5),
    };
    game.update(GameUpdate::BuildSettlement(build.clone()))
        .unwrap().unwrap();
    pop_msg_and_assert(&mut game, GameMsg::PlayerBuildSettlement(build.clone()));

    let build = BuildRoad {
        player: 1,
        road: Line {
            start: Coordinate::new(3, 5),
            end: Coordinate::new(3, 6),
        },
    };
    game.update(GameUpdate::BuildRoad(build.clone())).unwrap().unwrap();
    pop_msg_and_assert(&mut game, GameMsg::PlayerBuildRoad(build.clone()));

    game.is_initialized = true;

    let build = BuildSettlement {
        player: 0,
        point: Coordinate::new(1, 7),
    };
    game.update(GameUpdate::BuildSettlement(build.clone()))
        .unwrap()
        .expect_err("no road");

    let build = BuildRoad {
        player: 0,
        road: Line {
            start: Coordinate::new(1, 6),
            end: Coordinate::new(1, 7),
        },
    };
    game.update(GameUpdate::BuildRoad(build.clone()))
        .unwrap()
        .expect_err("no resource");
    game.players[0].base.resources[TileKind::Brick as usize] += 1;
    game.players[0].base.resources[TileKind::Wood as usize] += 1;

    let build = BuildRoad {
        player: 0,
        road: Line {
            start: Coordinate::new(1, 6),
            end: Coordinate::new(1, 7),
        },
    };
    game.update(GameUpdate::BuildRoad(build.clone())).unwrap().unwrap();
    pop_msg_and_assert(&mut game, GameMsg::PlayerBuildRoad(build.clone()));

    game.players[0].base.resources[TileKind::Brick as usize] += 1;
    game.players[0].base.resources[TileKind::Wood as usize] += 1;
    game.players[0].base.resources[TileKind::Wool as usize] += 1;
    game.players[0].base.resources[TileKind::Grain as usize] += 1;

    let build = BuildSettlement {
        player: 0,
        point: Coordinate::new(1, 7),
    };
    game.update(GameUpdate::BuildSettlement(build.clone()))
        .unwrap().unwrap();
    pop_msg_and_assert(&mut game, GameMsg::PlayerBuildSettlement(build.clone()));
    assert_eq!(game.players[0].base.score, 3);
    assert_eq!(game.players[0].base.get_longest_road(), 2);
    assert_eq!(game.players[1].base.score, 2);

    let build = BuyDevelopmentCard {
        player: 0,
        card: None,
    };
    game.update(GameUpdate::BuyDevelopmentCard(build.clone()))
        .unwrap()
        .expect_err("no resource");

    game.players[0].base.resources[TileKind::Stone as usize] += 1;
    game.players[0].base.resources[TileKind::Wool as usize] += 1;
    game.players[0].base.resources[TileKind::Grain as usize] += 1;
    game.update(GameUpdate::BuyDevelopmentCard(build.clone()))
        .unwrap().unwrap();
    pop_msg_and_assert(&mut game, GameMsg::PlayerBuyDevelopmentCard(build.clone()));
    let card = BuyDevelopmentCard {
        player: 0,
        card: Some({
            let mut card = DevCard::Knight;
            for i in 0..game.players[0].base.cards.len() {
                if game.players[0].base.cards[i] > 0 {
                    card = DevCard::try_from(i as u8).unwrap();
                }
            }
            card
        }),
    };
    pop_player_msg_and_assert(
        &mut game,
        0,
        GameMsg::PlayerBuyDevelopmentCard(card.clone()),
    );

    let build = UseDevelopmentCard {
        player: 0,
        card: DevCard::YearOfPlenty,
        usage: DevelopmentCard::YearOfPlenty(TileKind::Stone, TileKind::Stone),
    };
    if card.card.unwrap() == DevCard::YearOfPlenty {
        game.update(GameUpdate::UseDevelopmentCard(build.clone()))
            .unwrap()
            .unwrap();
        pop_msg_and_assert(
            &mut game,
            GameMsg::PlayerUseDevelopmentCard(build.clone()),
        );
    } else {
        game.update(GameUpdate::UseDevelopmentCard(build.clone()))
            .unwrap()
        .expect_err("no card");
    }

    game.players[0].base.resources[TileKind::Stone as usize] += 3;
    game.players[0].base.resources[TileKind::Grain as usize] += 2;

    let build = BuildCity {
        player: 0,
        point: Coordinate::new(1, 7),
    };
    game.update(GameUpdate::BuildCity(build.clone())).unwrap().unwrap();
    pop_msg_and_assert(&mut game, GameMsg::PlayerBuildCity(build.clone()));

    game.players[0].base.resources[TileKind::Stone as usize] += 3;
    game.players[0].base.resources[TileKind::Grain as usize] += 2;

    let build = BuildCity {
        player: 0,
        point: Coordinate::new(1, 5),
    };
    game.update(GameUpdate::BuildCity(build.clone())).unwrap().unwrap();
    pop_msg_and_assert(&mut game, GameMsg::PlayerBuildCity(build.clone()));

    game.players[0].base.resources[TileKind::Stone as usize] += 3;
    game.players[0].base.resources[TileKind::Grain as usize] += 2;

    let build = BuildCity {
        player: 0,
        point: Coordinate::new(1, 1),
    };
    game.update(GameUpdate::BuildCity(build.clone())).unwrap().unwrap();
    pop_msg_and_assert(&mut game, GameMsg::PlayerBuildCity(build.clone()));

    assert_eq!(game.players[0].base.score, 6);
    assert_eq!(game.players[0].base.get_longest_road(), 2);
    assert_eq!(game.players[1].base.score, 2);

    game.players[0].base.resources[TileKind::Brick as usize] += 1;
    game.players[0].base.resources[TileKind::Wood as usize] += 1;

    let build = BuildRoad {
        player: 0,
        road: Line {
            start: Coordinate::new(0, 6),
            end: Coordinate::new(1, 6),
        },
    };
    game.update(GameUpdate::BuildRoad(build.clone())).unwrap().unwrap();
    pop_msg_and_assert(&mut game, GameMsg::PlayerBuildRoad(build.clone()));

    game.players[0].base.resources[TileKind::Brick as usize] += 1;
    game.players[0].base.resources[TileKind::Wood as usize] += 1;
    let build = BuildRoad {
        player: 0,
        road: Line {
            start: Coordinate::new(0, 6),
            end: Coordinate::new(0, 7),
        },
    };
    game.update(GameUpdate::BuildRoad(build.clone())).unwrap().unwrap();
    pop_msg_and_assert(&mut game, GameMsg::PlayerBuildRoad(build.clone()));

    assert_eq!(game.players[0].base.score, 6);
    assert_eq!(game.players[0].base.get_longest_road(), 3);
    assert_eq!(game.players[1].base.score, 2);

    game.players[0].base.resources[TileKind::Brick as usize] += 1;
    game.players[0].base.resources[TileKind::Wood as usize] += 1;
    let build = BuildRoad {
        player: 0,
        road: Line {
            start: Coordinate::new(0, 7),
            end: Coordinate::new(0, 8),
        },
    };
    game.update(GameUpdate::BuildRoad(build.clone())).unwrap().unwrap();
    pop_msg_and_assert(&mut game, GameMsg::PlayerBuildRoad(build.clone()));

    assert_eq!(game.players[0].base.score, 6);
    assert_eq!(game.players[0].base.get_longest_road(), 4);
    assert_eq!(game.players[1].base.score, 2);

    game.players[0].base.resources[TileKind::Brick as usize] += 1;
    game.players[0].base.resources[TileKind::Wood as usize] += 1;
    let build = BuildRoad {
        player: 0,
        road: Line {
            start: Coordinate::new(0, 8),
            end: Coordinate::new(0, 9),
        },
    };
    game.update(GameUpdate::BuildRoad(build.clone()))
        .unwrap()
        .expect_err("invalid location");

    let build = BuildRoad {
        player: 0,
        road: Line {
            start: Coordinate::new(0, 9),
            end: Coordinate::new(0, 10),
        },
    };
    game.update(GameUpdate::BuildRoad(build.clone()))
        .unwrap()
        .expect_err("invalid location");

    let build = BuildRoad {
        player: 0,
        road: Line {
            start: Coordinate::new(0, 8),
            end: Coordinate::new(1, 8),
        },
    };
    game.update(GameUpdate::BuildRoad(build.clone())).unwrap().unwrap();
    pop_msg_and_assert(&mut game, GameMsg::PlayerBuildRoad(build.clone()));
    assert_eq!(game.players[0].base.score, 6);
    assert_eq!(game.players[0].base.get_longest_road(), 5);
    assert_eq!(game.players[1].base.score, 2);

    game.players[0].base.resources[TileKind::Brick as usize] += 1;
    game.players[0].base.resources[TileKind::Wood as usize] += 1;
    let build = BuildRoad {
        player: 0,
        road: Line {
            start: Coordinate::new(1, 7),
            end: Coordinate::new(1, 8),
        },
    };
    game.update(GameUpdate::BuildRoad(build.clone())).unwrap().unwrap();
    pop_msg_and_assert(&mut game, GameMsg::PlayerBuildRoad(build.clone()));
    assert_eq!(game.players[0].base.score, 6);
    assert_eq!(game.players[0].base.get_longest_road(), 7);
    assert_eq!(game.players[1].base.score, 2);

    game.players[0].base.resources[TileKind::Brick as usize] += 1;
    game.players[0].base.resources[TileKind::Wood as usize] += 1;
    let build = BuildRoad {
        player: 0,
        road: Line {
            start: Coordinate::new(1, 8),
            end: Coordinate::new(1, 9),
        },
    };
    game.update(GameUpdate::BuildRoad(build.clone())).unwrap().unwrap();
    pop_msg_and_assert(&mut game, GameMsg::PlayerBuildRoad(build.clone()));
    assert_eq!(game.players[0].base.score, 6);
    assert_eq!(game.players[0].base.get_longest_road(), 7);
    assert_eq!(game.players[1].base.score, 2);

    game.players[0].base.resources[TileKind::Brick as usize] += 1;
    game.players[0].base.resources[TileKind::Wood as usize] += 1;
    let build = BuildRoad {
        player: 0,
        road: Line {
            start: Coordinate::new(1, 9),
            end: Coordinate::new(1, 10),
        },
    };
    game.update(GameUpdate::BuildRoad(build.clone()))
        .unwrap()
        .expect_err("invalid position");

    game.check_longest_road();
    assert_eq!(game.players[0].base.score, 8);
    assert_eq!(game.players[0].base.get_longest_road(), 7);
    assert_eq!(game.players[1].base.score, 2);
    assert_eq!(game.players[0].inner.name, "Player1");
    assert_eq!(game.players[1].inner.name, "Player2");
}
