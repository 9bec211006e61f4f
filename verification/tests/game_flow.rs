use sasquatch_engine::action::{Action, ThingamabobParams};
use sasquatch_engine::card::{CardId, CardKind, NastyEffect, NastyKind, PlayerId, ThingamabobEffect, ThingamabobKind, Tier, ALL_TIERS};
use sasquatch_engine::deck::{DeckConfig, RawCreatureTier, RawDeckConfig, RawNasty, RawThingamabob};
use sasquatch_engine::game::{Event, GameMode, GameState, PinError, RulesError, SetupError};

const TEST_DECK_TOML: &str = r#"
    [[creature_tiers]]
    tier = "Giant"
    set_size = 1
    copies = 12

    [[creature_tiers]]
    tier = "Big"
    set_size = 2
    copies = 24

    [[creature_tiers]]
    tier = "Medium"
    set_size = 3
    copies = 27

    [[creature_tiers]]
    tier = "Tiny"
    set_size = 4
    copies = 24

    [[nasties]]
    name = "Poison Pill Bug"
    set_size = 2
    copies = 24
    effect = "buyer_may_steal_up_to_1_card"

    [[nasties]]
    name = "Loan Shark"
    set_size = 2
    copies = 24
    effect = "buyer_may_steal_up_to_2_cards"

    [[nasties]]
    name = "Trojan Horse"
    set_size = 3
    copies = 27
    effect = "buyer_steals_1_point_token"

    [[thingamabobs]]
    name = "Platonic Isolator"
    copies = 18
    effect = "steal_point_token_from_richer_player"

    [[thingamabobs]]
    name = "Detrital Repositioner"
    copies = 18
    effect = "remove_1_card_from_1_deal"

    [[thingamabobs]]
    name = "Super Detrital Repositioner"
    copies = 18
    effect = "remove_up_to_2_cards_from_1_or_2_deals"

    [[thingamabobs]]
    name = "Cryptozooptic Expander"
    copies = 18
    effect = "add_hidden_hand_card_to_deal"

    [[thingamabobs]]
    name = "Spectroelectric Optimeter"
    copies = 18
    effect = "reveal_1_card_in_a_deal"
"#;

const TINY_DECK_TOML: &str = r#"
    nasties = []
    thingamabobs = []

    [[creature_tiers]]
    tier = "Giant"
    set_size = 1
    copies = 13
"#;

/// Reads a deck config written as TOML into the raw rows and builds it.
fn deck_from_toml(text: &str) -> DeckConfig {
    let table: toml::Table = text.parse().unwrap();
    let rows = |key: &str| -> Vec<toml::Value> {
        table.get(key).and_then(|v| v.as_array()).cloned().unwrap_or_default()
    };
    let text_of = |row: &toml::Value, key: &str| row.get(key).unwrap().as_str().unwrap().to_string();
    let num_of = |row: &toml::Value, key: &str| row.get(key).unwrap().as_integer().unwrap() as u32;
    let raw = RawDeckConfig {
        creature_tiers: rows("creature_tiers")
            .iter()
            .map(|r| RawCreatureTier { tier: text_of(r, "tier"), set_size: num_of(r, "set_size"), copies: num_of(r, "copies") })
            .collect(),
        nasties: rows("nasties")
            .iter()
            .map(|r| RawNasty {
                name: text_of(r, "name"),
                set_size: num_of(r, "set_size"),
                copies: num_of(r, "copies"),
                effect: text_of(r, "effect"),
            })
            .collect(),
        thingamabobs: rows("thingamabobs")
            .iter()
            .map(|r| RawThingamabob { name: text_of(r, "name"), copies: num_of(r, "copies"), effect: text_of(r, "effect") })
            .collect(),
    };
    DeckConfig::from_raw(raw).unwrap()
}

fn test_deck() -> DeckConfig {
    deck_from_toml(TEST_DECK_TOML)
}

fn new_test_game(num_players: usize, seed: u64) -> GameState {
    GameState::new(num_players, test_deck(), seed).unwrap()
}

fn supply_of(game: &GameState, kind: CardKind) -> u32 {
    game.kind_supply().into_iter().find(|(k, _)| *k == kind).map(|(_, n)| n).unwrap()
}

fn hand_cards_of_kind(game: &GameState, player: PlayerId, kind: CardKind) -> Vec<CardId> {
    game.player_hand(player).iter().copied().filter(|&c| game.card_kind(c) == Some(kind)).collect()
}

fn auto_play_deal_offers(game: &mut GameState) -> Vec<Event> {
    let mut events = Vec::new();
    while game.current_phase() == "deal_offer_submit" || game.current_phase() == "deal_offer_reveal" {
        let players = game.active_players();
        let player = players[0];
        let actions = game.legal_actions(player);
        let action = actions.into_iter().next().expect("no legal deal-offer action");
        events.extend(game.apply_action(player, action).unwrap());
    }
    events
}

fn auto_pass_thingamabob_window(game: &mut GameState) -> Vec<Event> {
    let mut events = Vec::new();
    while game.current_phase() == "thingamabob_window" {
        let player = game.active_players()[0];
        events.extend(game.apply_action(player, Action::PassThingamabobWindow).unwrap());
    }
    events
}

fn stash_cards_of_kind_in_collection(game: &mut GameState, kind: CardKind, count: usize) -> Option<PlayerId> {
    assert!(game.current_phase() == "deal_offer_submit", "must be called at the start of a turn");
    let buyer = game.turn_leader();
    let mut target_seller = None;
    while game.current_phase().starts_with("deal_offer") {
        let player = game.active_players()[0];
        if game.current_phase() == "deal_offer_submit" {
            let matching = hand_cards_of_kind(game, player, kind);
            let action = if player != buyer && matching.len() >= count && target_seller.is_none() {
                target_seller = Some(player);
                let mut cards: Vec<_> = matching.into_iter().take(count).collect();
                while cards.len() < 3 {
                    let filler = game.player_hand(player).iter().copied().find(|c| !cards.contains(c)).unwrap();
                    cards.push(filler);
                }
                cards.truncate(3);
                Action::SubmitDeal { cards: [cards[0], cards[1], cards[2]] }
            } else {
                game.legal_actions(player).into_iter().next().unwrap()
            };
            game.apply_action(player, action).unwrap();
        } else {
            let action = game.legal_actions(player).into_iter().next().unwrap();
            game.apply_action(player, action).unwrap();
        }
    }
    if game.current_phase() == "buyer_peek" {
        let peek = game.legal_actions(buyer)[0].clone();
        game.apply_action(buyer, peek).unwrap();
    }
    auto_pass_thingamabob_window(game);
    if game.current_phase() == "buyer_chooses_deal" {
        let options = game.legal_actions(buyer);
        let other = target_seller
            .and_then(|seller| {
                options.iter().find_map(|a| {
                    if let Action::ChooseDeal { seller: s } = a {
                        if *s != seller {
                            Some(*s)
                        } else {
                            None
                        }
                    } else {
                        None
                    }
                })
            })
            .unwrap_or_else(|| if let Action::ChooseDeal { seller } = options[0] { seller } else { unreachable!() });
        game.apply_action(buyer, Action::ChooseDeal { seller: other }).unwrap();
    } else if game.current_phase() == "respond_to_deal" {
        let responder = game.active_players()[0];
        game.apply_action(responder, Action::RespondToDeal { reverse: false }).unwrap();
    }
    while game.current_phase() == "nasty_resolution" {
        let resolver = game.active_players()[0];
        game.apply_action(resolver, Action::ResolveNastyPenalty { taken_cards: vec![] }).unwrap();
    }
    target_seller
}

fn advance_thingamabob_window_to_player(game: &mut GameState, target: PlayerId) {
    while game.current_phase() == "thingamabob_window" && game.active_players()[0] != target {
        let player = game.active_players()[0];
        game.apply_action(player, Action::PassThingamabobWindow).unwrap();
    }
}

fn find_thingamabob_action(
    game: &GameState,
    player: PlayerId,
    mut pred: impl FnMut(&ThingamabobParams) -> bool,
) -> Option<Action> {
    game.legal_actions(player).into_iter().find(|a| matches!(a, Action::PlayThingamabob { params, .. } if pred(params)))
}

fn peek_if_needed(game: &mut GameState) {
    if game.current_phase() == "buyer_peek" {
        let leader = game.turn_leader();
        let peek = game.legal_actions(leader)[0].clone();
        game.apply_action(leader, peek).unwrap();
    }
}

// ---------------------------------------------------------------- buyer mode

#[test]
fn deal_offer_reveal_peek_and_choose_sequencing() {
    let mut game = new_test_game(4, 1);
    let buyer = game.turn_leader();
    assert_eq!(game.current_phase(), "deal_offer_submit");

    let mut sellers_seen = Vec::new();
    while game.current_phase().starts_with("deal_offer") {
        let player = game.active_players()[0];
        assert_ne!(player, buyer, "the Buyer never submits a deal in Buyer mode");
        if !sellers_seen.contains(&player) {
            sellers_seen.push(player);
        }
        let action = game.legal_actions(player).into_iter().next().unwrap();
        game.apply_action(player, action).unwrap();
    }
    assert_eq!(sellers_seen.len(), 3);

    assert_eq!(game.current_phase(), "buyer_peek");
    let peek_targets = game.legal_actions(buyer);
    assert_eq!(peek_targets.len(), 3, "buyer may peek into any of the 3 sellers' deals");
    let Action::BuyerPeek { target_seller } = peek_targets[0] else { panic!() };
    let events = game.apply_action(buyer, Action::BuyerPeek { target_seller }).unwrap();
    assert!(matches!(events[0], Event::BuyerPeeked { .. }));

    assert_eq!(game.current_phase(), "thingamabob_window");
    assert_eq!(game.active_players(), vec![buyer]);
    auto_pass_thingamabob_window(&mut game);

    assert_eq!(game.current_phase(), "buyer_chooses_deal");
    assert_eq!(game.active_players(), vec![buyer]);
    let choose_options = game.legal_actions(buyer);
    assert_eq!(choose_options.len(), 3);
}

#[test]
fn choosing_a_deal_distributes_collections_and_passes_marker() {
    let mut game = new_test_game(3, 2);
    let old_buyer = game.turn_leader();
    auto_play_deal_offers(&mut game);
    let target = game.legal_actions(old_buyer)[0].clone();
    let Action::BuyerPeek { target_seller: _ } = target else { panic!() };
    game.apply_action(old_buyer, target).unwrap();
    auto_pass_thingamabob_window(&mut game);

    let Action::ChooseDeal { seller: chosen } = game.legal_actions(old_buyer)[0].clone() else { panic!() };
    let other_seller = (0..3).find(|&p| p != old_buyer && p != chosen).unwrap();

    let events = game.apply_action(old_buyer, Action::ChooseDeal { seller: chosen }).unwrap();

    assert!(events.iter().any(|e| matches!(e, Event::TurnLeaderPassed { new_leader } if *new_leader == chosen)));
    assert_eq!(game.turn_leader(), chosen, "marker passes to the chosen seller");
    let awarded_to_old_buyer = events.iter().find_map(|e| {
        if let Event::CardsAwarded { player, cards } = e {
            if *player == old_buyer {
                Some(cards.len())
            } else {
                None
            }
        } else {
            None
        }
    });
    assert_eq!(awarded_to_old_buyer, Some(3));
    let awarded_to_other = events.iter().find_map(|e| {
        if let Event::CardsAwarded { player, cards } = e {
            if *player == other_seller {
                Some(cards.len())
            } else {
                None
            }
        } else {
            None
        }
    });
    assert_eq!(awarded_to_other, Some(3), "non-chosen seller keeps their own 3 cards");
}

#[test]
fn nasty_penalty_resolver_is_the_new_buyer_not_the_old_one() {
    let mut game = new_test_game(3, 7);
    let old_buyer = game.turn_leader();
    while game.current_phase().starts_with("deal_offer") {
        let player = game.active_players()[0];
        if game.current_phase() == "deal_offer_submit" {
            let ppb = hand_cards_of_kind(&game, player, CardKind::Nasty(NastyKind::PoisonPillBug));
            let action = if ppb.len() >= 2 {
                let mut cards = ppb;
                cards.truncate(2);
                let filler = game.player_hand(player).iter().copied().find(|c| !cards.contains(c)).unwrap();
                cards.push(filler);
                Action::SubmitDeal { cards: [cards[0], cards[1], cards[2]] }
            } else {
                game.legal_actions(player).into_iter().next().unwrap()
            };
            game.apply_action(player, action).unwrap();
        } else {
            let action = game.legal_actions(player).into_iter().next().unwrap();
            game.apply_action(player, action).unwrap();
        }
    }
    let peek = game.legal_actions(old_buyer)[0].clone();
    game.apply_action(old_buyer, peek).unwrap();
    auto_pass_thingamabob_window(&mut game);
    let Action::ChooseDeal { seller: chosen } = game.legal_actions(old_buyer)[0].clone() else { panic!() };
    game.apply_action(old_buyer, Action::ChooseDeal { seller: chosen }).unwrap();

    if game.current_phase() == "nasty_resolution" {
        assert_eq!(game.turn_leader(), chosen, "new buyer is the chosen seller");
        assert_ne!(game.turn_leader(), old_buyer);
        assert_eq!(game.active_players(), vec![chosen]);
    }
}

// ---------------------------------------------------------- creature trade-in

fn single_tier_deck(tier: Tier, set_size: u32) -> DeckConfig {
    let tier_name = tier.name();
    let text = format!(
        r#"
        nasties = []
        thingamabobs = []

        [[creature_tiers]]
        tier = "{tier_name}"
        set_size = {set_size}
        copies = 40
        "#
    );
    deck_from_toml(&text)
}

#[test]
fn every_creature_tier_completes_a_set_for_exactly_one_point_token() {
    for tier in ALL_TIERS {
        let set_size = match tier {
            Tier::Giant => 1,
            Tier::Big => 2,
            Tier::Medium => 3,
            Tier::Tiny => 4,
        };
        let mut game = GameState::new(3, single_tier_deck(tier, set_size), 1).unwrap();
        let mut found = false;
        for _turn in 0..10 {
            if game.is_game_over() {
                break;
            }
            let buyer = game.turn_leader();
            while game.current_phase().starts_with("deal_offer") {
                let player = game.active_players()[0];
                let action = game.legal_actions(player).into_iter().next().unwrap();
                game.apply_action(player, action).unwrap();
            }
            if game.current_phase() == "buyer_peek" {
                let peek = game.legal_actions(buyer)[0].clone();
                game.apply_action(buyer, peek).unwrap();
            }
            auto_pass_thingamabob_window(&mut game);
            let Action::ChooseDeal { seller: chosen } = game.legal_actions(buyer)[0].clone() else { panic!() };
            let events = game.apply_action(buyer, Action::ChooseDeal { seller: chosen }).unwrap();
            for e in &events {
                if let Event::CreatureSetTradedIn { tier: t, tokens_gained, .. } = e {
                    assert_eq!(*t, tier);
                    assert_eq!(*tokens_gained, 1, "{} set completion must award exactly 1 token", tier.name());
                    found = true;
                }
            }
        }
        assert!(found, "no completion event observed for {} within 10 turns", tier.name());
    }
}

#[test]
fn nasties_are_traded_in_before_creatures_in_event_order() {
    for seed in 0..60u64 {
        let mut game = new_test_game(4, seed);
        let buyer = game.turn_leader();
        let mut target_seller = None;
        while game.current_phase().starts_with("deal_offer") {
            let player = game.active_players()[0];
            if game.current_phase() == "deal_offer_submit" {
                let hand = game.player_hand(player).to_vec();
                let ppb: Vec<_> = hand
                    .iter()
                    .copied()
                    .filter(|&c| game.card_kind(c) == Some(CardKind::Nasty(NastyKind::TrojanHorse)))
                    .collect();
                let giant: Vec<_> =
                    hand.iter().copied().filter(|&c| game.card_kind(c) == Some(CardKind::Creature(Tier::Giant))).collect();
                let action = if player != buyer && ppb.len() >= 3 && !giant.is_empty() && target_seller.is_none() {
                    target_seller = Some(player);
                    Action::SubmitDeal { cards: [ppb[0], ppb[1], ppb[2]] }
                } else {
                    game.legal_actions(player).into_iter().next().unwrap()
                };
                game.apply_action(player, action).unwrap();
            } else {
                let action = game.legal_actions(player).into_iter().next().unwrap();
                game.apply_action(player, action).unwrap();
            }
        }
        let Some(_seller) = target_seller else { continue };
        if game.current_phase() == "buyer_peek" {
            let peek = game.legal_actions(buyer)[0].clone();
            game.apply_action(buyer, peek).unwrap();
        }
        auto_pass_thingamabob_window(&mut game);
        let options = game.legal_actions(buyer);
        let seller_to_choose = if let Action::ChooseDeal { seller } = options[0] { seller } else { panic!() };
        let events = game.apply_action(buyer, Action::ChooseDeal { seller: seller_to_choose }).unwrap();
        let last_nasty_idx = events.iter().rposition(|e| matches!(e, Event::NastySetTradedIn { .. }));
        let first_creature_idx = events.iter().position(|e| matches!(e, Event::CreatureSetTradedIn { .. }));
        if let (Some(n), Some(c)) = (last_nasty_idx, first_creature_idx) {
            assert!(n < c, "every Nasty trade-in event must precede every Creature trade-in event");
            return;
        }
    }
}

// ---------------------------------------------------------------- determinism

fn run_first_legal_action_policy(game: &mut GameState, max_steps: usize) -> Vec<Event> {
    let mut all_events = Vec::new();
    for _ in 0..max_steps {
        if game.is_game_over() {
            break;
        }
        let player = game.active_players()[0];
        let action = game
            .legal_actions(player)
            .into_iter()
            .next()
            .expect("action_mask must never be empty for the acting agent");
        all_events.extend(game.apply_action(player, action).unwrap());
    }
    all_events
}

#[test]
fn same_seed_and_actions_produce_identical_event_sequences_and_observations() {
    for (num_players, seed) in [(4usize, 111u64), (3, 222), (5, 333), (6, 444), (2, 555)] {
        let mut game_a = new_test_game(num_players, seed);
        let mut game_b = new_test_game(num_players, seed);
        let events_a = run_first_legal_action_policy(&mut game_a, 400);
        let events_b = run_first_legal_action_policy(&mut game_b, 400);
        assert_eq!(events_a, events_b, "seed {seed}: event sequences diverged");
        for p in 0..num_players {
            assert_eq!(game_a.observation_for(p), game_b.observation_for(p), "seed {seed} player {p}: observations diverged");
        }
        assert_eq!(game_a.winner(), game_b.winner());
        assert_eq!(game_a.turn_leader(), game_b.turn_leader());
    }
}

#[test]
fn different_seeds_produce_different_initial_hands() {
    let a = new_test_game(4, 1);
    let b = new_test_game(4, 2);
    assert_ne!(a.player_hand(0), b.player_hand(0));
}

// ------------------------------------------------------------ draw reshuffle

#[test]
fn draw_pile_reshuffles_from_discard_when_exhausted() {
    let deck = deck_from_toml(TINY_DECK_TOML);
    let mut game = GameState::new(2, deck, 1).unwrap();
    let first = game.turn_leader();
    let second = 1 - first;

    auto_play_deal_offers(&mut game);
    auto_pass_thingamabob_window(&mut game);
    game.apply_action(second, Action::RespondToDeal { reverse: false }).unwrap();
    assert_eq!(game.turn_leader(), second, "active player alternates every turn");

    auto_play_deal_offers(&mut game);
    auto_pass_thingamabob_window(&mut game);
    let events = game.apply_action(first, Action::RespondToDeal { reverse: false }).unwrap();
    assert!(
        events.iter().any(|e| matches!(e, Event::DrawPileReshuffledFromDiscard)),
        "expected a reshuffle event: {events:#?}"
    );
    assert_eq!(game.player_hand(first).len(), 5);
    assert_eq!(game.player_hand(second).len(), 5);
    assert_eq!(game.player_point_tokens(first), 3);
    assert_eq!(game.player_point_tokens(second), 3);
}

// ----------------------------------------------------------- live tracking

#[test]
fn pin_kind_overwrites_and_consumes_supply() {
    let mut game = new_test_game(4, 1);
    let card = game.player_hand(0)[0];
    let before = supply_of(&game, CardKind::Creature(Tier::Giant));
    game.pin_kind(card, CardKind::Creature(Tier::Giant)).unwrap();
    assert_eq!(game.card_kind(card), Some(CardKind::Creature(Tier::Giant)));
    assert!(game.is_pinned(card));
    assert_eq!(supply_of(&game, CardKind::Creature(Tier::Giant)), before - 1);
}

#[test]
fn pin_kind_rejects_double_pinning_the_same_card() {
    let mut game = new_test_game(4, 2);
    let card = game.player_hand(0)[0];
    game.pin_kind(card, CardKind::Creature(Tier::Tiny)).unwrap();
    let err = game.pin_kind(card, CardKind::Creature(Tier::Big)).unwrap_err();
    assert_eq!(err, PinError::AlreadyPinned(card));
}

#[test]
fn pin_kind_rejects_exceeding_the_deck_composition() {
    let mut game = new_test_game(4, 3);
    let supply = supply_of(&game, CardKind::Creature(Tier::Giant));
    let all_cards: Vec<_> = (0..4).flat_map(|p| game.player_hand(p).to_vec()).collect();
    let mut pinned = 0u32;
    for &card in all_cards.iter() {
        if pinned == supply {
            break;
        }
        game.pin_kind(card, CardKind::Creature(Tier::Giant)).unwrap();
        pinned += 1;
    }
    assert_eq!(supply_of(&game, CardKind::Creature(Tier::Giant)), supply - pinned);
    if pinned == supply {
        if let Some(&extra) = game.player_hand(0).iter().find(|c| !all_cards.contains(c)) {
            let err = game.pin_kind(extra, CardKind::Creature(Tier::Giant)).unwrap_err();
            assert_eq!(err, PinError::NoSupplyRemaining);
        }
    }
}

#[test]
fn hidden_cards_in_deal_lists_only_unrevealed_cards() {
    let mut game = new_test_game(4, 4);
    let buyer = game.turn_leader();
    let seller = (0..4).find(|&p| p != buyer).unwrap();
    while game.active_players() != vec![seller] || game.current_phase() != "deal_offer_submit" {
        let player = game.active_players()[0];
        let action = game.legal_actions(player).into_iter().next().unwrap();
        game.apply_action(player, action).unwrap();
    }
    let hand = game.player_hand(seller).to_vec();
    let cards = [hand[0], hand[1], hand[2]];
    game.apply_action(seller, Action::SubmitDeal { cards }).unwrap();
    let hidden = game.hidden_cards_in_deal(seller);
    assert_eq!(hidden.len(), 3, "nothing revealed yet");
    game.apply_action(seller, Action::RevealCard { card: cards[0] }).unwrap();
    let hidden_after = game.hidden_cards_in_deal(seller);
    assert_eq!(hidden_after.len(), 2);
    assert!(!hidden_after.contains(&cards[0]));
}

#[test]
fn pin_kind_rejects_an_unknown_card_and_keeps_supply() {
    let mut game = new_test_game(3, 5);
    let before = game.kind_supply();
    let unknown = game.total_card_count() as CardId + 7;
    assert_eq!(game.pin_kind(unknown, CardKind::Creature(Tier::Big)), Err(PinError::UnknownCard(unknown)));
    assert_eq!(game.kind_supply(), before);
}

#[test]
fn kind_supply_starts_at_the_deck_composition() {
    let game = new_test_game(3, 5);
    let supply = game.kind_supply();
    assert_eq!(supply.len(), 12);
    assert_eq!(supply[0], (CardKind::Creature(Tier::Giant), 12));
    assert_eq!(supply[4], (CardKind::Nasty(NastyKind::PoisonPillBug), 24));
    assert_eq!(supply[11], (CardKind::Thingamabob(ThingamabobKind::SpectroelectricOptimeter), 18));
    let total: u32 = supply.iter().map(|(_, n)| n).sum();
    assert_eq!(total as usize, game.total_card_count());
}

// ----------------------------------------------------------- nasty penalties

fn run_turn_completing_nasty_set_for_a_seller(game: &mut GameState, kind: NastyKind) -> (usize, usize, Vec<Event>) {
    let buyer = game.turn_leader();
    let mut target_seller = None;
    while game.current_phase().starts_with("deal_offer") {
        let player = game.active_players()[0];
        if game.current_phase() == "deal_offer_submit" {
            let matching = hand_cards_of_kind(game, player, CardKind::Nasty(kind));
            let action = if player != buyer && matching.len() >= 2 && target_seller.is_none() {
                target_seller = Some(player);
                let mut cards = matching;
                cards.truncate(2);
                let filler = game.player_hand(player).iter().copied().find(|c| !cards.contains(c)).unwrap();
                cards.push(filler);
                Action::SubmitDeal { cards: [cards[0], cards[1], cards[2]] }
            } else {
                game.legal_actions(player).into_iter().next().unwrap()
            };
            game.apply_action(player, action).unwrap();
        } else {
            let action = game.legal_actions(player).into_iter().next().unwrap();
            game.apply_action(player, action).unwrap();
        }
    }
    let Some(seller) = target_seller else { return (usize::MAX, buyer, vec![]) };
    if game.current_phase() == "buyer_peek" {
        let peek = game.legal_actions(buyer)[0].clone();
        game.apply_action(buyer, peek).unwrap();
    }
    auto_pass_thingamabob_window(game);
    let options = game.legal_actions(buyer);
    let Action::ChooseDeal { seller: other } =
        options.iter().find(|a| !matches!(a, Action::ChooseDeal { seller: s } if *s == seller)).cloned().unwrap()
    else {
        panic!()
    };
    let events = game.apply_action(buyer, Action::ChooseDeal { seller: other }).unwrap();
    (seller, buyer, events)
}

#[test]
fn poison_pill_bug_trade_in_lets_new_buyer_optionally_steal_one_card() {
    for seed in 0..30u64 {
        let mut game = new_test_game(4, seed);
        let (seller, _old_buyer, events) = run_turn_completing_nasty_set_for_a_seller(&mut game, NastyKind::PoisonPillBug);
        if seller == usize::MAX {
            continue;
        }
        assert!(events.iter().any(
            |e| matches!(e, Event::NastySetTradedIn { player, kind } if *player == seller && *kind == NastyKind::PoisonPillBug)
        ));
        if game.current_phase() == "nasty_resolution" {
            let new_buyer = game.turn_leader();
            let resolve_options = game.legal_actions(new_buyer);
            assert!(resolve_options
                .iter()
                .all(|a| matches!(a, Action::ResolveNastyPenalty { taken_cards } if taken_cards.len() <= 1)));
            if let Some(Action::ResolveNastyPenalty { taken_cards }) = resolve_options
                .into_iter()
                .find(|a| matches!(a, Action::ResolveNastyPenalty { taken_cards } if taken_cards.len() == 1))
            {
                let card = taken_cards[0];
                let seller_collection_before = game.player_collection(seller).to_vec();
                assert!(seller_collection_before.contains(&card));
                game.apply_action(new_buyer, Action::ResolveNastyPenalty { taken_cards: vec![card] }).unwrap();
                assert!(!game.player_collection(seller).contains(&card));
                assert!(game.player_collection(new_buyer).contains(&card));
            }
            return;
        }
    }
    panic!("no seed in range produced a testable Poison Pill Bug completion");
}

#[test]
fn loan_shark_trade_in_lets_new_buyer_steal_up_to_two_cards() {
    for seed in 0..30u64 {
        let mut game = new_test_game(4, seed);
        let (seller, _old_buyer, _events) = run_turn_completing_nasty_set_for_a_seller(&mut game, NastyKind::LoanShark);
        if seller == usize::MAX {
            continue;
        }
        if game.current_phase() == "nasty_resolution" {
            let new_buyer = game.turn_leader();
            let resolve_options = game.legal_actions(new_buyer);
            assert!(resolve_options
                .iter()
                .all(|a| matches!(a, Action::ResolveNastyPenalty { taken_cards } if taken_cards.len() <= 2)));
            assert!(
                resolve_options
                    .iter()
                    .any(|a| matches!(a, Action::ResolveNastyPenalty { taken_cards } if taken_cards.is_empty())),
                "buyer may always decline (fizzle)"
            );
            return;
        }
    }
    panic!("no seed in range produced a testable Loan Shark completion");
}

#[test]
fn trojan_horse_trade_in_auto_steals_one_point_token_no_action_needed() {
    for seed in 0..30u64 {
        let mut game = new_test_game(4, seed);
        let buyer = game.turn_leader();
        let mut target_seller = None;
        while game.current_phase().starts_with("deal_offer") {
            let player = game.active_players()[0];
            if game.current_phase() == "deal_offer_submit" {
                let matching = hand_cards_of_kind(&game, player, CardKind::Nasty(NastyKind::TrojanHorse));
                let action = if player != buyer && matching.len() >= 3 && target_seller.is_none() {
                    target_seller = Some(player);
                    Action::SubmitDeal { cards: [matching[0], matching[1], matching[2]] }
                } else {
                    game.legal_actions(player).into_iter().next().unwrap()
                };
                game.apply_action(player, action).unwrap();
            } else {
                let action = game.legal_actions(player).into_iter().next().unwrap();
                game.apply_action(player, action).unwrap();
            }
        }
        let Some(seller) = target_seller else { continue };
        if game.current_phase() == "buyer_peek" {
            let peek = game.legal_actions(buyer)[0].clone();
            game.apply_action(buyer, peek).unwrap();
        }
        auto_pass_thingamabob_window(&mut game);
        let options = game.legal_actions(buyer);
        let chosen_seller = if let Action::ChooseDeal { seller: s } =
            options.iter().find(|a| !matches!(a, Action::ChooseDeal { seller: s2 } if *s2 == seller)).unwrap()
        {
            *s
        } else {
            unreachable!()
        };
        let events = game.apply_action(buyer, Action::ChooseDeal { seller: chosen_seller }).unwrap();
        assert!(events.iter().any(
            |e| matches!(e, Event::NastySetTradedIn { player, kind } if *player == seller && *kind == NastyKind::TrojanHorse)
        ));
        return;
    }
    panic!("no seed in range produced a testable Trojan Horse completion");
}

// ------------------------------------------------------------ starting leader

#[test]
fn starting_leader_pins_the_first_turn_leader() {
    for num_players in 2..=6 {
        for leader in 0..num_players {
            let game = GameState::new_with_starting_leader(num_players, test_deck(), 1, Some(leader)).unwrap();
            assert_eq!(game.turn_leader(), leader);
        }
    }
}

#[test]
fn starting_leader_none_keeps_the_usual_random_pick() {
    let random_game = GameState::new(4, test_deck(), 42).unwrap();
    let explicit_game = GameState::new_with_starting_leader(4, test_deck(), 42, None).unwrap();
    assert_eq!(random_game.turn_leader(), explicit_game.turn_leader());
}

#[test]
fn out_of_range_starting_leader_is_rejected() {
    let Err(err) = GameState::new_with_starting_leader(4, test_deck(), 1, Some(4)) else { panic!("expected an error") };
    assert_eq!(err, SetupError::InvalidStartingLeader { given: 4, num_players: 4 });
}

#[test]
fn setup_rejects_bad_table_sizes_and_short_decks() {
    assert!(matches!(GameState::new(1, test_deck(), 1), Err(SetupError::InvalidPlayerCount(1))));
    assert!(matches!(GameState::new(7, test_deck(), 1), Err(SetupError::InvalidPlayerCount(7))));
    let short = deck_from_toml(TINY_DECK_TOML);
    assert!(matches!(GameState::new(3, short, 1), Err(SetupError::NotEnoughCardsToDeal { have: 13, need: 15 })));
}

// -------------------------------------------------------- thingamabob effects

#[test]
fn platonic_isolator_steals_one_token_from_a_strictly_richer_player() {
    for seed in 0..40u64 {
        let mut game = new_test_game(4, seed);
        let Some(richer) = stash_cards_of_kind_in_collection(&mut game, CardKind::Creature(Tier::Giant), 1) else { continue };
        assert_eq!(game.player_point_tokens(richer), 1, "a lone Giant is a complete set worth 1 token");
        let Some(actor) =
            stash_cards_of_kind_in_collection(&mut game, CardKind::Thingamabob(ThingamabobKind::PlatonicIsolator), 1)
        else {
            continue;
        };
        if actor == richer {
            continue;
        }
        assert_eq!(game.player_point_tokens(actor), 0);
        auto_play_deal_offers(&mut game);
        peek_if_needed(&mut game);
        advance_thingamabob_window_to_player(&mut game, actor);
        let Some(action) = find_thingamabob_action(&game, actor, |p| {
            matches!(p, ThingamabobParams::PlatonicIsolator { target_player } if *target_player == richer)
        }) else {
            continue;
        };
        let events = game.apply_action(actor, action).unwrap();
        assert!(events.iter().any(
            |e| matches!(e, Event::PointTokenStolen { from, to, amount } if *from == richer && *to == actor && *amount == 1)
        ));
        assert_eq!(game.player_point_tokens(actor), 1);
        assert_eq!(game.player_point_tokens(richer), 0);
        return;
    }
    panic!("no seed produced a testable Platonic Isolator scenario");
}

#[test]
fn detrital_repositioner_removes_one_card_from_a_deal_to_discard() {
    for seed in 0..40u64 {
        let mut game = new_test_game(4, seed);
        let Some(actor) =
            stash_cards_of_kind_in_collection(&mut game, CardKind::Thingamabob(ThingamabobKind::DetritalRepositioner), 1)
        else {
            continue;
        };
        auto_play_deal_offers(&mut game);
        peek_if_needed(&mut game);
        advance_thingamabob_window_to_player(&mut game, actor);
        let Some(action) = find_thingamabob_action(&game, actor, |p| {
            matches!(p, ThingamabobParams::RemoveFromDeals { removals } if removals.len() == 1)
        }) else {
            continue;
        };
        let Action::PlayThingamabob { params: ThingamabobParams::RemoveFromDeals { removals }, .. } = &action else {
            unreachable!()
        };
        let (_target_seller, target_card) = removals[0];
        let events = game.apply_action(actor, action.clone()).unwrap();
        assert!(events.iter().any(|e| matches!(e, Event::CardsDiscarded { cards } if cards == &vec![target_card])));
        return;
    }
    panic!("no seed produced a testable Detrital Repositioner scenario");
}

#[test]
fn super_detrital_repositioner_allows_zero_one_or_two_removals_across_up_to_two_deals() {
    for seed in 0..40u64 {
        let mut game = new_test_game(4, seed);
        let Some(actor) = stash_cards_of_kind_in_collection(
            &mut game,
            CardKind::Thingamabob(ThingamabobKind::SuperDetritalRepositioner),
            1,
        ) else {
            continue;
        };
        auto_play_deal_offers(&mut game);
        peek_if_needed(&mut game);
        advance_thingamabob_window_to_player(&mut game, actor);
        let options: Vec<_> = game
            .legal_actions(actor)
            .into_iter()
            .filter_map(|a| {
                if let Action::PlayThingamabob { params: ThingamabobParams::RemoveFromDeals { removals }, .. } = &a {
                    Some(removals.len())
                } else {
                    None
                }
            })
            .collect();
        if options.is_empty() {
            continue;
        }
        assert!(options.contains(&0), "playing the card with 0 removals (just to discard it) must be legal");
        assert!(options.iter().all(|&n| n <= 2), "at most 2 cards may be removed");
        let action = find_thingamabob_action(&game, actor, |p| {
            matches!(p, ThingamabobParams::RemoveFromDeals { removals } if removals.len() == 2)
        })
        .or_else(|| {
            find_thingamabob_action(&game, actor, |p| {
                matches!(p, ThingamabobParams::RemoveFromDeals { removals } if removals.len() == 1)
            })
        });
        if let Some(action) = action {
            game.apply_action(actor, action).unwrap();
        }
        return;
    }
    panic!("no seed produced a testable Super Detrital Repositioner scenario");
}

#[test]
fn cryptozootic_expander_moves_a_hidden_hand_card_into_a_deal() {
    for seed in 0..40u64 {
        let mut game = new_test_game(4, seed);
        let Some(actor) =
            stash_cards_of_kind_in_collection(&mut game, CardKind::Thingamabob(ThingamabobKind::CryptozooticExpander), 1)
        else {
            continue;
        };
        auto_play_deal_offers(&mut game);
        peek_if_needed(&mut game);
        advance_thingamabob_window_to_player(&mut game, actor);
        let Some(action) = find_thingamabob_action(&game, actor, |_| true) else { continue };
        let Action::PlayThingamabob { params: ThingamabobParams::CryptozooticExpander { target_deal, .. }, .. } =
            action.clone()
        else {
            continue;
        };
        let hand_before = game.player_hand(actor).len();
        game.apply_action(actor, action).unwrap();
        assert_eq!(game.player_hand(actor).len(), hand_before - 1, "the hand card moved out of hand");
        let _ = target_deal;
        return;
    }
    panic!("no seed produced a testable Cryptozooptic Expander scenario");
}

#[test]
fn spectroelectric_optimeter_reveals_a_hidden_deal_card() {
    for seed in 0..40u64 {
        let mut game = new_test_game(4, seed);
        let Some(actor) = stash_cards_of_kind_in_collection(
            &mut game,
            CardKind::Thingamabob(ThingamabobKind::SpectroelectricOptimeter),
            1,
        ) else {
            continue;
        };
        auto_play_deal_offers(&mut game);
        peek_if_needed(&mut game);
        advance_thingamabob_window_to_player(&mut game, actor);
        let Some(action) = find_thingamabob_action(&game, actor, |_| true) else { continue };
        let Action::PlayThingamabob {
            params: ThingamabobParams::SpectroelectricOptimeter { target_deal, target_card }, ..
        } = action.clone()
        else {
            continue;
        };
        let events = game.apply_action(actor, action).unwrap();
        assert!(events
            .iter()
            .any(|e| matches!(e, Event::CardRevealed { seller, card } if *seller == target_deal && *card == target_card)));
        return;
    }
    panic!("no seed produced a testable Spectroelectric Optimeter scenario");
}

// ------------------------------------------------------------ two-player mode

#[test]
fn two_player_mode_is_selected_automatically_for_2_players() {
    let game = new_test_game(2, 1);
    assert_eq!(game.mode(), GameMode::TwoPlayer);
    assert_eq!(game.num_players(), 2);
}

#[test]
fn both_players_start_with_a_5_card_hand() {
    let game = new_test_game(2, 3);
    assert_eq!(game.player_hand(0).len(), 5);
    assert_eq!(game.player_hand(1).len(), 5);
}

#[test]
fn turn_leader_always_alternates_regardless_of_accept_or_reverse() {
    let mut game = new_test_game(2, 8);
    let first = game.turn_leader();
    auto_play_deal_offers(&mut game);
    auto_pass_thingamabob_window(&mut game);
    let responder = 1 - first;
    game.apply_action(responder, Action::RespondToDeal { reverse: false }).unwrap();
    while game.current_phase() == "nasty_resolution" {
        let r = game.active_players()[0];
        game.apply_action(r, Action::ResolveNastyPenalty { taken_cards: vec![] }).unwrap();
    }
    if !game.is_game_over() {
        assert_eq!(game.turn_leader(), 1 - first, "active player alternates every turn");
    }
}

#[test]
fn two_player_win_threshold_is_5_regardless_of_multiplayer_thresholds() {
    let game = new_test_game(2, 9);
    assert_eq!(game.win_threshold(), 5);
}

#[test]
fn multiplayer_win_thresholds_match_table_size() {
    assert_eq!(new_test_game(3, 1).win_threshold(), 4);
    assert_eq!(new_test_game(4, 1).win_threshold(), 4);
    assert_eq!(new_test_game(5, 1).win_threshold(), 5);
    assert_eq!(new_test_game(6, 1).win_threshold(), 5);
}

#[test]
fn two_player_turn_is_one_split_deal_then_a_response() {
    let mut game = new_test_game(2, 4);
    let active = game.turn_leader();
    let responder = 1 - active;
    assert_eq!(game.active_players(), vec![active]);
    let submit = game.legal_actions(active).into_iter().next().unwrap();
    let Action::TwoPlayerSubmitDeal { own_pile, other_pile } = submit.clone() else { panic!("expected a split deal") };
    assert_eq!(own_pile.len() + other_pile.len(), 3);
    game.apply_action(active, submit).unwrap();
    assert_eq!(game.current_phase(), "deal_offer_reveal");
    let reveal = game.legal_actions(active).into_iter().next().unwrap();
    assert!(matches!(reveal, Action::RevealCard { .. }));
    game.apply_action(active, reveal).unwrap();
    assert_eq!(game.current_phase(), "thingamabob_window");
    assert_eq!(game.active_players(), vec![active]);
    auto_pass_thingamabob_window(&mut game);
    assert_eq!(game.current_phase(), "respond_to_deal");
    assert_eq!(game.active_players(), vec![responder]);
    assert_eq!(game.legal_actions(responder).len(), 2);
}

// -------------------------------------------------------------- win condition

#[test]
fn win_is_declared_exactly_when_a_player_meets_threshold_and_strictly_leads() {
    let mut game = new_test_game(4, 42);
    let threshold = game.win_threshold();
    for _ in 0..60 {
        if game.is_game_over() {
            break;
        }
        let Some(_) = stash_cards_of_kind_in_collection(&mut game, CardKind::Creature(Tier::Giant), 1) else { continue };
        let tokens: Vec<u32> = (0..4).map(|p| game.player_point_tokens(p)).collect();
        let mut order: Vec<usize> = (0..4).collect();
        order.sort_by_key(|&p| std::cmp::Reverse(tokens[p]));
        let expected_winner = if tokens[order[0]] >= threshold && tokens[order[0]] > tokens[order[1]] {
            Some(order[0])
        } else {
            None
        };
        assert_eq!(game.winner(), expected_winner, "tokens={tokens:?} threshold={threshold}");
        if expected_winner.is_some() {
            assert!(game.is_game_over());
            return;
        }
    }
}

#[test]
fn tie_at_or_above_threshold_does_not_end_the_game() {
    let mut game = new_test_game(4, 99);
    let threshold = game.win_threshold();
    for _ in 0..60 {
        if game.is_game_over() {
            break;
        }
        stash_cards_of_kind_in_collection(&mut game, CardKind::Creature(Tier::Giant), 1);
        let tokens: Vec<u32> = (0..4).map(|p| game.player_point_tokens(p)).collect();
        let max = *tokens.iter().max().unwrap();
        let leaders = tokens.iter().filter(|&&t| t == max).count();
        if max >= threshold && leaders > 1 {
            assert!(!game.is_game_over(), "tied leaders at/above threshold must not end the game");
        }
    }
}

// ------------------------------------------------------------ rule rejections

#[test]
fn wrong_player_and_wrong_phase_are_rejected_without_change() {
    let mut game = new_test_game(4, 11);
    let leader = game.turn_leader();
    let seller = game.active_players()[0];
    let before = game.observation_for(seller);
    assert_eq!(game.apply_action(leader, Action::PassThingamabobWindow), Err(RulesError::NotActivePlayer(leader)));
    assert_eq!(
        game.apply_action(seller, Action::PassThingamabobWindow),
        Err(RulesError::WrongPhaseAction("deal_offer_submit"))
    );
    assert_eq!(game.observation_for(seller), before);
}

#[test]
fn submitted_deals_must_be_three_distinct_hand_cards() {
    let mut game = new_test_game(4, 12);
    let seller = game.active_players()[0];
    let hand = game.player_hand(seller).to_vec();
    assert_eq!(
        game.apply_action(seller, Action::SubmitDeal { cards: [hand[0], hand[0], hand[1]] }),
        Err(RulesError::DealMustBeThreeDistinctCards)
    );
    let foreign = game.player_hand(game.turn_leader())[0];
    assert_eq!(
        game.apply_action(seller, Action::SubmitDeal { cards: [hand[0], hand[1], foreign] }),
        Err(RulesError::CardNotInHand(foreign))
    );
    assert_eq!(game.player_hand(seller), &hand[..]);
    game.apply_action(seller, Action::SubmitDeal { cards: [hand[0], hand[1], hand[2]] }).unwrap();
    assert_eq!(game.apply_action(seller, Action::RevealCard { card: hand[3] }), Err(RulesError::RevealCardNotInDeal));
}

#[test]
fn finished_game_rejects_every_action() {
    for seed in 0..20u64 {
        let mut game = new_test_game(3, seed);
        run_first_legal_action_policy(&mut game, 3000);
        if !game.is_game_over() {
            continue;
        }
        assert_eq!(game.current_phase(), "game_over");
        assert!(game.active_players().is_empty());
        let winner = game.winner().unwrap();
        assert_eq!(game.apply_action(winner, Action::PassThingamabobWindow), Err(RulesError::GameAlreadyOver));
        return;
    }
    panic!("no seed finished a game");
}

// ------------------------------------------------------------ conservation

/// A small linear congruential generator, so each run is a fixed sequence.
fn next_choice(state: &mut u64) -> u32 {
    *state = state.wrapping_mul(6364136223846793005).wrapping_add(1442695040888963407);
    (*state >> 33) as u32
}

#[test]
fn random_legal_play_conserves_cards_and_never_runs_out_of_actions() {
    let mut lcg = 0x5eed_u64;
    for num_players in 2..=6usize {
        for _ in 0..3 {
            let seed = next_choice(&mut lcg) as u64;
            let mut game = new_test_game(num_players, seed);
            let total_before = game.total_card_count();
            for _step in 0..300 {
                if game.is_game_over() {
                    break;
                }
                let player = game.active_players()[0];
                let actions = game.legal_actions(player);
                assert!(!actions.is_empty(), "no legal action in phase {}", game.current_phase());
                assert!(actions.len() <= game.max_legal_actions());
                assert_eq!(actions.len(), game.legal_action_count(player));
                let idx = next_choice(&mut lcg) as usize % actions.len();
                game.apply_action(player, actions[idx].clone()).unwrap();
                assert_eq!(game.total_card_count(), total_before, "card count must be conserved at every step");
                for p in 0..num_players {
                    assert!(game.player_point_tokens(p) < 1_000_000);
                }
            }
        }
    }
}

fn card_places(game: &GameState) -> Vec<CardId> {
    let mut ids: Vec<CardId> = Vec::new();
    for p in &game.players {
        ids.extend(p.hand.iter().copied());
        ids.extend(p.collection.iter().copied());
    }
    for d in &game.deals {
        ids.extend(d.cards.iter().map(|c| c.card));
    }
    ids.extend(game.draw_pile.iter().copied());
    ids.extend(game.discard_pile.iter().copied());
    ids.sort();
    ids
}

#[test]
fn every_card_stays_in_exactly_one_place_and_hands_stay_small() {
    let mut lcg = 0xca4d_u64;
    for num_players in 2..=6usize {
        let seed = next_choice(&mut lcg) as u64;
        let mut game = new_test_game(num_players, seed);
        let deck_len = test_deck().cards.len();
        let expected: Vec<CardId> = (0..deck_len as CardId).collect();
        assert_eq!(card_places(&game), expected);
        for _step in 0..200 {
            if game.is_game_over() {
                break;
            }
            let player = game.active_players()[0];
            let actions = game.legal_actions(player);
            let idx = next_choice(&mut lcg) as usize % actions.len();
            game.apply_action(player, actions[idx].clone()).unwrap();
            assert_eq!(card_places(&game), expected, "phase {}", game.current_phase());
            for p in 0..num_players {
                assert!(game.player_hand(p).len() <= 5);
            }
        }
    }
}

fn replay(num_players: usize, seed: u64, taken: &[(PlayerId, Action)]) -> GameState {
    let mut game = new_test_game(num_players, seed);
    for (p, a) in taken {
        game.apply_action(*p, a.clone()).unwrap();
    }
    game
}

#[test]
fn every_offered_action_is_accepted() {
    let mut lcg = 0xacce_u64;
    for num_players in [2usize, 4] {
        let seed = next_choice(&mut lcg) as u64;
        let mut taken: Vec<(PlayerId, Action)> = Vec::new();
        for _step in 0..25 {
            let game = replay(num_players, seed, &taken);
            if game.is_game_over() {
                break;
            }
            let player = game.active_players()[0];
            let actions = game.legal_actions(player);
            assert!(!actions.is_empty());
            for a in &actions {
                let mut fresh = replay(num_players, seed, &taken);
                assert!(fresh.apply_action(player, a.clone()).is_ok(), "refused {:?} in phase {}", a, game.current_phase());
            }
            let idx = next_choice(&mut lcg) as usize % actions.len();
            taken.push((player, actions[idx].clone()));
        }
    }
}

#[test]
fn isolator_aimed_past_the_table_is_refused_without_change() {
    for seed in 0..40u64 {
        let mut game = new_test_game(4, seed);
        let Some(actor) =
            stash_cards_of_kind_in_collection(&mut game, CardKind::Thingamabob(ThingamabobKind::PlatonicIsolator), 1)
        else {
            continue;
        };
        auto_play_deal_offers(&mut game);
        peek_if_needed(&mut game);
        advance_thingamabob_window_to_player(&mut game, actor);
        if game.current_phase() != "thingamabob_window" || game.active_player() != Some(actor) {
            continue;
        }
        let card = *game
            .player_collection(actor)
            .iter()
            .find(|&&c| game.card_kind(c) == Some(CardKind::Thingamabob(ThingamabobKind::PlatonicIsolator)))
            .unwrap();
        let before = game.observation_for(actor);
        let action = Action::PlayThingamabob { card, params: ThingamabobParams::PlatonicIsolator { target_player: 9 } };
        assert_eq!(game.apply_action(actor, action), Err(RulesError::InvalidThingamabobParams));
        assert_eq!(game.observation_for(actor), before);
        return;
    }
    panic!("no seed produced a testable Platonic Isolator scenario");
}

#[test]
fn phase_slots_follow_the_phase_names() {
    let game = new_test_game(4, 3);
    assert_eq!(game.current_phase(), "deal_offer_submit");
    assert_eq!(sasquatch_engine::phase::phase_index(&game.phase), 0);
    let mut game = new_test_game(4, 3);
    let seller = game.active_players()[0];
    let submit = game.legal_actions(seller).into_iter().next().unwrap();
    game.apply_action(seller, submit).unwrap();
    assert_eq!(game.current_phase(), "deal_offer_reveal");
    assert_eq!(sasquatch_engine::phase::phase_index(&game.phase), 1);
}

#[test]
fn decks_of_tens_of_thousands_of_cards_set_up_with_an_exact_ceiling() {
    let deck = deck_from_toml(
        r#"
        nasties = []

        [[creature_tiers]]
        tier = "Giant"
        set_size = 1
        copies = 40000

        [[thingamabobs]]
        name = "Super Detrital Repositioner"
        copies = 1
        effect = "remove_up_to_2_cards_from_1_or_2_deals"

        [[thingamabobs]]
        name = "Cryptozooptic Expander"
        copies = 33000
        effect = "add_hidden_hand_card_to_deal"
        "#,
    );
    assert!(sasquatch_engine::game::deck_is_runnable(&deck));
    let game = GameState::new(3, deck, 11).unwrap();
    assert_eq!(game.total_card_count(), 73001);
    assert_eq!(game.current_phase(), "deal_offer_submit");
    // pool of 3 * 2 + 33000 cards: 1 + 33006 + 33006 * 33005 / 2 removals,
    // 5 * 2 expander plays, and passing
    assert_eq!(game.max_legal_actions(), 1 + (1 + 33006 + 544_681_515) + 10);
}

#[test]
fn class_tally_counts_each_class_of_a_pile() {
    let game = new_test_game(3, 2);
    let hand = game.player_hand(0).to_vec();
    let tally = game.class_tally(&hand);
    assert_eq!(tally.len(), 12);
    assert_eq!(tally.iter().sum::<u32>(), 5);
    for class in 0..12 {
        let expected = hand.iter().filter(|&&c| game.class_of(c) == class).count() as u32;
        assert_eq!(tally[class], expected);
    }
    let mut twice = hand.clone();
    twice.extend_from_slice(&hand);
    let doubled = game.class_tally(&twice);
    for class in 0..12 {
        assert_eq!(doubled[class], 2 * tally[class]);
    }
    assert!(game.class_tally(&[]).iter().all(|&n| n == 0));
}

#[test]
fn hand_built_catalogs_with_limits_above_two_run_with_an_exact_ceiling() {
    let mut deck = test_deck();
    // Loan Shark steals up to four cards, Detrital Repositioner removes up
    // to three cards from up to three deals.
    deck.catalog.nasty_effect[1] = Some(NastyEffect::BuyerMayStealUpToNCards(4));
    deck.catalog.thingamabob_effect[1] = Some(ThingamabobEffect::RemoveCardsFromDeals { max_cards: 3, max_deals: 3 });
    assert!(sasquatch_engine::game::deck_is_runnable(&deck));
    let mut game = GameState::new(3, deck, 7).unwrap();
    // pool 3 * 2 + 18 = 24: pass 1, isolator 2, removals of up to three
    // 1 + 24 + 276 + 2024, of up to two 1 + 24 + 276, expander 10, optimeter 24
    assert_eq!(game.max_legal_actions(), 1 + 2 + 2325 + 301 + 10 + 24);
    let total_before = game.total_card_count();
    let mut lcg = 0xabcd_u64;
    for _step in 0..400 {
        if game.is_game_over() {
            break;
        }
        let player = game.active_players()[0];
        let actions = game.legal_actions(player);
        assert!(!actions.is_empty());
        assert!(actions.len() <= game.max_legal_actions());
        let idx = next_choice(&mut lcg) as usize % actions.len();
        game.apply_action(player, actions[idx].clone()).unwrap();
        assert_eq!(game.total_card_count(), total_before);
    }
}

#[test]
fn refill_deals_from_the_top_of_the_draw_pile_in_seat_order() {
    for seed in 0..12u64 {
        let mut game = new_test_game(3, seed);
        let buyer = game.turn_leader();
        auto_play_deal_offers(&mut game);
        peek_if_needed(&mut game);
        auto_pass_thingamabob_window(&mut game);
        let Action::ChooseDeal { seller } = game.legal_actions(buyer)[0].clone() else { panic!() };
        let hands_before: Vec<Vec<CardId>> = (0..3).map(|p| game.player_hand(p).to_vec()).collect();
        let mut draw = game.draw_pile.clone();
        let events = game.apply_action(buyer, Action::ChooseDeal { seller }).unwrap();
        if game.current_phase() == "nasty_resolution" {
            continue;
        }
        let mut expected_reports = Vec::new();
        for p in 0..3 {
            let mut hand = hands_before[p].clone();
            let need = 5 - hand.len();
            for _ in 0..need {
                hand.push(draw.pop().unwrap());
            }
            assert_eq!(game.player_hand(p), &hand[..], "seat {p} draws from the end of the pile");
            if need > 0 {
                expected_reports.push(Event::HandRefilled { player: p, drawn: need });
            }
        }
        assert_eq!(game.draw_pile, draw);
        let reports: Vec<Event> = events
            .iter()
            .filter(|e| matches!(e, Event::HandRefilled { .. } | Event::DrawPileReshuffledFromDiscard | Event::GameOver { .. }))
            .cloned()
            .collect();
        assert_eq!(reports, expected_reports);
    }
}
