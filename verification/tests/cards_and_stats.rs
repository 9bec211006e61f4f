use sasquatch_engine::card::{
    card_class_name, CardKind, NastyEffect, NastyKind, ThingamabobEffect, ThingamabobKind, Tier, ALL_NASTY_KINDS,
    ALL_THINGAMABOB_KINDS, ALL_TIERS, NUM_CARD_CLASSES,
};
use sasquatch_engine::deck::{DeckConfig, DeckConfigError, RawCreatureTier, RawDeckConfig, RawNasty, RawThingamabob};
use sasquatch_engine::events::Event;
use sasquatch_engine::stats::{event_kind_index, record, PlayerStats, NUM_EVENT_KINDS};

#[test]
fn class_index_matches_name_table_and_round_trips() {
    let mut seen = [false; NUM_CARD_CLASSES];
    let all: Vec<CardKind> = ALL_TIERS
        .iter()
        .map(|&t| CardKind::Creature(t))
        .chain(ALL_NASTY_KINDS.iter().map(|&k| CardKind::Nasty(k)))
        .chain(ALL_THINGAMABOB_KINDS.iter().map(|&k| CardKind::Thingamabob(k)))
        .collect();
    assert_eq!(all.len(), NUM_CARD_CLASSES);
    for kind in all {
        let i = kind.class_index();
        assert!(!seen[i], "duplicate class index {i}");
        seen[i] = true;
        assert_eq!(card_class_name(i), kind.name());
        assert_eq!(CardKind::parse(&kind.name()), Some(kind));
    }
}

#[test]
fn steals_credit_both_sides() {
    let mut stats = vec![PlayerStats::default(); 3];
    record(&mut stats, &Event::PointTokenStolen { from: 2, to: 0, amount: 1 });
    record(&mut stats, &Event::CardsStolen { from: 2, to: 0, cards: vec![7, 8] });
    assert_eq!(stats[0].tokens_gained, 1);
    assert_eq!(stats[2].tokens_lost, 1);
    assert_eq!(stats[0].cards_gained, 2);
    assert_eq!(stats[2].cards_lost, 2);
}

#[test]
fn event_kind_indices_are_unique_and_in_range() {
    let events = [
        Event::DealSubmitted { player: 0 },
        Event::CardRevealed { seller: 0, card: 0 },
        Event::BuyerPeeked { target_seller: 0, card: 0 },
        Event::ThingamabobWindowClosed,
        Event::DealChosen { buyer: 0, seller: 1 },
        Event::DealResponded { active: 0, reverse: false },
        Event::CardsAwarded { player: 0, cards: vec![] },
        Event::CardsDiscarded { cards: vec![] },
        Event::PointTokenStolen { from: 0, to: 1, amount: 1 },
        Event::CardsStolen { from: 0, to: 1, cards: vec![] },
        Event::HandRefilled { player: 0, drawn: 1 },
        Event::DrawPileReshuffledFromDiscard,
        Event::TurnLeaderPassed { new_leader: 0 },
        Event::GameOver { winner: 0 },
    ];
    let mut seen = vec![];
    for e in &events {
        let i = event_kind_index(e);
        assert!(i < NUM_EVENT_KINDS);
        assert!(!seen.contains(&i), "duplicate index {i}");
        seen.push(i);
    }
}

#[test]
fn every_event_kind_has_its_own_slot() {
    let events = [
        Event::DealSubmitted { player: 0 },
        Event::CardRevealed { seller: 0, card: 0 },
        Event::BuyerPeeked { target_seller: 0, card: 0 },
        Event::ThingamabobPlayed { player: 0, card: 0, kind: ThingamabobKind::PlatonicIsolator },
        Event::ThingamabobWindowClosed,
        Event::DealChosen { buyer: 0, seller: 1 },
        Event::DealResponded { active: 0, reverse: false },
        Event::CardsAwarded { player: 0, cards: vec![] },
        Event::CardsDiscarded { cards: vec![] },
        Event::NastySetTradedIn { player: 0, kind: NastyKind::LoanShark },
        Event::PointTokenStolen { from: 0, to: 1, amount: 1 },
        Event::CardsStolen { from: 0, to: 1, cards: vec![] },
        Event::CreatureSetTradedIn { player: 0, tier: Tier::Big, tokens_gained: 1 },
        Event::HandRefilled { player: 0, drawn: 1 },
        Event::DrawPileReshuffledFromDiscard,
        Event::TurnLeaderPassed { new_leader: 0 },
        Event::GameOver { winner: 0 },
    ];
    let idx: Vec<usize> = events.iter().map(event_kind_index).collect();
    assert_eq!(idx, (0..NUM_EVENT_KINDS).collect::<Vec<_>>());
}

#[test]
fn recording_counts_each_event_for_its_seat_and_ignores_other_seats() {
    let mut stats = vec![PlayerStats::default(); 2];
    record(&mut stats, &Event::DealSubmitted { player: 1 });
    record(&mut stats, &Event::DealChosen { buyer: 0, seller: 1 });
    record(&mut stats, &Event::CardsAwarded { player: 0, cards: vec![1, 2, 3] });
    record(&mut stats, &Event::TurnLeaderPassed { new_leader: 1 });
    record(&mut stats, &Event::CreatureSetTradedIn { player: 0, tier: Tier::Giant, tokens_gained: 1 });
    record(&mut stats, &Event::NastySetTradedIn { player: 1, kind: NastyKind::TrojanHorse });
    record(&mut stats, &Event::ThingamabobPlayed { player: 0, card: 4, kind: ThingamabobKind::CryptozooticExpander });
    record(&mut stats, &Event::DealSubmitted { player: 7 });
    assert_eq!(stats[1].deals_submitted, 1);
    assert_eq!(stats[0].deals_bought, 1);
    assert_eq!(stats[0].cards_gained, 3);
    assert_eq!(stats[1].turns_led, 1);
    assert_eq!(stats[0].creature_sets_traded, 1);
    assert_eq!(stats[1].nasty_sets_traded, 1);
    assert_eq!(stats[0].thingamabobs_played, 1);
    assert_eq!(stats[0].deals_submitted, 0);
}

#[test]
fn names_parse_back_for_every_tier_and_kind() {
    for t in ALL_TIERS {
        assert_eq!(Tier::parse(t.name()), Some(t));
    }
    for k in ALL_NASTY_KINDS {
        assert_eq!(NastyKind::parse(k.name()), Some(k));
    }
    for k in ALL_THINGAMABOB_KINDS {
        assert_eq!(ThingamabobKind::parse(k.name()), Some(k));
    }
    assert_eq!(Tier::parse("Enormous"), None);
    assert_eq!(CardKind::parse("Creature"), None);
    assert_eq!(CardKind::parse("Creature:Huge"), None);
    assert_eq!(CardKind::parse("Nasty:Loan Shark"), Some(CardKind::Nasty(NastyKind::LoanShark)));
    assert_eq!(CardKind::Creature(Tier::Tiny).name(), "Creature:Tiny");
}

#[test]
fn effect_names_parse() {
    assert_eq!(NastyEffect::parse("buyer_may_steal_up_to_2_cards"), Some(NastyEffect::BuyerMayStealUpToNCards(2)));
    assert_eq!(NastyEffect::parse("buyer_steals_1_point_token"), Some(NastyEffect::BuyerStealsOnePointToken));
    assert_eq!(NastyEffect::parse("steal_everything"), None);
    assert_eq!(
        ThingamabobEffect::parse("remove_up_to_2_cards_from_1_or_2_deals"),
        Some(ThingamabobEffect::RemoveCardsFromDeals { max_cards: 2, max_deals: 2 })
    );
    assert_eq!(ThingamabobEffect::parse("reveal_1_card_in_a_deal"), Some(ThingamabobEffect::RevealCardInDeal));
}

fn tier_row(tier: &str, set_size: u32, copies: u32) -> RawCreatureTier {
    RawCreatureTier { tier: tier.to_string(), set_size, copies }
}

fn nasty_row(name: &str, set_size: u32, copies: u32, effect: &str) -> RawNasty {
    RawNasty { name: name.to_string(), set_size, copies, effect: effect.to_string() }
}

fn thing_row(name: &str, copies: u32, effect: &str) -> RawThingamabob {
    RawThingamabob { name: name.to_string(), copies, effect: effect.to_string() }
}

#[test]
fn rejects_unknown_names() {
    let raw = RawDeckConfig {
        creature_tiers: vec![],
        nasties: vec![nasty_row("Not A Real Nasty", 2, 1, "buyer_may_steal_up_to_1_card")],
        thingamabobs: vec![],
    };
    assert_eq!(DeckConfig::from_raw(raw).unwrap_err(), DeckConfigError::UnknownNasty("Not A Real Nasty".to_string()));
}

#[test]
fn every_deck_config_error_has_its_input() {
    let bad_tier = RawDeckConfig { creature_tiers: vec![tier_row("Huge", 1, 1)], nasties: vec![], thingamabobs: vec![] };
    assert_eq!(DeckConfig::from_raw(bad_tier).unwrap_err(), DeckConfigError::UnknownTier("Huge".to_string()));
    let dup_tier = RawDeckConfig {
        creature_tiers: vec![tier_row("Big", 2, 2), tier_row("Big", 2, 2)],
        nasties: vec![],
        thingamabobs: vec![],
    };
    assert_eq!(DeckConfig::from_raw(dup_tier).unwrap_err(), DeckConfigError::DuplicateTier("Big".to_string()));
    let bad_effect = RawDeckConfig {
        creature_tiers: vec![],
        nasties: vec![nasty_row("Loan Shark", 2, 2, "nothing")],
        thingamabobs: vec![],
    };
    assert_eq!(DeckConfig::from_raw(bad_effect).unwrap_err(), DeckConfigError::UnknownNastyEffect("nothing".to_string()));
    let bad_thing = RawDeckConfig { creature_tiers: vec![], nasties: vec![], thingamabobs: vec![thing_row("Gizmo", 1, "reveal_1_card_in_a_deal")] };
    assert_eq!(DeckConfig::from_raw(bad_thing).unwrap_err(), DeckConfigError::UnknownThingamabob("Gizmo".to_string()));
    let bad_thing_effect = RawDeckConfig {
        creature_tiers: vec![],
        nasties: vec![],
        thingamabobs: vec![thing_row("Platonic Isolator", 1, "win")],
    };
    assert_eq!(
        DeckConfig::from_raw(bad_thing_effect).unwrap_err(),
        DeckConfigError::UnknownThingamabobEffect("win".to_string())
    );
    let dup_nasty = RawDeckConfig {
        creature_tiers: vec![],
        nasties: vec![
            nasty_row("Trojan Horse", 3, 3, "buyer_steals_1_point_token"),
            nasty_row("Trojan Horse", 3, 3, "buyer_steals_1_point_token"),
        ],
        thingamabobs: vec![],
    };
    assert_eq!(DeckConfig::from_raw(dup_nasty).unwrap_err(), DeckConfigError::DuplicateNasty("Trojan Horse".to_string()));
    let dup_thing = RawDeckConfig {
        creature_tiers: vec![],
        nasties: vec![],
        thingamabobs: vec![thing_row("Platonic Isolator", 1, "steal_point_token_from_richer_player"), thing_row("Platonic Isolator", 1, "steal_point_token_from_richer_player")],
    };
    assert_eq!(DeckConfig::from_raw(dup_thing).unwrap_err(), DeckConfigError::DuplicateThingamabob("Platonic Isolator".to_string()));
}

#[test]
fn deck_cards_are_numbered_in_row_order() {
    let raw = RawDeckConfig {
        creature_tiers: vec![tier_row("Tiny", 4, 3)],
        nasties: vec![nasty_row("Poison Pill Bug", 2, 2, "buyer_may_steal_up_to_1_card")],
        thingamabobs: vec![thing_row("Spectroelectric Optimeter", 1, "reveal_1_card_in_a_deal")],
    };
    let deck = DeckConfig::from_raw(raw).unwrap();
    assert_eq!(deck.total_cards(), 6);
    let ids: Vec<u32> = deck.cards.iter().map(|c| c.id).collect();
    assert_eq!(ids, vec![0, 1, 2, 3, 4, 5]);
    assert_eq!(deck.cards[0].kind, CardKind::Creature(Tier::Tiny));
    assert_eq!(deck.cards[3].kind, CardKind::Nasty(NastyKind::PoisonPillBug));
    assert_eq!(deck.cards[5].kind, CardKind::Thingamabob(ThingamabobKind::SpectroelectricOptimeter));
    assert_eq!(deck.cards[3].name, "Poison Pill Bug");
    assert_eq!(deck.catalog.creature_set_size(Tier::Tiny), 4);
    assert_eq!(deck.catalog.nasty_effect(NastyKind::PoisonPillBug), NastyEffect::BuyerMayStealUpToNCards(1));
}
