//! Card identity and the type catalog.
//!
//! Individual Creature cards carry no mechanical behavior: only their tier
//! matters for legality and set completion, and their names are display
//! flavor. Nasties and Thingamabobs have per-kind identity because sets
//! (Nasties) and effects (both) are defined per specific card.

use vstd::prelude::*;
use vstd::string::StringExecFns;
use crate::text::{find_char, str_eq};
use vstd::string::StrSliceExecFns;

verus! {

/// Identifier of one physical card; deck ids are contiguous `0..n`.
pub type CardId = u32;

/// Seat index of a player.
pub type PlayerId = usize;

/// Creature size class.
#[derive(Debug, Clone, Copy, PartialEq, Eq, Structural, Hash, PartialOrd, Ord)]
pub enum Tier {
    Giant,
    Big,
    Medium,
    Tiny,
}

/// The four tiers in class order.
pub const ALL_TIERS: [Tier; 4] = [Tier::Giant, Tier::Big, Tier::Medium, Tier::Tiny];

/// Display name of a tier.
pub open spec fn tier_name_spec(t: Tier) -> Seq<char> {
    match t {
        Tier::Giant => "Giant"@,
        Tier::Big => "Big"@,
        Tier::Medium => "Medium"@,
        Tier::Tiny => "Tiny"@,
    }
}

/// The tier whose name is `s`, if any.
pub open spec fn tier_parse_spec(s: Seq<char>) -> Option<Tier> {
    if s == "Giant"@ {
        Some(Tier::Giant)
    } else if s == "Big"@ {
        Some(Tier::Big)
    } else if s == "Medium"@ {
        Some(Tier::Medium)
    } else if s == "Tiny"@ {
        Some(Tier::Tiny)
    } else {
        None
    }
}

impl Tier {
    /// Parses a tier from its display name.
    pub fn parse(s: &str) -> (r: Option<Tier>)
        ensures
            r == tier_parse_spec(s@),
    {
        if str_eq(s, "Giant") {
            Some(Tier::Giant)
        } else if str_eq(s, "Big") {
            Some(Tier::Big)
        } else if str_eq(s, "Medium") {
            Some(Tier::Medium)
        } else if str_eq(s, "Tiny") {
            Some(Tier::Tiny)
        } else {
            None
        }
    }

    /// Display name of the tier.
    pub fn name(&self) -> (r: &'static str)
        ensures
            r@ == tier_name_spec(*self),
    {
        match self {
            Tier::Giant => "Giant",
            Tier::Big => "Big",
            Tier::Medium => "Medium",
            Tier::Tiny => "Tiny",
        }
    }
}

/// Nasty card kinds.
#[derive(Debug, Clone, Copy, PartialEq, Eq, Structural, Hash, PartialOrd, Ord)]
pub enum NastyKind {
    PoisonPillBug,
    LoanShark,
    TrojanHorse,
}

/// The three nasty kinds in class order.
pub const ALL_NASTY_KINDS: [NastyKind; 3] = [
    NastyKind::PoisonPillBug,
    NastyKind::LoanShark,
    NastyKind::TrojanHorse,
];

/// Display name of a nasty kind.
pub open spec fn nasty_name_spec(k: NastyKind) -> Seq<char> {
    match k {
        NastyKind::PoisonPillBug => "Poison Pill Bug"@,
        NastyKind::LoanShark => "Loan Shark"@,
        NastyKind::TrojanHorse => "Trojan Horse"@,
    }
}

/// The nasty kind whose name is `s`, if any.
pub open spec fn nasty_parse_spec(s: Seq<char>) -> Option<NastyKind> {
    if s == "Poison Pill Bug"@ {
        Some(NastyKind::PoisonPillBug)
    } else if s == "Loan Shark"@ {
        Some(NastyKind::LoanShark)
    } else if s == "Trojan Horse"@ {
        Some(NastyKind::TrojanHorse)
    } else {
        None
    }
}

impl NastyKind {
    /// Parses a nasty kind from its card name.
    pub fn parse(s: &str) -> (r: Option<NastyKind>)
        ensures
            r == nasty_parse_spec(s@),
    {
        if str_eq(s, "Poison Pill Bug") {
            Some(NastyKind::PoisonPillBug)
        } else if str_eq(s, "Loan Shark") {
            Some(NastyKind::LoanShark)
        } else if str_eq(s, "Trojan Horse") {
            Some(NastyKind::TrojanHorse)
        } else {
            None
        }
    }

    /// Card name of the nasty kind.
    pub fn name(&self) -> (r: &'static str)
        ensures
            r@ == nasty_name_spec(*self),
    {
        match self {
            NastyKind::PoisonPillBug => "Poison Pill Bug",
            NastyKind::LoanShark => "Loan Shark",
            NastyKind::TrojanHorse => "Trojan Horse",
        }
    }
}

/// Behavior triggered when a Nasty set is traded in.
#[derive(Debug, Clone, Copy, PartialEq, Eq, Structural)]
pub enum NastyEffect {
    /// The beneficiary may steal up to N cards (0..=N, their choice) from
    /// the trading-in player's Collection; caps silently if fewer exist.
    BuyerMayStealUpToNCards(u8),
    /// The beneficiary automatically steals 1 Point Token; fizzles silently
    /// if the player has none.
    BuyerStealsOnePointToken,
}

/// The nasty effect named by `s`, if any.
pub open spec fn nasty_effect_parse_spec(s: Seq<char>) -> Option<NastyEffect> {
    if s == "buyer_may_steal_up_to_1_card"@ {
        Some(NastyEffect::BuyerMayStealUpToNCards(1))
    } else if s == "buyer_may_steal_up_to_2_cards"@ {
        Some(NastyEffect::BuyerMayStealUpToNCards(2))
    } else if s == "buyer_steals_1_point_token"@ {
        Some(NastyEffect::BuyerStealsOnePointToken)
    } else {
        None
    }
}

impl NastyEffect {
    /// Parses a nasty effect from its config string.
    pub fn parse(s: &str) -> (r: Option<NastyEffect>)
        ensures
            r == nasty_effect_parse_spec(s@),
    {
        if str_eq(s, "buyer_may_steal_up_to_1_card") {
            Some(NastyEffect::BuyerMayStealUpToNCards(1))
        } else if str_eq(s, "buyer_may_steal_up_to_2_cards") {
            Some(NastyEffect::BuyerMayStealUpToNCards(2))
        } else if str_eq(s, "buyer_steals_1_point_token") {
            Some(NastyEffect::BuyerStealsOnePointToken)
        } else {
            None
        }
    }
}

/// Thingamabob card kinds.
#[derive(Debug, Clone, Copy, PartialEq, Eq, Structural, Hash, PartialOrd, Ord)]
pub enum ThingamabobKind {
    PlatonicIsolator,
    DetritalRepositioner,
    SuperDetritalRepositioner,
    CryptozooticExpander,
    SpectroelectricOptimeter,
}

/// The five thingamabob kinds in class order.
pub const ALL_THINGAMABOB_KINDS: [ThingamabobKind; 5] = [
    ThingamabobKind::PlatonicIsolator,
    ThingamabobKind::DetritalRepositioner,
    ThingamabobKind::SuperDetritalRepositioner,
    ThingamabobKind::CryptozooticExpander,
    ThingamabobKind::SpectroelectricOptimeter,
];

/// Card name of a thingamabob kind.
pub open spec fn thingamabob_name_spec(k: ThingamabobKind) -> Seq<char> {
    match k {
        ThingamabobKind::PlatonicIsolator => "Platonic Isolator"@,
        ThingamabobKind::DetritalRepositioner => "Detrital Repositioner"@,
        ThingamabobKind::SuperDetritalRepositioner => "Super Detrital Repositioner"@,
        ThingamabobKind::CryptozooticExpander => "Cryptozooptic Expander"@,
        ThingamabobKind::SpectroelectricOptimeter => "Spectroelectric Optimeter"@,
    }
}

/// The thingamabob kind whose name is `s`, if any.
pub open spec fn thingamabob_parse_spec(s: Seq<char>) -> Option<ThingamabobKind> {
    if s == "Platonic Isolator"@ {
        Some(ThingamabobKind::PlatonicIsolator)
    } else if s == "Detrital Repositioner"@ {
        Some(ThingamabobKind::DetritalRepositioner)
    } else if s == "Super Detrital Repositioner"@ {
        Some(ThingamabobKind::SuperDetritalRepositioner)
    } else if s == "Cryptozooptic Expander"@ {
        Some(ThingamabobKind::CryptozooticExpander)
    } else if s == "Spectroelectric Optimeter"@ {
        Some(ThingamabobKind::SpectroelectricOptimeter)
    } else {
        None
    }
}

impl ThingamabobKind {
    /// Parses a thingamabob kind from its card name.
    pub fn parse(s: &str) -> (r: Option<ThingamabobKind>)
        ensures
            r == thingamabob_parse_spec(s@),
    {
        if str_eq(s, "Platonic Isolator") {
            Some(ThingamabobKind::PlatonicIsolator)
        } else if str_eq(s, "Detrital Repositioner") {
            Some(ThingamabobKind::DetritalRepositioner)
        } else if str_eq(s, "Super Detrital Repositioner") {
            Some(ThingamabobKind::SuperDetritalRepositioner)
        } else if str_eq(s, "Cryptozooptic Expander") {
            Some(ThingamabobKind::CryptozooticExpander)
        } else if str_eq(s, "Spectroelectric Optimeter") {
            Some(ThingamabobKind::SpectroelectricOptimeter)
        } else {
            None
        }
    }

    /// Card name of the thingamabob kind.
    pub fn name(&self) -> (r: &'static str)
        ensures
            r@ == thingamabob_name_spec(*self),
    {
        match self {
            ThingamabobKind::PlatonicIsolator => "Platonic Isolator",
            ThingamabobKind::DetritalRepositioner => "Detrital Repositioner",
            ThingamabobKind::SuperDetritalRepositioner => "Super Detrital Repositioner",
            ThingamabobKind::CryptozooticExpander => "Cryptozooptic Expander",
            ThingamabobKind::SpectroelectricOptimeter => "Spectroelectric Optimeter",
        }
    }
}

/// Behavior triggered when a Thingamabob is played. The two "remove cards
/// from deals" cards share one parameterized variant.
#[derive(Debug, Clone, Copy, PartialEq, Eq, Structural)]
pub enum ThingamabobEffect {
    StealPointTokenFromRicherPlayer,
    RemoveCardsFromDeals { max_cards: u8, max_deals: u8 },
    AddHiddenHandCardToDeal,
    RevealCardInDeal,
}

/// The thingamabob effect named by `s`, if any.
pub open spec fn thingamabob_effect_parse_spec(s: Seq<char>) -> Option<ThingamabobEffect> {
    if s == "steal_point_token_from_richer_player"@ {
        Some(ThingamabobEffect::StealPointTokenFromRicherPlayer)
    } else if s == "remove_1_card_from_1_deal"@ {
        Some(ThingamabobEffect::RemoveCardsFromDeals { max_cards: 1, max_deals: 1 })
    } else if s == "remove_up_to_2_cards_from_1_or_2_deals"@ {
        Some(ThingamabobEffect::RemoveCardsFromDeals { max_cards: 2, max_deals: 2 })
    } else if s == "add_hidden_hand_card_to_deal"@ {
        Some(ThingamabobEffect::AddHiddenHandCardToDeal)
    } else if s == "reveal_1_card_in_a_deal"@ {
        Some(ThingamabobEffect::RevealCardInDeal)
    } else {
        None
    }
}

impl ThingamabobEffect {
    /// Parses a thingamabob effect from its config string.
    pub fn parse(s: &str) -> (r: Option<ThingamabobEffect>)
        ensures
            r == thingamabob_effect_parse_spec(s@),
    {
        if str_eq(s, "steal_point_token_from_richer_player") {
            Some(ThingamabobEffect::StealPointTokenFromRicherPlayer)
        } else if str_eq(s, "remove_1_card_from_1_deal") {
            Some(ThingamabobEffect::RemoveCardsFromDeals { max_cards: 1, max_deals: 1 })
        } else if str_eq(s, "remove_up_to_2_cards_from_1_or_2_deals") {
            Some(ThingamabobEffect::RemoveCardsFromDeals { max_cards: 2, max_deals: 2 })
        } else if str_eq(s, "add_hidden_hand_card_to_deal") {
            Some(ThingamabobEffect::AddHiddenHandCardToDeal)
        } else if str_eq(s, "reveal_1_card_in_a_deal") {
            Some(ThingamabobEffect::RevealCardInDeal)
        } else {
            None
        }
    }
}

/// The mechanical kind of a card.
#[derive(Debug, Clone, Copy, PartialEq, Eq, Structural, Hash)]
pub enum CardKind {
    Creature(Tier),
    Nasty(NastyKind),
    Thingamabob(ThingamabobKind),
}

/// One physical card.
#[derive(Debug, Clone, PartialEq, Eq)]
pub struct Card {
    /// The card's id.
    pub id: CardId,
    /// The card's mechanical kind.
    pub kind: CardKind,
    /// Display-only flavor name; never affects legality or set completion.
    pub name: String,
}

/// Number of distinct card classes: tier for Creatures, kind for Nasties
/// and Thingamabobs. Every observation feature is a count over these.
pub const NUM_CARD_CLASSES: usize = 12;

/// Stable class index of a kind.
pub open spec fn class_index_spec(k: CardKind) -> int {
    match k {
        CardKind::Creature(Tier::Giant) => 0,
        CardKind::Creature(Tier::Big) => 1,
        CardKind::Creature(Tier::Medium) => 2,
        CardKind::Creature(Tier::Tiny) => 3,
        CardKind::Nasty(NastyKind::PoisonPillBug) => 4,
        CardKind::Nasty(NastyKind::LoanShark) => 5,
        CardKind::Nasty(NastyKind::TrojanHorse) => 6,
        CardKind::Thingamabob(ThingamabobKind::PlatonicIsolator) => 7,
        CardKind::Thingamabob(ThingamabobKind::DetritalRepositioner) => 8,
        CardKind::Thingamabob(ThingamabobKind::SuperDetritalRepositioner) => 9,
        CardKind::Thingamabob(ThingamabobKind::CryptozooticExpander) => 10,
        CardKind::Thingamabob(ThingamabobKind::SpectroelectricOptimeter) => 11,
    }
}

/// The kind whose class index is `i` (inverse of [`class_index_spec`] on `0..12`).
pub open spec fn kind_of_class_spec(i: int) -> CardKind {
    if i == 0 {
        CardKind::Creature(Tier::Giant)
    } else if i == 1 {
        CardKind::Creature(Tier::Big)
    } else if i == 2 {
        CardKind::Creature(Tier::Medium)
    } else if i == 3 {
        CardKind::Creature(Tier::Tiny)
    } else if i == 4 {
        CardKind::Nasty(NastyKind::PoisonPillBug)
    } else if i == 5 {
        CardKind::Nasty(NastyKind::LoanShark)
    } else if i == 6 {
        CardKind::Nasty(NastyKind::TrojanHorse)
    } else if i == 7 {
        CardKind::Thingamabob(ThingamabobKind::PlatonicIsolator)
    } else if i == 8 {
        CardKind::Thingamabob(ThingamabobKind::DetritalRepositioner)
    } else if i == 9 {
        CardKind::Thingamabob(ThingamabobKind::SuperDetritalRepositioner)
    } else if i == 10 {
        CardKind::Thingamabob(ThingamabobKind::CryptozooticExpander)
    } else {
        CardKind::Thingamabob(ThingamabobKind::SpectroelectricOptimeter)
    }
}

/// The full name of a kind, e.g. `Creature:Tiny`.
pub open spec fn kind_name_spec(k: CardKind) -> Seq<char> {
    match k {
        CardKind::Creature(t) => "Creature:"@ + tier_name_spec(t),
        CardKind::Nasty(n) => "Nasty:"@ + nasty_name_spec(n),
        CardKind::Thingamabob(t) => "Thingamabob:"@ + thingamabob_name_spec(t),
    }
}

/// The kind named by `s` (the inverse of [`kind_name_spec`]): the text
/// before the first `:` picks the family, the rest names the member.
pub open spec fn kind_parse_spec(s: Seq<char>) -> Option<CardKind> {
    match s.index_of_first(':') {
        None => None,
        Some(i) => {
            let prefix = s.subrange(0, i);
            let rest = s.subrange(i + 1, s.len() as int);
            if prefix == "Creature"@ {
                match tier_parse_spec(rest) {
                    Some(t) => Some(CardKind::Creature(t)),
                    None => None,
                }
            } else if prefix == "Nasty"@ {
                match nasty_parse_spec(rest) {
                    Some(n) => Some(CardKind::Nasty(n)),
                    None => None,
                }
            } else if prefix == "Thingamabob"@ {
                match thingamabob_parse_spec(rest) {
                    Some(t) => Some(CardKind::Thingamabob(t)),
                    None => None,
                }
            } else {
                None
            }
        },
    }
}

/// Display name of the class with index `i`, in the stable class order.
pub open spec fn class_name_spec(i: int) -> Seq<char> {
    kind_name_spec(kind_of_class_spec(i))
}

/// Stable class name table: index here is the class index everywhere else.
pub fn card_class_name(i: usize) -> (r: &'static str)
    requires
        i < NUM_CARD_CLASSES,
    ensures
        r@ == class_name_spec(i as int),
{
    proof {
        reveal_strlit("Creature:Giant");
        reveal_strlit("Creature:Big");
        reveal_strlit("Creature:Medium");
        reveal_strlit("Creature:Tiny");
        reveal_strlit("Nasty:Poison Pill Bug");
        reveal_strlit("Nasty:Loan Shark");
        reveal_strlit("Nasty:Trojan Horse");
        reveal_strlit("Thingamabob:Platonic Isolator");
        reveal_strlit("Thingamabob:Detrital Repositioner");
        reveal_strlit("Thingamabob:Super Detrital Repositioner");
        reveal_strlit("Thingamabob:Cryptozooptic Expander");
        reveal_strlit("Thingamabob:Spectroelectric Optimeter");
        reveal_strlit("Creature:");
        reveal_strlit("Nasty:");
        reveal_strlit("Thingamabob:");
        reveal_strlit("Giant");
        reveal_strlit("Big");
        reveal_strlit("Medium");
        reveal_strlit("Tiny");
        reveal_strlit("Poison Pill Bug");
        reveal_strlit("Loan Shark");
        reveal_strlit("Trojan Horse");
        reveal_strlit("Platonic Isolator");
        reveal_strlit("Detrital Repositioner");
        reveal_strlit("Super Detrital Repositioner");
        reveal_strlit("Cryptozooptic Expander");
        reveal_strlit("Spectroelectric Optimeter");
    }
    let r = if i == 0 {
        "Creature:Giant"
    } else if i == 1 {
        "Creature:Big"
    } else if i == 2 {
        "Creature:Medium"
    } else if i == 3 {
        "Creature:Tiny"
    } else if i == 4 {
        "Nasty:Poison Pill Bug"
    } else if i == 5 {
        "Nasty:Loan Shark"
    } else if i == 6 {
        "Nasty:Trojan Horse"
    } else if i == 7 {
        "Thingamabob:Platonic Isolator"
    } else if i == 8 {
        "Thingamabob:Detrital Repositioner"
    } else if i == 9 {
        "Thingamabob:Super Detrital Repositioner"
    } else if i == 10 {
        "Thingamabob:Cryptozooptic Expander"
    } else {
        "Thingamabob:Spectroelectric Optimeter"
    };
    assert(r@ =~= class_name_spec(i as int));
    r
}

impl CardKind {
    /// This kind's index into a class-count vector.
    pub fn class_index(self) -> (r: usize)
        ensures
            r == class_index_spec(self),
            r < NUM_CARD_CLASSES,
    {
        match self {
            CardKind::Creature(Tier::Giant) => 0,
            CardKind::Creature(Tier::Big) => 1,
            CardKind::Creature(Tier::Medium) => 2,
            CardKind::Creature(Tier::Tiny) => 3,
            CardKind::Nasty(NastyKind::PoisonPillBug) => 4,
            CardKind::Nasty(NastyKind::LoanShark) => 5,
            CardKind::Nasty(NastyKind::TrojanHorse) => 6,
            CardKind::Thingamabob(ThingamabobKind::PlatonicIsolator) => 7,
            CardKind::Thingamabob(ThingamabobKind::DetritalRepositioner) => 8,
            CardKind::Thingamabob(ThingamabobKind::SuperDetritalRepositioner) => 9,
            CardKind::Thingamabob(ThingamabobKind::CryptozooticExpander) => 10,
            CardKind::Thingamabob(ThingamabobKind::SpectroelectricOptimeter) => 11,
        }
    }

    /// Full name of the kind, e.g. `Creature:Tiny`.
    pub fn name(self) -> (r: String)
        ensures
            r@ == kind_name_spec(self),
    {
        match self {
            CardKind::Creature(tier) => String::from_str("Creature:").concat(tier.name()),
            CardKind::Nasty(kind) => String::from_str("Nasty:").concat(kind.name()),
            CardKind::Thingamabob(kind) => String::from_str("Thingamabob:").concat(kind.name()),
        }
    }

    /// Inverse of [`CardKind::name`]: parses e.g. `Creature:Tiny` back into a kind.
    pub fn parse(s: &str) -> (r: Option<CardKind>)
        ensures
            r == kind_parse_spec(s@),
    {
        let pos = find_char(s, ':');
        match pos {
            None => {
                assert(s@.index_of_first(':') is None);
                None
            },
            Some(i) => {
                assert(s@.index_of_first(':') == Some(i as int));
                let n = s.unicode_len();
                let prefix = s.substring_char(0, i);
                let rest = s.substring_char(i + 1, n);
                if str_eq(prefix, "Creature") {
                    match Tier::parse(rest) {
                        Some(t) => Some(CardKind::Creature(t)),
                        None => None,
                    }
                } else if str_eq(prefix, "Nasty") {
                    match NastyKind::parse(rest) {
                        Some(k) => Some(CardKind::Nasty(k)),
                        None => None,
                    }
                } else if str_eq(prefix, "Thingamabob") {
                    match ThingamabobKind::parse(rest) {
                        Some(k) => Some(CardKind::Thingamabob(k)),
                        None => None,
                    }
                } else {
                    None
                }
            },
        }
    }
}

/// Class indices are a bijection between the twelve kinds and `0..12`.
pub proof fn lemma_class_index_bijection(k: CardKind)
    ensures
        0 <= class_index_spec(k) < NUM_CARD_CLASSES,
        kind_of_class_spec(class_index_spec(k)) == k,
{
}

/// Every kind's name parses back to that kind.
pub proof fn lemma_kind_name_round_trip(k: CardKind)
    ensures
        kind_parse_spec(kind_name_spec(k)) == Some(k),
{
    reveal_strlit("Creature:");
    reveal_strlit("Nasty:");
    reveal_strlit("Thingamabob:");
    reveal_strlit("Creature");
    reveal_strlit("Nasty");
    reveal_strlit("Thingamabob");
    reveal_strlit("Giant");
    reveal_strlit("Big");
    reveal_strlit("Medium");
    reveal_strlit("Tiny");
    reveal_strlit("Poison Pill Bug");
    reveal_strlit("Loan Shark");
    reveal_strlit("Trojan Horse");
    reveal_strlit("Platonic Isolator");
    reveal_strlit("Detrital Repositioner");
    reveal_strlit("Super Detrital Repositioner");
    reveal_strlit("Cryptozooptic Expander");
    reveal_strlit("Spectroelectric Optimeter");
    let s = kind_name_spec(k);
    let (p, rest): (Seq<char>, Seq<char>) = match k {
        CardKind::Creature(t) => ("Creature"@, tier_name_spec(t)),
        CardKind::Nasty(n) => ("Nasty"@, nasty_name_spec(n)),
        CardKind::Thingamabob(t) => ("Thingamabob"@, thingamabob_name_spec(t)),
    };
    assert(s =~= p + seq![':'] + rest);
    s.index_of_first_ensures(':');
    assert(s[p.len() as int] == ':');
    assert(forall|j: int| 0 <= j < p.len() ==> s[j] != ':');
    assert(s.index_of_first(':') == Some(p.len() as int));
    assert(s.subrange(0, p.len() as int) =~= p);
    assert(s.subrange(p.len() as int + 1, s.len() as int) =~= rest);
}

} // verus!
