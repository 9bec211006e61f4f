//! Deck configuration: the rules catalog (set sizes, effect bindings) and
//! the concrete cards to deal, built from the raw rows of a deck config.

use vstd::prelude::*;
use vstd::string::StringExecFns;
use crate::card::{
    Card, CardId, CardKind, NastyEffect, NastyKind, ThingamabobEffect, ThingamabobKind, Tier,
    tier_parse_spec, nasty_parse_spec, nasty_effect_parse_spec, thingamabob_parse_spec,
    thingamabob_effect_parse_spec,
};

verus! {

/// Raw config row for one creature tier.
#[derive(Debug, Clone)]
pub struct RawCreatureTier {
    /// Tier name as written in the config.
    pub tier: String,
    /// Number of copies of one card that make a completed set.
    pub set_size: u32,
    /// Total number of physical copies in the deck.
    pub copies: u32,
}

/// Raw config row for one nasty.
#[derive(Debug, Clone)]
pub struct RawNasty {
    /// Card name as written in the config.
    pub name: String,
    /// Number of copies of one card that make a completed set.
    pub set_size: u32,
    /// Total number of physical copies in the deck.
    pub copies: u32,
    /// Effect name as written in the config.
    pub effect: String,
}

/// Raw config row for one thingamabob.
#[derive(Debug, Clone)]
pub struct RawThingamabob {
    /// Card name as written in the config.
    pub name: String,
    /// Total number of physical copies in the deck.
    pub copies: u32,
    /// Effect name as written in the config.
    pub effect: String,
}

/// Raw shape of a deck config, before names and effects are parsed.
#[derive(Debug, Clone)]
pub struct RawDeckConfig {
    /// Creature tier rows.
    pub creature_tiers: Vec<RawCreatureTier>,
    /// Nasty rows.
    pub nasties: Vec<RawNasty>,
    /// Thingamabob rows.
    pub thingamabobs: Vec<RawThingamabob>,
}

/// Everything that can go wrong loading a deck config.
#[derive(Debug, Clone, PartialEq, Eq)]
pub enum DeckConfigError {
    /// The config text itself failed to parse.
    Toml(String),
    /// A creature tier name didn't match any known tier.
    UnknownTier(String),
    /// A nasty name didn't match any known nasty kind.
    UnknownNasty(String),
    /// A nasty effect string didn't match any known nasty effect.
    UnknownNastyEffect(String),
    /// A thingamabob name didn't match any known thingamabob kind.
    UnknownThingamabob(String),
    /// A thingamabob effect string didn't match any known effect.
    UnknownThingamabobEffect(String),
    /// The same creature tier was listed twice.
    DuplicateTier(String),
    /// The same nasty was listed twice.
    DuplicateNasty(String),
    /// The same thingamabob was listed twice.
    DuplicateThingamabob(String),
}

/// Position of a tier in the catalog's tier table (class order).
pub open spec fn tier_index_spec(t: Tier) -> int {
    match t {
        Tier::Giant => 0,
        Tier::Big => 1,
        Tier::Medium => 2,
        Tier::Tiny => 3,
    }
}

/// Position of a nasty kind in the catalog's nasty tables (class order).
pub open spec fn nasty_index_spec(k: NastyKind) -> int {
    match k {
        NastyKind::PoisonPillBug => 0,
        NastyKind::LoanShark => 1,
        NastyKind::TrojanHorse => 2,
    }
}

/// Position of a thingamabob kind in the catalog's effect table (class order).
pub open spec fn thingamabob_index_spec(k: ThingamabobKind) -> int {
    match k {
        ThingamabobKind::PlatonicIsolator => 0,
        ThingamabobKind::DetritalRepositioner => 1,
        ThingamabobKind::SuperDetritalRepositioner => 2,
        ThingamabobKind::CryptozooticExpander => 3,
        ThingamabobKind::SpectroelectricOptimeter => 4,
    }
}

/// Catalog table index of a tier.
pub fn tier_index(t: Tier) -> (r: usize)
    ensures
        r == tier_index_spec(t),
{
    match t {
        Tier::Giant => 0,
        Tier::Big => 1,
        Tier::Medium => 2,
        Tier::Tiny => 3,
    }
}

/// Catalog table index of a nasty kind.
pub fn nasty_index(k: NastyKind) -> (r: usize)
    ensures
        r == nasty_index_spec(k),
{
    match k {
        NastyKind::PoisonPillBug => 0,
        NastyKind::LoanShark => 1,
        NastyKind::TrojanHorse => 2,
    }
}

/// Catalog table index of a thingamabob kind.
pub fn thingamabob_index(k: ThingamabobKind) -> (r: usize)
    ensures
        r == thingamabob_index_spec(k),
{
    match k {
        ThingamabobKind::PlatonicIsolator => 0,
        ThingamabobKind::DetritalRepositioner => 1,
        ThingamabobKind::SuperDetritalRepositioner => 2,
        ThingamabobKind::CryptozooticExpander => 3,
        ThingamabobKind::SpectroelectricOptimeter => 4,
    }
}

/// Rules data derived from the deck config: set sizes and effect bindings,
/// one slot per tier or kind in class order, `None` where the config does
/// not list that tier or kind. Game logic consults this; it never
/// hardcodes set sizes.
#[derive(Debug, Clone, Copy)]
pub struct Catalog {
    /// Set size per creature tier.
    pub creature_set_size: [Option<u32>; 4],
    /// Set size per nasty kind.
    pub nasty_set_size: [Option<u32>; 3],
    /// Effect bound to each nasty kind.
    pub nasty_effect: [Option<NastyEffect>; 3],
    /// Effect bound to each thingamabob kind.
    pub thingamabob_effect: [Option<ThingamabobEffect>; 5],
}

impl Catalog {
    /// Whether the catalog lists this tier.
    pub open spec fn has_tier(self, t: Tier) -> bool {
        self.creature_set_size@[tier_index_spec(t)] is Some
    }

    /// Whether the catalog lists this nasty kind.
    pub open spec fn has_nasty(self, k: NastyKind) -> bool {
        self.nasty_set_size@[nasty_index_spec(k)] is Some
    }

    /// Whether the catalog lists this thingamabob kind.
    pub open spec fn has_thingamabob(self, k: ThingamabobKind) -> bool {
        self.thingamabob_effect@[thingamabob_index_spec(k)] is Some
    }

    /// Set size of a listed tier.
    pub open spec fn tier_size(self, t: Tier) -> u32 {
        self.creature_set_size@[tier_index_spec(t)]->0
    }

    /// Set size of a listed nasty kind.
    pub open spec fn nasty_size(self, k: NastyKind) -> u32 {
        self.nasty_set_size@[nasty_index_spec(k)]->0
    }

    /// Effect of a listed nasty kind.
    pub open spec fn nasty_effect_of(self, k: NastyKind) -> NastyEffect {
        self.nasty_effect@[nasty_index_spec(k)]->0
    }

    /// Effect of a listed thingamabob kind.
    pub open spec fn thingamabob_effect_of(self, k: ThingamabobKind) -> ThingamabobEffect {
        self.thingamabob_effect@[thingamabob_index_spec(k)]->0
    }

    /// A listed nasty kind always has an effect bound, and every listed set
    /// size is at least one (a set of zero cards would be traded in forever).
    pub open spec fn wf(self) -> bool {
        &&& forall|i: int| 0 <= i < 3 ==> (#[trigger] self.nasty_set_size@[i] is Some
            <==> self.nasty_effect@[i] is Some)
        &&& forall|i: int| 0 <= i < 3 ==> (#[trigger] self.nasty_set_size@[i] matches Some(n) ==> n >= 1)
        &&& forall|i: int| 0 <= i < 4 ==> (#[trigger] self.creature_set_size@[i] matches Some(n) ==> n >= 1)
    }

    /// Set size for a creature tier.
    pub fn creature_set_size(&self, tier: Tier) -> (r: u32)
        requires
            self.has_tier(tier),
        ensures
            r == self.tier_size(tier),
    {
        self.creature_set_size[tier_index(tier)].unwrap()
    }

    /// Set size for a nasty kind.
    pub fn nasty_set_size(&self, kind: NastyKind) -> (r: u32)
        requires
            self.has_nasty(kind),
        ensures
            r == self.nasty_size(kind),
    {
        self.nasty_set_size[nasty_index(kind)].unwrap()
    }

    /// Effect bound to a nasty kind.
    pub fn nasty_effect(&self, kind: NastyKind) -> (r: NastyEffect)
        requires
            self.nasty_effect@[nasty_index_spec(kind)] is Some,
        ensures
            r == self.nasty_effect_of(kind),
    {
        self.nasty_effect[nasty_index(kind)].unwrap()
    }

    /// Effect bound to a thingamabob kind.
    pub fn thingamabob_effect(&self, kind: ThingamabobKind) -> (r: ThingamabobEffect)
        requires
            self.has_thingamabob(kind),
        ensures
            r == self.thingamabob_effect_of(kind),
    {
        self.thingamabob_effect[thingamabob_index(kind)].unwrap()
    }
}

/// A fully parsed deck config: rules catalog plus the concrete cards.
#[derive(Debug, Clone)]
pub struct DeckConfig {
    /// Rules data for this deck.
    pub catalog: Catalog,
    /// Every physical card in the deck.
    pub cards: Vec<Card>,
}

/// Display-only flavor name of the `index`-th copy of a creature tier:
/// each tier cycles through its own list of names.
pub open spec fn flavor_name_spec(tier: Tier, index: u32) -> Seq<char> {
    match tier {
        Tier::Giant => {
            let i = index % 4;
            if i == 0 {
                "Mega Mammoth"@
            } else if i == 1 {
                "Colossal Kraken"@
            } else if i == 2 {
                "Titan Sasquatch"@
            } else {
                "Great Griffin"@
            }
        },
        Tier::Big => {
            let i = index % 5;
            if i == 0 {
                "Bullbear"@
            } else if i == 1 {
                "Direwolf"@
            } else if i == 2 {
                "Thunder Yeti"@
            } else if i == 3 {
                "Rock Troll"@
            } else {
                "Cave Bear"@
            }
        },
        Tier::Medium => {
            let i = index % 5;
            if i == 0 {
                "Jackalope"@
            } else if i == 1 {
                "Chupacabra"@
            } else if i == 2 {
                "Wendigo"@
            } else if i == 3 {
                "Moth Man"@
            } else {
                "Skunk Ape"@
            }
        },
        Tier::Tiny => {
            let i = index % 5;
            if i == 0 {
                "Gremlin"@
            } else if i == 1 {
                "Pixie Newt"@
            } else if i == 2 {
                "Bog Sprite"@
            } else if i == 3 {
                "Fen Imp"@
            } else {
                "Marsh Gnome"@
            }
        },
    }
}

/// Display-only flavor names, cycled per tier; never affects rules.
pub fn creature_flavor_name(tier: Tier, index: u32) -> (r: String)
    ensures
        r@ == flavor_name_spec(tier, index),
{
    let s = match tier {
        Tier::Giant => {
            let i = index % 4;
            if i == 0 {
                "Mega Mammoth"
            } else if i == 1 {
                "Colossal Kraken"
            } else if i == 2 {
                "Titan Sasquatch"
            } else {
                "Great Griffin"
            }
        },
        Tier::Big => {
            let i = index % 5;
            if i == 0 {
                "Bullbear"
            } else if i == 1 {
                "Direwolf"
            } else if i == 2 {
                "Thunder Yeti"
            } else if i == 3 {
                "Rock Troll"
            } else {
                "Cave Bear"
            }
        },
        Tier::Medium => {
            let i = index % 5;
            if i == 0 {
                "Jackalope"
            } else if i == 1 {
                "Chupacabra"
            } else if i == 2 {
                "Wendigo"
            } else if i == 3 {
                "Moth Man"
            } else {
                "Skunk Ape"
            }
        },
        Tier::Tiny => {
            let i = index % 5;
            if i == 0 {
                "Gremlin"
            } else if i == 1 {
                "Pixie Newt"
            } else if i == 2 {
                "Bog Sprite"
            } else if i == 3 {
                "Fen Imp"
            } else {
                "Marsh Gnome"
            }
        },
    };
    String::from_str(s)
}

/// Partial result of reading a deck config's rows in order.
pub struct DeckBuild {
    /// Creature set sizes per tier table slot.
    pub creature_sizes: Seq<Option<u32>>,
    /// Nasty set sizes per kind table slot.
    pub nasty_sizes: Seq<Option<u32>>,
    /// Nasty effects per kind table slot.
    pub nasty_effects: Seq<Option<NastyEffect>>,
    /// Thingamabob effects per kind table slot.
    pub thingamabob_effects: Seq<Option<ThingamabobEffect>>,
    /// Kind of each card built so far, in id order.
    pub kinds: Seq<CardKind>,
    /// Display name of each card built so far, in id order.
    pub names: Seq<Seq<char>>,
}

/// Nothing read yet.
pub open spec fn empty_build() -> DeckBuild {
    DeckBuild {
        creature_sizes: seq![None, None, None, None],
        nasty_sizes: seq![None, None, None],
        nasty_effects: seq![None, None, None],
        thingamabob_effects: seq![None, None, None, None, None],
        kinds: Seq::empty(),
        names: Seq::empty(),
    }
}

/// Reads the creature rows in order; the first unknown or repeated tier
/// is the error.
pub open spec fn read_creatures(rows: Seq<RawCreatureTier>) -> Result<DeckBuild, DeckConfigError>
    decreases rows.len(),
{
    if rows.len() == 0 {
        Ok(empty_build())
    } else {
        match read_creatures(rows.drop_last()) {
            Err(e) => Err(e),
            Ok(b) => {
                let row = rows.last();
                match tier_parse_spec(row.tier@) {
                    None => Err(DeckConfigError::UnknownTier(row.tier)),
                    Some(t) => if b.creature_sizes[tier_index_spec(t)] is Some {
                        Err(DeckConfigError::DuplicateTier(row.tier))
                    } else {
                        Ok(DeckBuild {
                            creature_sizes: b.creature_sizes.update(
                                tier_index_spec(t),
                                Some(row.set_size),
                            ),
                            kinds: b.kinds + Seq::new(
                                row.copies as nat,
                                |i: int| CardKind::Creature(t),
                            ),
                            names: b.names + Seq::new(
                                row.copies as nat,
                                |i: int| flavor_name_spec(t, i as u32),
                            ),
                            ..b
                        })
                    },
                }
            },
        }
    }
}

/// Reads the nasty rows in order after `start`.
pub open spec fn read_nasties(start: DeckBuild, rows: Seq<RawNasty>) -> Result<DeckBuild, DeckConfigError>
    decreases rows.len(),
{
    if rows.len() == 0 {
        Ok(start)
    } else {
        match read_nasties(start, rows.drop_last()) {
            Err(e) => Err(e),
            Ok(b) => {
                let row = rows.last();
                match nasty_parse_spec(row.name@) {
                    None => Err(DeckConfigError::UnknownNasty(row.name)),
                    Some(k) => match nasty_effect_parse_spec(row.effect@) {
                        None => Err(DeckConfigError::UnknownNastyEffect(row.effect)),
                        Some(eff) => if b.nasty_sizes[nasty_index_spec(k)] is Some {
                            Err(DeckConfigError::DuplicateNasty(row.name))
                        } else {
                            Ok(DeckBuild {
                                nasty_sizes: b.nasty_sizes.update(
                                    nasty_index_spec(k),
                                    Some(row.set_size),
                                ),
                                nasty_effects: b.nasty_effects.update(nasty_index_spec(k), Some(eff)),
                                kinds: b.kinds + Seq::new(
                                    row.copies as nat,
                                    |i: int| CardKind::Nasty(k),
                                ),
                                names: b.names + Seq::new(
                                    row.copies as nat,
                                    |i: int| crate::card::nasty_name_spec(k),
                                ),
                                ..b
                            })
                        },
                    },
                }
            },
        }
    }
}

/// Reads the thingamabob rows in order after `start`.
pub open spec fn read_thingamabobs(start: DeckBuild, rows: Seq<RawThingamabob>) -> Result<DeckBuild, DeckConfigError>
    decreases rows.len(),
{
    if rows.len() == 0 {
        Ok(start)
    } else {
        match read_thingamabobs(start, rows.drop_last()) {
            Err(e) => Err(e),
            Ok(b) => {
                let row = rows.last();
                match thingamabob_parse_spec(row.name@) {
                    None => Err(DeckConfigError::UnknownThingamabob(row.name)),
                    Some(k) => match thingamabob_effect_parse_spec(row.effect@) {
                        None => Err(DeckConfigError::UnknownThingamabobEffect(row.effect)),
                        Some(eff) => if b.thingamabob_effects[thingamabob_index_spec(k)] is Some {
                            Err(DeckConfigError::DuplicateThingamabob(row.name))
                        } else {
                            Ok(DeckBuild {
                                thingamabob_effects: b.thingamabob_effects.update(
                                    thingamabob_index_spec(k),
                                    Some(eff),
                                ),
                                kinds: b.kinds + Seq::new(
                                    row.copies as nat,
                                    |i: int| CardKind::Thingamabob(k),
                                ),
                                names: b.names + Seq::new(
                                    row.copies as nat,
                                    |i: int| crate::card::thingamabob_name_spec(k),
                                ),
                                ..b
                            })
                        },
                    },
                }
            },
        }
    }
}

/// The whole config read in order: creatures, then nasties, then thingamabobs.
pub open spec fn read_deck(raw: RawDeckConfig) -> Result<DeckBuild, DeckConfigError> {
    match read_creatures(raw.creature_tiers@) {
        Err(e) => Err(e),
        Ok(b1) => match read_nasties(b1, raw.nasties@) {
            Err(e) => Err(e),
            Ok(b2) => read_thingamabobs(b2, raw.thingamabobs@),
        },
    }
}

/// Total copies over the creature rows.
pub open spec fn creature_copies(rows: Seq<RawCreatureTier>) -> int
    decreases rows.len(),
{
    if rows.len() == 0 { 0 } else { creature_copies(rows.drop_last()) + rows.last().copies }
}

/// Total copies over the nasty rows.
pub open spec fn nasty_copies(rows: Seq<RawNasty>) -> int
    decreases rows.len(),
{
    if rows.len() == 0 { 0 } else { nasty_copies(rows.drop_last()) + rows.last().copies }
}

/// Total copies over the thingamabob rows.
pub open spec fn thingamabob_copies(rows: Seq<RawThingamabob>) -> int
    decreases rows.len(),
{
    if rows.len() == 0 { 0 } else { thingamabob_copies(rows.drop_last()) + rows.last().copies }
}

/// Total copies over every row of the config.
pub open spec fn total_copies(raw: RawDeckConfig) -> int {
    creature_copies(raw.creature_tiers@) + nasty_copies(raw.nasties@) + thingamabob_copies(
        raw.thingamabobs@,
    )
}

/// A deck whose cards are exactly the ones `b` describes, with ids `0..n`.
pub open spec fn deck_matches(d: DeckConfig, b: DeckBuild) -> bool {
    &&& d.catalog.creature_set_size@ == b.creature_sizes
    &&& d.catalog.nasty_set_size@ == b.nasty_sizes
    &&& d.catalog.nasty_effect@ == b.nasty_effects
    &&& d.catalog.thingamabob_effect@ == b.thingamabob_effects
    &&& d.cards@.len() == b.kinds.len()
    &&& b.names.len() == b.kinds.len()
    &&& forall|i: int| 0 <= i < d.cards@.len() ==> {
        &&& d.cards@[i].id == i
        &&& d.cards@[i].kind == b.kinds[i]
        &&& d.cards@[i].name@ == b.names[i]
    }
}

impl DeckConfig {
    /// Total number of physical cards in the deck.
    pub fn total_cards(&self) -> (r: usize)
        ensures
            r == self.cards@.len(),
    {
        self.cards.len()
    }
}

} // verus!

verus! {

/// Prefix sums of creature copies are non-negative and bounded by the total.
proof fn lemma_creature_copies_prefix(rows: Seq<RawCreatureTier>, k: int)
    requires
        0 <= k <= rows.len(),
    ensures
        0 <= creature_copies(rows.take(k)) <= creature_copies(rows),
    decreases rows.len(),
{
    if k == rows.len() {
        assert(rows.take(k) =~= rows);
    } else {
        assert(rows.drop_last().take(k) =~= rows.take(k));
        lemma_creature_copies_prefix(rows.drop_last(), k);
    }
    lemma_creature_copies_nonneg(rows.take(k));
}

proof fn lemma_creature_copies_nonneg(rows: Seq<RawCreatureTier>)
    ensures
        0 <= creature_copies(rows),
    decreases rows.len(),
{
    if rows.len() > 0 {
        lemma_creature_copies_nonneg(rows.drop_last());
    }
}

proof fn lemma_nasty_copies_prefix(rows: Seq<RawNasty>, k: int)
    requires
        0 <= k <= rows.len(),
    ensures
        0 <= nasty_copies(rows.take(k)) <= nasty_copies(rows),
    decreases rows.len(),
{
    if k == rows.len() {
        assert(rows.take(k) =~= rows);
    } else {
        assert(rows.drop_last().take(k) =~= rows.take(k));
        lemma_nasty_copies_prefix(rows.drop_last(), k);
    }
    lemma_nasty_copies_nonneg(rows.take(k));
}

proof fn lemma_nasty_copies_nonneg(rows: Seq<RawNasty>)
    ensures
        0 <= nasty_copies(rows),
    decreases rows.len(),
{
    if rows.len() > 0 {
        lemma_nasty_copies_nonneg(rows.drop_last());
    }
}

proof fn lemma_thingamabob_copies_prefix(rows: Seq<RawThingamabob>, k: int)
    requires
        0 <= k <= rows.len(),
    ensures
        0 <= thingamabob_copies(rows.take(k)) <= thingamabob_copies(rows),
    decreases rows.len(),
{
    if k == rows.len() {
        assert(rows.take(k) =~= rows);
    } else {
        assert(rows.drop_last().take(k) =~= rows.take(k));
        lemma_thingamabob_copies_prefix(rows.drop_last(), k);
    }
    lemma_thingamabob_copies_nonneg(rows.take(k));
}

proof fn lemma_thingamabob_copies_nonneg(rows: Seq<RawThingamabob>)
    ensures
        0 <= thingamabob_copies(rows),
    decreases rows.len(),
{
    if rows.len() > 0 {
        lemma_thingamabob_copies_nonneg(rows.drop_last());
    }
}

/// Once a prefix of the creature rows fails, the whole read fails the same way.
proof fn lemma_creatures_err_sticks(rows: Seq<RawCreatureTier>, k: int)
    requires
        0 <= k <= rows.len(),
        read_creatures(rows.take(k)) is Err,
    ensures
        read_creatures(rows) == read_creatures(rows.take(k)),
    decreases rows.len(),
{
    if k == rows.len() {
        assert(rows.take(k) =~= rows);
    } else {
        assert(rows.drop_last().take(k) =~= rows.take(k));
        lemma_creatures_err_sticks(rows.drop_last(), k);
    }
}

proof fn lemma_nasties_err_sticks(start: DeckBuild, rows: Seq<RawNasty>, k: int)
    requires
        0 <= k <= rows.len(),
        read_nasties(start, rows.take(k)) is Err,
    ensures
        read_nasties(start, rows) == read_nasties(start, rows.take(k)),
    decreases rows.len(),
{
    if k == rows.len() {
        assert(rows.take(k) =~= rows);
    } else {
        assert(rows.drop_last().take(k) =~= rows.take(k));
        lemma_nasties_err_sticks(start, rows.drop_last(), k);
    }
}

proof fn lemma_thingamabobs_err_sticks(start: DeckBuild, rows: Seq<RawThingamabob>, k: int)
    requires
        0 <= k <= rows.len(),
        read_thingamabobs(start, rows.take(k)) is Err,
    ensures
        read_thingamabobs(start, rows) == read_thingamabobs(start, rows.take(k)),
    decreases rows.len(),
{
    if k == rows.len() {
        assert(rows.take(k) =~= rows);
    } else {
        assert(rows.drop_last().take(k) =~= rows.take(k));
        lemma_thingamabobs_err_sticks(start, rows.drop_last(), k);
    }
}

/// The cards built so far agree with a partial read.
pub open spec fn cards_match(cards: Seq<Card>, b: DeckBuild) -> bool {
    &&& cards.len() == b.kinds.len()
    &&& b.names.len() == b.kinds.len()
    &&& forall|i: int| 0 <= i < cards.len() ==> {
        &&& #[trigger] cards[i].id == i
        &&& cards[i].kind == b.kinds[i]
        &&& cards[i].name@ == b.names[i]
    }
}

/// Appends `copies` cards of `kind`, the `i`-th named `name_of(i)`.
fn push_copies_creature(cards: &mut Vec<Card>, next_id: &mut u32, tier: Tier, copies: u32, Ghost(limit): Ghost<int>)
    requires
        old(cards)@.len() == *old(next_id),
        *old(next_id) + copies <= limit <= u32::MAX,
        forall|i: int| 0 <= i < old(cards)@.len() ==> #[trigger] old(cards)@[i].id == i,
    ensures
        final(cards)@.len() == *final(next_id),
        final(cards)@.len() == old(cards)@.len() + copies,
        forall|i: int| 0 <= i < old(cards)@.len() ==> #[trigger] final(cards)@[i] == old(cards)@[i],
        forall|i: int| #![trigger final(cards)@[i]] old(cards)@.len() <= i < final(cards)@.len() ==> {
            &&& final(cards)@[i].id == i
            &&& final(cards)@[i].kind == CardKind::Creature(tier)
            &&& final(cards)@[i].name@ == flavor_name_spec(tier, (i - old(cards)@.len()) as u32)
        },
{
    let ghost start = cards@.len();
    let mut i: u32 = 0;
    while i < copies
        invariant
            cards@.len() == *next_id,
            cards@.len() == start + i,
            start + copies <= limit <= u32::MAX,
            i <= copies,
            forall|j: int| 0 <= j < start ==> #[trigger] cards@[j] == old(cards)@[j],
            forall|j: int| #![trigger cards@[j]] start <= j < cards@.len() ==> {
                &&& cards@[j].id == j
                &&& cards@[j].kind == CardKind::Creature(tier)
                &&& cards@[j].name@ == flavor_name_spec(tier, (j - start) as u32)
            },
        decreases copies - i,
    {
        let name = creature_flavor_name(tier, i);
        cards.push(Card { id: *next_id, kind: CardKind::Creature(tier), name });
        *next_id = *next_id + 1;
        i = i + 1;
    }
}

/// Appends `copies` cards of a nasty or thingamabob kind, all named `name`.
fn push_copies_named(cards: &mut Vec<Card>, next_id: &mut u32, kind: CardKind, name: &str, copies: u32, Ghost(limit): Ghost<int>)
    requires
        old(cards)@.len() == *old(next_id),
        *old(next_id) + copies <= limit <= u32::MAX,
    ensures
        final(cards)@.len() == *final(next_id),
        final(cards)@.len() == old(cards)@.len() + copies,
        forall|i: int| 0 <= i < old(cards)@.len() ==> #[trigger] final(cards)@[i] == old(cards)@[i],
        forall|i: int| #![trigger final(cards)@[i]] old(cards)@.len() <= i < final(cards)@.len() ==> {
            &&& final(cards)@[i].id == i
            &&& final(cards)@[i].kind == kind
            &&& final(cards)@[i].name@ == name@
        },
{
    let ghost start = cards@.len();
    let mut i: u32 = 0;
    while i < copies
        invariant
            cards@.len() == *next_id,
            cards@.len() == start + i,
            start + copies <= limit <= u32::MAX,
            i <= copies,
            forall|j: int| 0 <= j < start ==> #[trigger] cards@[j] == old(cards)@[j],
            forall|j: int| #![trigger cards@[j]] start <= j < cards@.len() ==> {
                &&& cards@[j].id == j
                &&& cards@[j].kind == kind
                &&& cards@[j].name@ == name@
            },
        decreases copies - i,
    {
        cards.push(Card { id: *next_id, kind, name: String::from_str(name) });
        *next_id = *next_id + 1;
        i = i + 1;
    }
}

impl DeckConfig {
    /// Builds the catalog and the cards from a config's raw rows, checking
    /// every name and effect and rejecting repeated entries. Card ids are
    /// assigned `0..n` in row order: creatures, then nasties, then
    /// thingamabobs.
    pub fn from_raw(raw: RawDeckConfig) -> (r: Result<DeckConfig, DeckConfigError>)
        requires
            total_copies(raw) <= u32::MAX,
        ensures
            match read_deck(raw) {
                Err(e) => r == Err::<DeckConfig, DeckConfigError>(e),
                Ok(b) => r matches Ok(d) && deck_matches(d, b),
            },
    {
        let ghost crows = raw.creature_tiers@;
        let ghost nrows = raw.nasties@;
        let ghost trows = raw.thingamabobs@;
        let ghost total_n = nasty_copies(nrows);
        let ghost total_t = thingamabob_copies(trows);
        proof {
            lemma_nasty_copies_nonneg(nrows);
            lemma_thingamabob_copies_nonneg(trows);
        }
        let mut cs: Vec<Option<u32>> = vec![None, None, None, None];
        let mut cards: Vec<Card> = Vec::new();
        let mut next_id: u32 = 0;
        let mut r: usize = 0;
        assert(crows.take(0) =~= Seq::<RawCreatureTier>::empty());
        while r < raw.creature_tiers.len()
            invariant
                crows == raw.creature_tiers@,
                total_copies(raw) <= u32::MAX,
                total_n == nasty_copies(nrows),
                total_t == thingamabob_copies(trows),
                nrows == raw.nasties@,
                trows == raw.thingamabobs@,
                0 <= total_n,
                0 <= total_t,
                r <= crows.len(),
                cs@.len() == 4,
                read_creatures(crows.take(r as int)) matches Ok(b) && cs@ == b.creature_sizes
                    && cards_match(cards@, b) && b.nasty_sizes == empty_build().nasty_sizes
                    && b.nasty_effects == empty_build().nasty_effects
                    && b.thingamabob_effects == empty_build().thingamabob_effects,
                next_id == cards@.len(),
                cards@.len() + creature_copies(crows) - creature_copies(crows.take(r as int))
                    + total_n + total_t <= u32::MAX,
            decreases crows.len() - r,
        {
            proof {
                lemma_creature_copies_prefix(crows, r as int + 1);
                assert(crows.take(r as int + 1).drop_last() =~= crows.take(r as int));
                assert(crows.take(r as int + 1).last() == crows[r as int]);
            }
            let ghost b = read_creatures(crows.take(r as int))->Ok_0;
            let row = &raw.creature_tiers[r];
            let tier = match Tier::parse(row.tier.as_str()) {
                Some(t) => t,
                None => {
                    proof {
                        lemma_creatures_err_sticks(crows, r as int + 1);
                    }
                    return Err(DeckConfigError::UnknownTier(row.tier.clone()));
                },
            };
            let ti = tier_index(tier);
            if cs[ti].is_some() {
                proof {
                    lemma_creatures_err_sticks(crows, r as int + 1);
                }
                return Err(DeckConfigError::DuplicateTier(row.tier.clone()));
            }
            cs.set(ti, Some(row.set_size));
            let ghost before = cards@;
            push_copies_creature(&mut cards, &mut next_id, tier, row.copies, Ghost(u32::MAX as int));
            proof {
                let b2 = read_creatures(crows.take(r as int + 1))->Ok_0;
                assert(b2.kinds =~= b.kinds + Seq::new(row.copies as nat, |i: int| CardKind::Creature(tier)));
                assert(b2.names =~= b.names + Seq::new(row.copies as nat, |i: int| flavor_name_spec(tier, i as u32)));
                assert forall|i: int| 0 <= i < cards@.len() implies {
                    &&& #[trigger] cards@[i].id == i
                    &&& cards@[i].kind == b2.kinds[i]
                    &&& cards@[i].name@ == b2.names[i]
                } by {
                    if i < before.len() {
                        assert(cards@[i] == before[i]);
                    }
                };
            }
            r += 1;
        }
        proof {
            assert(crows.take(r as int) =~= crows);
        }
        let ghost b1 = read_creatures(crows)->Ok_0;
        let mut ns: Vec<Option<u32>> = vec![None, None, None];
        let mut ne: Vec<Option<NastyEffect>> = vec![None, None, None];
        let mut r: usize = 0;
        assert(nrows.take(0) =~= Seq::<RawNasty>::empty());
        while r < raw.nasties.len()
            invariant
                nrows == raw.nasties@,
                trows == raw.thingamabobs@,
                total_n == nasty_copies(nrows),
                total_t == thingamabob_copies(trows),
                0 <= total_t,
                r <= nrows.len(),
                cs@.len() == 4,
                ns@.len() == 3,
                ne@.len() == 3,
                read_nasties(b1, nrows.take(r as int)) matches Ok(b) && cs@ == b.creature_sizes
                    && ns@ == b.nasty_sizes && ne@ == b.nasty_effects
                    && cards_match(cards@, b)
                    && b.thingamabob_effects == empty_build().thingamabob_effects,
                read_creatures(crows) == Ok::<DeckBuild, DeckConfigError>(b1),
                read_deck(raw) == (match read_nasties(b1, nrows) {
                    Err(e) => Err(e),
                    Ok(b2) => read_thingamabobs(b2, trows),
                }),
                next_id == cards@.len(),
                cards@.len() + total_n - nasty_copies(nrows.take(r as int)) + total_t <= u32::MAX,
            decreases nrows.len() - r,
        {
            proof {
                lemma_nasty_copies_prefix(nrows, r as int + 1);
                assert(nrows.take(r as int + 1).drop_last() =~= nrows.take(r as int));
                assert(nrows.take(r as int + 1).last() == nrows[r as int]);
            }
            let ghost b = read_nasties(b1, nrows.take(r as int))->Ok_0;
            let row = &raw.nasties[r];
            let kind = match NastyKind::parse(row.name.as_str()) {
                Some(k) => k,
                None => {
                    proof {
                        lemma_nasties_err_sticks(b1, nrows, r as int + 1);
                    }
                    return Err(DeckConfigError::UnknownNasty(row.name.clone()));
                },
            };
            let effect = match NastyEffect::parse(row.effect.as_str()) {
                Some(e) => e,
                None => {
                    proof {
                        lemma_nasties_err_sticks(b1, nrows, r as int + 1);
                    }
                    return Err(DeckConfigError::UnknownNastyEffect(row.effect.clone()));
                },
            };
            let ki = nasty_index(kind);
            if ns[ki].is_some() {
                proof {
                    lemma_nasties_err_sticks(b1, nrows, r as int + 1);
                }
                return Err(DeckConfigError::DuplicateNasty(row.name.clone()));
            }
            ns.set(ki, Some(row.set_size));
            ne.set(ki, Some(effect));
            let ghost before = cards@;
            let nm = kind.name();
            push_copies_named(&mut cards, &mut next_id, CardKind::Nasty(kind), nm, row.copies, Ghost(u32::MAX as int));
            proof {
                let b2 = read_nasties(b1, nrows.take(r as int + 1))->Ok_0;
                assert(b2.kinds =~= b.kinds + Seq::new(row.copies as nat, |i: int| CardKind::Nasty(kind)));
                assert(b2.names =~= b.names + Seq::new(row.copies as nat, |i: int| crate::card::nasty_name_spec(kind)));
                assert forall|i: int| 0 <= i < cards@.len() implies {
                    &&& #[trigger] cards@[i].id == i
                    &&& cards@[i].kind == b2.kinds[i]
                    &&& cards@[i].name@ == b2.names[i]
                } by {
                    if i < before.len() {
                        assert(cards@[i] == before[i]);
                        assert(cards_match(before, b));
                        assert(before[i].id == i);
                        assert(before[i].kind == b.kinds[i]);
                        assert(b2.kinds[i] == b.kinds[i]);
                        assert(b2.names[i] == b.names[i]);
                    } else {
                        assert(cards@[i].kind == CardKind::Nasty(kind));
                        assert(b2.kinds[i] == CardKind::Nasty(kind));
                        assert(cards@[i].name@ == nm@);
                        assert(b2.names[i] == crate::card::nasty_name_spec(kind));
                    }
                };
            }
            r += 1;
        }
        proof {
            assert(nrows.take(r as int) =~= nrows);
        }
        let ghost b2 = read_nasties(b1, nrows)->Ok_0;
        let mut te: Vec<Option<ThingamabobEffect>> = vec![None, None, None, None, None];
        let mut r: usize = 0;
        assert(trows.take(0) =~= Seq::<RawThingamabob>::empty());
        while r < raw.thingamabobs.len()
            invariant
                trows == raw.thingamabobs@,
                total_t == thingamabob_copies(trows),
                r <= trows.len(),
                cs@.len() == 4,
                ns@.len() == 3,
                ne@.len() == 3,
                te@.len() == 5,
                read_thingamabobs(b2, trows.take(r as int)) matches Ok(b) && cs@ == b.creature_sizes
                    && ns@ == b.nasty_sizes && ne@ == b.nasty_effects && te@ == b.thingamabob_effects
                    && cards_match(cards@, b),
                read_deck(raw) == read_thingamabobs(b2, trows),
                next_id == cards@.len(),
                cards@.len() + total_t - thingamabob_copies(trows.take(r as int)) <= u32::MAX,
            decreases trows.len() - r,
        {
            proof {
                lemma_thingamabob_copies_prefix(trows, r as int + 1);
                assert(trows.take(r as int + 1).drop_last() =~= trows.take(r as int));
                assert(trows.take(r as int + 1).last() == trows[r as int]);
            }
            let ghost b = read_thingamabobs(b2, trows.take(r as int))->Ok_0;
            let row = &raw.thingamabobs[r];
            let kind = match ThingamabobKind::parse(row.name.as_str()) {
                Some(k) => k,
                None => {
                    proof {
                        lemma_thingamabobs_err_sticks(b2, trows, r as int + 1);
                    }
                    return Err(DeckConfigError::UnknownThingamabob(row.name.clone()));
                },
            };
            let effect = match ThingamabobEffect::parse(row.effect.as_str()) {
                Some(e) => e,
                None => {
                    proof {
                        lemma_thingamabobs_err_sticks(b2, trows, r as int + 1);
                    }
                    return Err(DeckConfigError::UnknownThingamabobEffect(row.effect.clone()));
                },
            };
            let ki = thingamabob_index(kind);
            if te[ki].is_some() {
                proof {
                    lemma_thingamabobs_err_sticks(b2, trows, r as int + 1);
                }
                return Err(DeckConfigError::DuplicateThingamabob(row.name.clone()));
            }
            te.set(ki, Some(effect));
            let ghost before = cards@;
            let nm = kind.name();
            push_copies_named(&mut cards, &mut next_id, CardKind::Thingamabob(kind), nm, row.copies, Ghost(u32::MAX as int));
            proof {
                let b3 = read_thingamabobs(b2, trows.take(r as int + 1))->Ok_0;
                assert(b3.kinds =~= b.kinds + Seq::new(row.copies as nat, |i: int| CardKind::Thingamabob(kind)));
                assert(b3.names =~= b.names + Seq::new(row.copies as nat, |i: int| crate::card::thingamabob_name_spec(kind)));
                assert forall|i: int| 0 <= i < cards@.len() implies {
                    &&& #[trigger] cards@[i].id == i
                    &&& cards@[i].kind == b3.kinds[i]
                    &&& cards@[i].name@ == b3.names[i]
                } by {
                    if i < before.len() {
                        assert(cards@[i] == before[i]);
                    }
                };
            }
            r += 1;
        }
        proof {
            assert(trows.take(r as int) =~= trows);
        }
        let catalog = Catalog {
            creature_set_size: [cs[0], cs[1], cs[2], cs[3]],
            nasty_set_size: [ns[0], ns[1], ns[2]],
            nasty_effect: [ne[0], ne[1], ne[2]],
            thingamabob_effect: [te[0], te[1], te[2], te[3], te[4]],
        };
        let d = DeckConfig { catalog, cards };
        proof {
            assert(d.catalog.creature_set_size@ =~= cs@);
            assert(d.catalog.nasty_set_size@ =~= ns@);
            assert(d.catalog.nasty_effect@ =~= ne@);
            assert(d.catalog.thingamabob_effect@ =~= te@);
        }
        Ok(d)
    }
}

} // verus!
