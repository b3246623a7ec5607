//! Battle royale rules that are exact integer arithmetic: building
//! materials and a player's health, shield and stock of materials.
//!
//! A player's position, heading, down-but-not-out timer and weapons are
//! spatial or real-valued state that the caller keeps beside the values here.

use vstd::prelude::*;
use crate::search::{
    first_match, count_where, lemma_first_match, lemma_first_match_step, lemma_first_match_prefix,
    lemma_first_match_same_hits, lemma_count_same_hits, lemma_count_bounded, lemma_count_step,
    lemma_count_prefix_monotone,
};

verus! {

/// Most players in one match.
pub const MAX_PLAYERS: u32 = 100;

/// Server ticks per second.
pub const MATCH_TICK_RATE: u32 = 60;

/// Most of one building material a player can carry.
pub const MATERIAL_CAP: u16 = 999;

/// Phases of a match.
#[derive(Debug, Clone, Copy, PartialEq, Eq, Structural)]
pub enum MatchPhase {
    /// Pre-game lobby on the spawn island
    Warmup,
    /// Bus flying across the map
    BattleBus,
    /// Players gliding and landing; the storm is not moving yet
    EarlyGame,
    /// Storm circles are shrinking
    MidGame,
    /// Final circles: fast shrink, high damage
    EndGame,
    /// Match over
    Victory,
}

/// Weapon families.
#[derive(Debug, Clone, Copy, PartialEq, Eq, Structural)]
pub enum WeaponType {
    AssaultRifle,
    Shotgun,
    SMG,
    SniperRifle,
    Pistol,
    RocketLauncher,
    GrenadeLauncher,
}

/// Consumable items.
#[derive(Debug, Clone, Copy, PartialEq, Eq, Structural)]
pub enum ConsumableType {
    SmallShield,
    LargeShield,
    MiniHP,
    Medkit,
    Chug,
    SmallFry,
    Flopper,
    ShieldFish,
    GrimaceShake,
    GyattEnergy,
    OhioMilk,
}

/// Pieces a player can build.
#[derive(Debug, Clone, Copy, PartialEq, Eq, Structural)]
pub enum BuildPiece {
    Wall,
    Floor,
    Ramp,
    Roof,
}

/// Building materials.
#[derive(Debug, Clone, Copy, PartialEq, Eq, Structural)]
pub enum MaterialType {
    Wood,
    Brick,
    Metal,
}

/// Kinds of loot on the map.
#[derive(Debug, Clone, Copy, PartialEq, Eq, Structural)]
pub enum LootType {
    Weapon,
    Consumable,
    Ammo,
    Material,
}

/// Kinds of points of interest on the map.
#[derive(Debug, Clone, Copy, PartialEq, Eq, Structural)]
pub enum POIType {
    City,
    Town,
    Landmark,
    Industrial,
    Military,
}

/// Where a player is in the life of a match.
#[derive(Debug, Clone, Copy, PartialEq, Eq, Structural)]
pub enum PlayerStatus {
    InLobby,
    OnBus,
    Gliding,
    Alive,
    /// Down but not out
    DBNO,
    Eliminated,
    Spectating,
    Disconnected,
}

pub open spec fn spec_initial_hp(m: MaterialType) -> u16 {
    match m {
        MaterialType::Wood => 90,
        MaterialType::Brick => 100,
        MaterialType::Metal => 110,
    }
}

pub open spec fn spec_max_hp(m: MaterialType) -> u16 {
    match m {
        MaterialType::Wood => 150,
        MaterialType::Brick => 300,
        MaterialType::Metal => 500,
    }
}

/// Material spent on one piece.
pub open spec fn spec_cost(m: MaterialType) -> u16 {
    10
}

impl MaterialType {
    /// Hit points of a piece of this material when building starts.
    pub fn initial_hp(self) -> (r: u16)
        ensures
            r == spec_initial_hp(self),
    {
        match self {
            MaterialType::Wood => 90,
            MaterialType::Brick => 100,
            MaterialType::Metal => 110,
        }
    }

    /// Hit points of a finished piece of this material.
    pub fn max_hp(self) -> (r: u16)
        ensures
            r == spec_max_hp(self),
    {
        match self {
            MaterialType::Wood => 150,
            MaterialType::Brick => 300,
            MaterialType::Metal => 500,
        }
    }

    /// Material spent on one piece.
    pub fn cost(self) -> (r: u16)
        ensures
            r == spec_cost(self),
    {
        10
    }
}

/// Every material starts a piece below its finished hit points.
pub proof fn lemma_building_grows_hp(m: MaterialType)
    ensures
        0 < spec_initial_hp(m) < spec_max_hp(m),
{
}

/// A player's health, shield, materials, ammunition and match record.
#[derive(Debug, Clone)]
pub struct BRPlayer {
    pub client_id: u32,
    pub did: String,
    pub display_name: String,
    pub status: PlayerStatus,
    pub hp: u16,
    pub shield: u16,
    pub max_hp: u16,
    pub max_shield: u16,
    pub wood: u16,
    pub brick: u16,
    pub metal: u16,
    pub active_slot: u8,
    pub ammo_light: u16,
    pub ammo_medium: u16,
    pub ammo_heavy: u16,
    pub ammo_shells: u16,
    pub ammo_rockets: u16,
    pub kills: u16,
    pub assists: u16,
    pub damage_dealt: u32,
    pub placement: u16,
    pub eliminated_by: Option<u32>,
    pub bus_jumped: bool,
    pub landed: bool,
}

/// How much of a material a player carries.
pub open spec fn stock_of(p: BRPlayer, m: MaterialType) -> u16 {
    match m {
        MaterialType::Wood => p.wood,
        MaterialType::Brick => p.brick,
        MaterialType::Metal => p.metal,
    }
}

/// `p` with its stock of `m` set to `v`.
pub open spec fn with_stock(p: BRPlayer, m: MaterialType, v: u16) -> BRPlayer {
    match m {
        MaterialType::Wood => BRPlayer { wood: v, ..p },
        MaterialType::Brick => BRPlayer { brick: v, ..p },
        MaterialType::Metal => BRPlayer { metal: v, ..p },
    }
}

/// Whether the player can pay for one piece of `m`.
pub open spec fn spec_can_build(p: BRPlayer, m: MaterialType) -> bool {
    stock_of(p, m) >= spec_cost(m)
}

/// A player who is still in the match and not down.
pub open spec fn spec_is_alive(s: PlayerStatus) -> bool {
    s == PlayerStatus::Alive || s == PlayerStatus::Gliding || s == PlayerStatus::OnBus
}

pub open spec fn min_int(a: int, b: int) -> int {
    if a < b {
        a
    } else {
        b
    }
}

/// Damage a hit deals to a player who can take damage: the shield takes
/// what it can, the rest goes to health.
pub open spec fn damage_dealt_to(hp: u16, shield: u16, damage: u16) -> int {
    min_int(damage as int, shield as int) + min_int(damage - min_int(damage as int, shield as int), hp as int)
}

/// Whether a weapon slot holds nothing.
pub open spec fn vacant<W>() -> spec_fn(Option<W>) -> bool {
    |o: Option<W>| o is None
}

/// A slot is free exactly when it holds no weapon; when some slot is free
/// the weapon goes into the lowest free one.
pub proof fn lemma_pickup_takes_the_lowest_free_slot<W>(s: Seq<Option<W>>, k: int)
    requires
        0 <= k < s.len(),
        s[k] is None,
        forall|j: int| 0 <= j < k ==> (#[trigger] s[j]) is Some,
    ensures
        first_match(s, vacant::<W>()) == k,
        forall|w: W| !vacant::<W>()(Some(w)),
        vacant::<W>()(None),
{
    lemma_first_match(s, vacant::<W>());
    assert(vacant::<W>()(s[k]));
    let f = first_match(s, vacant::<W>());
    if f >= 0 && f < k {
        assert(s[f] is Some);
    }
}

/// Put a picked-up weapon into the first empty slot, or, when every slot is
/// full, swap it with the weapon in the active slot, which is returned.
pub fn pick_up_weapon<W>(slots: &mut [Option<W>; 5], active_slot: u8, weapon: W) -> (dropped: Option<W>)
    requires
        (forall|i: int| 0 <= i < 5 ==> (#[trigger] old(slots)@[i]) is Some) ==> active_slot < 5,
    ensures
        ({
            let s = old(slots)@;
            let e = first_match(s, vacant::<W>());
            if e >= 0 {
                &&& dropped is None
                &&& final(slots)@ == s.update(e, Some(weapon))
            } else {
                &&& dropped == s[active_slot as int]
                &&& final(slots)@ == s.update(active_slot as int, Some(weapon))
            }
        }),
{
    let ghost s = slots@;
    let ghost empty = vacant::<W>();
    proof { lemma_first_match(s, empty); }
    let mut i: usize = 0;
    while i < 5
        invariant
            i <= 5,
            slots@ == s,
            s == old(slots)@,
            s.len() == 5,
            empty == vacant::<W>(),
            first_match(s.take(i as int), empty) == -1,
        decreases 5 - i,
    {
        proof { lemma_first_match_step(s, empty, i as int); }
        if slots[i].is_none() {
            assert(empty(s[i as int]));
            proof { lemma_first_match_prefix(s, empty, i + 1); }
            assert(first_match(s, empty) == i);
            slots.set(i, Some(weapon));
            assert(slots@ == s.update(i as int, Some(weapon)));
            return None;
        }
        i = i + 1;
    }
    assert(s.take(5) =~= s);
    proof {
        assert forall|j: int| 0 <= j < 5 implies (#[trigger] s[j]) is Some by {
            assert(!empty(s[j]));
        }
    }
    let idx = active_slot as usize;
    let dropped = slots[idx].take();
    slots.set(idx, Some(weapon));
    dropped
}

/// Whether a player in this state takes damage: alive on the ground, or down.
pub open spec fn takes_damage(s: PlayerStatus) -> bool {
    s == PlayerStatus::Alive || s == PlayerStatus::DBNO
}

/// Damage a hit of `damage` deals to `p`.
pub open spec fn hit_damage(p: BRPlayer, damage: u16) -> u16 {
    if takes_damage(p.status) {
        damage_dealt_to(p.hp, p.shield, damage) as u16
    } else {
        0
    }
}

/// `p` after a hit of `damage` from `attacker`: the shield absorbs what it
/// can, health the rest, and a player left without health is eliminated
/// by the attacker.
pub open spec fn after_hit(p: BRPlayer, damage: u16, attacker: u32) -> BRPlayer {
    if !takes_damage(p.status) {
        p
    } else {
        let sa = min_int(damage as int, p.shield as int);
        let ha = min_int(damage - sa, p.hp as int);
        let hp = (p.hp - ha) as u16;
        BRPlayer {
            shield: (p.shield - sa) as u16,
            hp: hp,
            status: if hp == 0 {
                PlayerStatus::Eliminated
            } else {
                p.status
            },
            eliminated_by: if hp == 0 {
                Some(attacker)
            } else {
                p.eliminated_by
            },
            ..p
        }
    }
}

/// `p` after one tick of the storm: a player alive on the ground whom the
/// storm `hit` takes its damage, with an elimination credited to no one
/// (id 0); anyone else is unchanged.
pub open spec fn after_storm(p: BRPlayer, hit: Option<u16>) -> BRPlayer {
    if hit is Some && p.status == PlayerStatus::Alive {
        after_hit(p, hit->0, 0)
    } else {
        p
    }
}

/// `p` after one tick down but not out: a downed player loses `bleed`
/// health (never below 0) and is eliminated once health runs out or the
/// down timer has `expired`; anyone else is unchanged.
pub open spec fn after_bleed(p: BRPlayer, bleed: u16, expired: bool) -> BRPlayer {
    if p.status == PlayerStatus::DBNO {
        let hp: u16 = if p.hp > bleed {
            (p.hp - bleed) as u16
        } else {
            0
        };
        BRPlayer {
            hp: hp,
            status: if hp == 0 || expired {
                PlayerStatus::Eliminated
            } else {
                PlayerStatus::DBNO
            },
            ..p
        }
    } else {
        p
    }
}

/// `r` is a player who has just joined: in the lobby with full health,
/// no shield, nothing carried and no record.
pub open spec fn is_new_player(r: BRPlayer, client_id: u32, did: Seq<char>, display_name: Seq<char>) -> bool {
    &&& r.client_id == client_id
    &&& r.did@ == did
    &&& r.display_name@ == display_name
    &&& r.status == PlayerStatus::InLobby
    &&& r.hp == 100 && r.shield == 0 && r.max_hp == 100 && r.max_shield == 100
    &&& r.wood == 0 && r.brick == 0 && r.metal == 0
    &&& r.active_slot == 0
    &&& r.ammo_light == 0 && r.ammo_medium == 0 && r.ammo_heavy == 0
    &&& r.ammo_shells == 0 && r.ammo_rockets == 0
    &&& r.kills == 0 && r.assists == 0 && r.damage_dealt == 0 && r.placement == 0
    &&& r.eliminated_by is None
    &&& !r.bus_jumped && !r.landed
}

/// `p` healed by `amount`, to at most `cap` and the player's maximum.
pub open spec fn healed(p: BRPlayer, amount: u16, cap: u16) -> BRPlayer {
    BRPlayer { hp: min_int(min_int(p.hp + amount, cap as int), p.max_hp as int) as u16, ..p }
}

/// `p` with `amount` more shield, to at most `cap` and the player's maximum.
pub open spec fn shielded(p: BRPlayer, amount: u16, cap: u16) -> BRPlayer {
    BRPlayer { shield: min_int(min_int(p.shield + amount, cap as int), p.max_shield as int) as u16, ..p }
}

/// `p` after gathering `amount` of `m`, keeping at most the material cap.
pub open spec fn harvested(p: BRPlayer, m: MaterialType, amount: u16) -> BRPlayer {
    with_stock(p, m, min_int(stock_of(p, m) + amount, MATERIAL_CAP as int) as u16)
}

/// Healing and shielding add what they are given, up to the lower of the
/// item's cap and the player's maximum: never past either, never less than
/// before (for a player within them), exactly the amount when there is
/// room; nothing else about the player changes.  Gathering works the same
/// way against the material cap, for the gathered material only.
pub proof fn lemma_restoring_is_capped(p: BRPlayer, amount: u16, cap: u16, m: MaterialType)
    requires
        p.hp + amount <= u16::MAX,
        p.shield + amount <= u16::MAX,
        stock_of(p, m) + amount <= u16::MAX,
    ensures
        healed(p, amount, cap).hp <= cap && healed(p, amount, cap).hp <= p.max_hp,
        healed(p, amount, cap).hp <= p.hp + amount,
        p.hp + amount <= cap && p.hp + amount <= p.max_hp ==> healed(p, amount, cap).hp == p.hp + amount,
        p.hp <= cap && p.hp <= p.max_hp ==> healed(p, amount, cap).hp >= p.hp,
        healed(p, amount, cap) == (BRPlayer { hp: healed(p, amount, cap).hp, ..p }),
        shielded(p, amount, cap).shield <= cap && shielded(p, amount, cap).shield <= p.max_shield,
        shielded(p, amount, cap).shield <= p.shield + amount,
        p.shield + amount <= cap && p.shield + amount <= p.max_shield ==> shielded(p, amount, cap).shield
            == p.shield + amount,
        p.shield <= cap && p.shield <= p.max_shield ==> shielded(p, amount, cap).shield >= p.shield,
        shielded(p, amount, cap) == (BRPlayer { shield: shielded(p, amount, cap).shield, ..p }),
        stock_of(harvested(p, m, amount), m) == if stock_of(p, m) + amount < 999 {
            stock_of(p, m) + amount
        } else {
            999
        },
        forall|m2: MaterialType| m2 != m ==> stock_of(harvested(p, m, amount), m2) == stock_of(p, m2),
        harvested(p, m, amount).hp == p.hp && harvested(p, m, amount).shield == p.shield,
{
}

impl BRPlayer {
    /// A player in the lobby with full health, no shield and nothing carried.
    pub fn new(client_id: u32, did: &str, display_name: &str) -> (r: Self)
        ensures
            is_new_player(r, client_id, did@, display_name@),
    {
        Self {
            client_id,
            did: did.to_owned(),
            display_name: display_name.to_owned(),
            status: PlayerStatus::InLobby,
            hp: 100,
            shield: 0,
            max_hp: 100,
            max_shield: 100,
            wood: 0,
            brick: 0,
            metal: 0,
            active_slot: 0,
            ammo_light: 0,
            ammo_medium: 0,
            ammo_heavy: 0,
            ammo_shells: 0,
            ammo_rockets: 0,
            kills: 0,
            assists: 0,
            damage_dealt: 0,
            placement: 0,
            eliminated_by: None,
            bus_jumped: false,
            landed: false,
        }
    }

    /// Health plus shield.
    pub fn effective_hp(&self) -> (r: u16)
        requires
            self.hp + self.shield <= u16::MAX,
        ensures
            r == self.hp + self.shield,
    {
        self.hp + self.shield
    }

    /// Still in the match and not down.
    pub fn is_alive(&self) -> (r: bool)
        ensures
            r == spec_is_alive(self.status),
    {
        match self.status {
            PlayerStatus::Alive | PlayerStatus::Gliding | PlayerStatus::OnBus => true,
            _ => false,
        }
    }

    /// Apply a hit of `damage` from `attacker_id`, shield first, then
    /// health.  Only a player who is alive on the ground or down takes
    /// damage; one whose health reaches 0 is eliminated by the attacker.
    /// Returns the damage dealt.
    pub fn take_damage(&mut self, damage: u16, attacker_id: u32) -> (dealt: u16)
        ensures
            *final(self) == after_hit(*old(self), damage, attacker_id),
            dealt == hit_damage(*old(self), damage),
    {
        match self.status {
            PlayerStatus::Alive | PlayerStatus::DBNO => {},
            _ => {
                return 0;
            },
        }
        let mut remaining = damage;
        let shield_absorbed = if remaining < self.shield { remaining } else { self.shield };
        self.shield = self.shield - shield_absorbed;
        remaining = remaining - shield_absorbed;
        let hp_absorbed = if remaining < self.hp { remaining } else { self.hp };
        self.hp = self.hp - hp_absorbed;
        let total = shield_absorbed + hp_absorbed;
        if self.hp == 0 {
            self.status = PlayerStatus::Eliminated;
            self.eliminated_by = Some(attacker_id);
        }
        total
    }

    /// Restore up to `amount` health, to at most `cap` and the player's maximum.
    pub fn heal(&mut self, amount: u16, cap: u16)
        requires
            old(self).hp + amount <= u16::MAX,
        ensures
            *final(self) == healed(*old(self), amount, cap),
    {
        let v = self.hp + amount;
        let v = if v < cap { v } else { cap };
        self.hp = if v < self.max_hp { v } else { self.max_hp };
    }

    /// Add up to `amount` shield, to at most `cap` and the player's maximum.
    pub fn add_shield(&mut self, amount: u16, cap: u16)
        requires
            old(self).shield + amount <= u16::MAX,
        ensures
            *final(self) == shielded(*old(self), amount, cap),
    {
        let v = self.shield + amount;
        let v = if v < cap { v } else { cap };
        self.shield = if v < self.max_shield { v } else { self.max_shield };
    }

    /// Gather `amount` of a material, keeping at most 999 of it.
    pub fn harvest(&mut self, material: MaterialType, amount: u16)
        requires
            stock_of(*old(self), material) + amount <= u16::MAX,
        ensures
            *final(self) == harvested(*old(self), material, amount),
    {
        let cap = MATERIAL_CAP;
        match material {
            MaterialType::Wood => {
                let v = self.wood + amount;
                self.wood = if v < cap { v } else { cap };
            },
            MaterialType::Brick => {
                let v = self.brick + amount;
                self.brick = if v < cap { v } else { cap };
            },
            MaterialType::Metal => {
                let v = self.metal + amount;
                self.metal = if v < cap { v } else { cap };
            },
        }
    }

    /// Whether the player carries enough of `material` for one piece.
    pub fn can_build(&self, material: MaterialType) -> (r: bool)
        ensures
            r == spec_can_build(*self, material),
    {
        let cost = material.cost();
        match material {
            MaterialType::Wood => self.wood >= cost,
            MaterialType::Brick => self.brick >= cost,
            MaterialType::Metal => self.metal >= cost,
        }
    }

    /// Pay for one piece of `material` when the player can; returns whether
    /// it was paid, which is exactly when `can_build` holds.
    pub fn spend_material(&mut self, material: MaterialType) -> (ok: bool)
        ensures
            ok == spec_can_build(*old(self), material),
            ok ==> *final(self) == with_stock(
                *old(self),
                material,
                (stock_of(*old(self), material) - spec_cost(material)) as u16,
            ),
            !ok ==> *final(self) == *old(self),
    {
        let cost = material.cost();
        match material {
            MaterialType::Wood => {
                if self.wood < cost {
                    return false;
                }
                self.wood = self.wood - cost;
                true
            },
            MaterialType::Brick => {
                if self.brick < cost {
                    return false;
                }
                self.brick = self.brick - cost;
                true
            },
            MaterialType::Metal => {
                if self.metal < cost {
                    return false;
                }
                self.metal = self.metal - cost;
                true
            },
        }
    }
}

/// A hit never deals more than it carries nor more than the target has,
/// and health plus shield drop by exactly the damage dealt.
pub proof fn lemma_damage_conserved(hp: u16, shield: u16, damage: u16)
    ensures
        damage_dealt_to(hp, shield, damage) == min_int(damage as int, hp + shield),
        (shield - min_int(damage as int, shield as int)) + (hp - min_int(
            damage - min_int(damage as int, shield as int),
            hp as int,
        )) == hp + shield - damage_dealt_to(hp, shield, damage),
{
}

/// Hits, storm ticks and bleeding never raise health or shield, and never
/// bring an eliminated player back.
pub proof fn lemma_harm_never_heals(
    p: BRPlayer,
    damage: u16,
    attacker: u32,
    hit: Option<u16>,
    bleed: u16,
    expired: bool,
)
    ensures
        after_hit(p, damage, attacker).hp <= p.hp,
        after_hit(p, damage, attacker).shield <= p.shield,
        after_storm(p, hit).hp <= p.hp,
        after_storm(p, hit).shield <= p.shield,
        after_bleed(p, bleed, expired).hp <= p.hp,
        after_bleed(p, bleed, expired).shield == p.shield,
        p.status == PlayerStatus::Eliminated ==> {
            &&& after_hit(p, damage, attacker) == p
            &&& after_storm(p, hit) == p
            &&& after_bleed(p, bleed, expired) == p
        },
{
}

/// A hit on a player who takes damage goes to the shield first: the shield
/// loses min(damage, shield), health loses the rest up to all of it, and
/// the damage dealt is the sum.  A hit no larger than the shield leaves
/// health untouched; a player left with no health is eliminated by the
/// attacker.
pub proof fn lemma_shield_absorbs_first(p: BRPlayer, damage: u16, attacker: u32)
    requires
        p.status == PlayerStatus::Alive || p.status == PlayerStatus::DBNO,
    ensures
        ({
            let to_shield: int = if damage < p.shield {
                damage as int
            } else {
                p.shield as int
            };
            let rest: int = damage - to_shield;
            let to_hp: int = if rest < p.hp {
                rest
            } else {
                p.hp as int
            };
            let q = after_hit(p, damage, attacker);
            &&& q.shield == p.shield - to_shield
            &&& q.hp == p.hp - to_hp
            &&& hit_damage(p, damage) == to_shield + to_hp
            &&& damage <= p.shield ==> q.hp == p.hp && q.shield == p.shield - damage
            &&& (q.hp == 0 <==> q.status == PlayerStatus::Eliminated)
            &&& q.hp == 0 ==> q.eliminated_by == Some(attacker)
            &&& q.hp > 0 ==> q.status == p.status && q.eliminated_by == p.eliminated_by
            &&& q.client_id == p.client_id && q.kills == p.kills && q.damage_dealt == p.damage_dealt
        }),
{
}

/// A hit between two different players present in the match: the victim
/// takes the hit, the attacker is credited with the damage dealt and, when
/// the victim ends up eliminated, one kill; an eliminated victim is placed
/// just behind the players still standing; nobody else changes.
pub proof fn lemma_hit_credits_the_attacker(s: Seq<BRPlayer>, attacker: u32, victim: u32, damage: u16)
    requires
        first_match(s, has_id(victim)) >= 0,
        first_match(s, has_id(attacker)) >= 0,
        attacker != victim,
        hit_fits(s, attacker, victim, damage),
        s.len() < u16::MAX,
    ensures
        ({
            let vi = first_match(s, has_id(victim));
            let ai = first_match(s, has_id(attacker));
            let r = players_after_hit(s, attacker, victim, damage);
            let hit = after_hit(s[vi], damage, attacker);
            let kill = hit.status == PlayerStatus::Eliminated;
            &&& r.len() == s.len()
            &&& r[vi].hp == hit.hp && r[vi].shield == hit.shield && r[vi].status == hit.status
            &&& r[vi].eliminated_by == hit.eliminated_by
            &&& r[vi].placement == if kill {
                count_where(r, standing()) + 1int
            } else {
                s[vi].placement as int
            }
            &&& r[ai].damage_dealt == s[ai].damage_dealt + hit_damage(s[vi], damage)
            &&& r[ai].kills == s[ai].kills + if kill {
                1int
            } else {
                0int
            }
            &&& r[ai].hp == s[ai].hp && r[ai].shield == s[ai].shield && r[ai].status == s[ai].status
            &&& forall|j: int| 0 <= j < s.len() && j != vi && j != ai ==> #[trigger] r[j] == s[j]
        }),
{
    let vi = first_match(s, has_id(victim));
    let ai = first_match(s, has_id(attacker));
    lemma_first_match(s, has_id(victim));
    lemma_first_match(s, has_id(attacker));
    let hit = after_hit(s[vi], damage, attacker);
    let s1 = s.update(vi, hit);
    assert forall|j: int| 0 <= j < s.len() implies has_id(attacker)(#[trigger] s[j]) == has_id(attacker)(s1[j]) by {
        if j == vi {
            assert(s1[j].client_id == s[j].client_id);
        }
    }
    lemma_first_match_same_hits(s, s1, has_id(attacker));
    let s2 = players_hit(s, attacker, victim, damage);
    let dealt = hit_damage(s[vi], damage);
    let kill = hit.status == PlayerStatus::Eliminated;
    assert(s2 == s1.update(ai, credited(s1[ai], dealt, kill)));
    assert(s1[ai] == s[ai]);
    assert(s2[vi] == hit);
    let r = players_after_hit(s, attacker, victim, damage);
    if kill {
        lemma_count_bounded(s2, standing());
        assert(r == s2.update(vi, BRPlayer { placement: (count_where(s2, standing()) + 1) as u16, ..s2[vi] }));
        assert forall|j: int| 0 <= j < r.len() implies standing()(#[trigger] r[j]) == standing()(s2[j]) by {
        }
        lemma_count_same_hits(r, s2, standing());
        assert(r[vi].placement == count_where(s2, standing()) + 1);
    } else {
        assert(r == s2);
    }
    assert(r[ai] == s2[ai]);
    assert forall|j: int| 0 <= j < s.len() && j != vi && j != ai implies #[trigger] r[j] == s[j] by {
        assert(r[j] == s2[j]);
        assert(s2[j] == s1[j]);
    }
}

/// A player not in play on the ground or down takes no damage at all.
pub proof fn lemma_only_players_in_the_fight_are_hit(p: BRPlayer, damage: u16, attacker: u32)
    requires
        p.status != PlayerStatus::Alive && p.status != PlayerStatus::DBNO,
    ensures
        after_hit(p, damage, attacker) == p,
        hit_damage(p, damage) == 0,
{
}

/// The storm hurts only players alive on the ground: anyone else, downed
/// players included, comes out of a storm tick exactly as they went in,
/// whatever the storm reports for them; an alive player caught by the
/// storm takes its damage as a hit credited to id 0, and one outside it
/// is untouched.
pub proof fn lemma_storm_spares_all_but_the_alive(p: BRPlayer, hit: Option<u16>)
    ensures
        p.status != PlayerStatus::Alive ==> after_storm(p, hit) == p,
        hit is None ==> after_storm(p, hit) == p,
        p.status == PlayerStatus::Alive && hit is Some ==> after_storm(p, hit) == after_hit(p, hit->0, 0),
{
}

/// Bleeding touches only downed players: it takes `bleed` health (never
/// below 0), leaves the shield alone, and eliminates the player exactly
/// when health runs out or the down timer has expired.
pub proof fn lemma_bleeding_hurts_only_the_downed(p: BRPlayer, bleed: u16, expired: bool)
    ensures
        p.status != PlayerStatus::DBNO ==> after_bleed(p, bleed, expired) == p,
        p.status == PlayerStatus::DBNO ==> {
            let q = after_bleed(p, bleed, expired);
            &&& q.hp == if p.hp > bleed {
                p.hp - bleed
            } else {
                0
            }
            &&& q.shield == p.shield
            &&& (q.status == PlayerStatus::Eliminated <==> (q.hp == 0 || expired))
            &&& q.status != PlayerStatus::Eliminated ==> q.status == PlayerStatus::DBNO
        },
{
}

/// Each material has a stock of its own: setting one leaves the other two
/// and everything else about the player alone; a piece of any material
/// costs 10 of it, and a player can build exactly when carrying that much.
pub proof fn lemma_materials_are_separate(p: BRPlayer, m: MaterialType, v: u16)
    ensures
        stock_of(p, MaterialType::Wood) == p.wood,
        stock_of(p, MaterialType::Brick) == p.brick,
        stock_of(p, MaterialType::Metal) == p.metal,
        stock_of(with_stock(p, m, v), m) == v,
        forall|m2: MaterialType| m2 != m ==> stock_of(with_stock(p, m, v), m2) == stock_of(p, m2),
        with_stock(p, m, v).hp == p.hp && with_stock(p, m, v).shield == p.shield,
        with_stock(p, m, v).status == p.status && with_stock(p, m, v).client_id == p.client_id,
        spec_cost(m) == 10,
        spec_can_build(p, m) <==> stock_of(p, m) >= 10,
{
}

// ── Structures ──

/// A built piece: who owns it and how much it can still take.
#[derive(Debug, Clone, Copy)]
pub struct BuildStructure {
    pub id: u32,
    pub piece: BuildPiece,
    pub material: MaterialType,
    pub current_hp: u16,
    pub max_hp: u16,
    pub building: bool,
    pub owner_id: u32,
}

/// A piece after taking `damage`: its hit points drop by the damage, never
/// below 0.
pub open spec fn structure_hit(b: BuildStructure, damage: u16) -> BuildStructure {
    BuildStructure {
        current_hp: if b.current_hp > damage {
            (b.current_hp - damage) as u16
        } else {
            0
        },
        ..b
    }
}

/// Damage takes exactly min(damage, hit points) off a piece, and destroys
/// it exactly when the damage reaches its hit points; nothing else about
/// the piece changes.
pub proof fn lemma_structure_damage(b: BuildStructure, damage: u16)
    ensures
        structure_hit(b, damage).current_hp == b.current_hp - (if damage < b.current_hp {
            damage as int
        } else {
            b.current_hp as int
        }),
        (structure_hit(b, damage).current_hp == 0) <==> damage >= b.current_hp,
        structure_hit(b, damage).max_hp == b.max_hp && structure_hit(b, damage).building == b.building,
        structure_hit(b, damage).id == b.id && structure_hit(b, damage).owner_id == b.owner_id,
{
}

impl BuildStructure {
    /// A piece that starts building with its material's initial hit points.
    pub fn new(id: u32, piece: BuildPiece, material: MaterialType, owner_id: u32) -> (r: Self)
        ensures
            r == (BuildStructure {
                id: id,
                piece: piece,
                material: material,
                current_hp: spec_initial_hp(material),
                max_hp: spec_max_hp(material),
                building: true,
                owner_id: owner_id,
            }),
    {
        BuildStructure {
            id,
            piece,
            material,
            current_hp: material.initial_hp(),
            max_hp: material.max_hp(),
            building: true,
            owner_id,
        }
    }

    /// Take `damage` (never below 0 hit points); returns whether the piece
    /// is destroyed.
    pub fn take_damage(&mut self, damage: u16) -> (destroyed: bool)
        ensures
            *final(self) == structure_hit(*old(self), damage),
            destroyed == (final(self).current_hp == 0),
    {
        self.current_hp = self.current_hp.saturating_sub(damage);
        self.current_hp == 0
    }

    /// One tick of building: a finished piece is left alone; otherwise a
    /// `complete` piece stops building at full hit points, and one still
    /// going up takes the hit points `target_hp` its progress gives.
    /// Returns whether this tick completed the piece.
    pub fn on_build_progress(&mut self, complete: bool, target_hp: u16) -> (done: bool)
        ensures
            done == (old(self).building && complete),
            !old(self).building ==> *final(self) == *old(self),
            old(self).building && complete ==> *final(self) == (BuildStructure {
                building: false,
                current_hp: old(self).max_hp,
                ..*old(self)
            }),
            old(self).building && !complete ==> *final(self) == (BuildStructure {
                current_hp: target_hp,
                ..*old(self)
            }),
    {
        if !self.building {
            return false;
        }
        if complete {
            self.building = false;
            self.current_hp = self.max_hp;
            return true;
        }
        self.current_hp = target_hp;
        false
    }
}

/// A piece that still stands.
pub open spec fn intact() -> spec_fn(BuildStructure) -> bool {
    |b: BuildStructure| b.current_hp > 0
}

// ── Kill feed ──

/// Most entries the kill feed keeps.
pub const KILL_FEED_LEN: usize = 50;

/// One elimination.
#[derive(Debug, Clone)]
pub struct KillFeedEntry {
    pub tick: u32,
    pub eliminator_name: String,
    pub eliminator_id: u32,
    pub victim_name: String,
    pub victim_id: u32,
    pub weapon_name: String,
    pub headshot: bool,
}

/// A kill-feed entry as plain values.
pub struct KillFeedView {
    pub tick: u32,
    pub eliminator_name: Seq<char>,
    pub eliminator_id: u32,
    pub victim_name: Seq<char>,
    pub victim_id: u32,
    pub weapon_name: Seq<char>,
    pub headshot: bool,
}

impl View for KillFeedEntry {
    type V = KillFeedView;

    open spec fn view(&self) -> KillFeedView {
        KillFeedView {
            tick: self.tick,
            eliminator_name: self.eliminator_name@,
            eliminator_id: self.eliminator_id,
            victim_name: self.victim_name@,
            victim_id: self.victim_id,
            weapon_name: self.weapon_name@,
            headshot: self.headshot,
        }
    }
}

pub open spec fn feed_views(s: Seq<KillFeedEntry>) -> Seq<KillFeedView> {
    s.map_values(|e: KillFeedEntry| e@)
}

/// The feed after `e` is added: the oldest entry goes once it is over-long.
pub open spec fn feed_after(feed: Seq<KillFeedView>, e: KillFeedView) -> Seq<KillFeedView> {
    if feed.push(e).len() > KILL_FEED_LEN {
        feed.push(e).skip(1)
    } else {
        feed.push(e)
    }
}

/// The kill feed keeps the newest entries: after an elimination is logged
/// the new entry is last, the feed holds at most 50 entries, and it is the
/// tail of the old feed followed by the new entry.
pub proof fn lemma_kill_feed_keeps_newest(feed: Seq<KillFeedView>, e: KillFeedView)
    requires
        feed.len() <= 50,
    ensures
        feed_after(feed, e).last() == e,
        feed_after(feed, e).len() == if feed.len() < 50 {
            feed.len() + 1
        } else {
            50
        },
        feed_after(feed, e) =~= feed.push(e).skip(feed.push(e).len() - feed_after(feed, e).len()),
{
}

/// Clearing destroyed pieces keeps exactly the pieces with hit points
/// left: every kept piece has some, and every piece that had some is kept.
pub proof fn lemma_clearing_keeps_the_standing(s: Seq<BuildStructure>, i: int)
    ensures
        forall|k: int| 0 <= k < s.filter(intact()).len() ==> (#[trigger] s.filter(intact())[k]).current_hp > 0,
        0 <= i < s.len() && s[i].current_hp > 0 ==> s.filter(intact()).contains(s[i]),
        s.filter(intact()).len() <= s.len(),
{
    s.filter_lemma(intact());
    if 0 <= i < s.len() && s[i].current_hp > 0 {
        s.lemma_filter_contains(intact(), i);
    }
    s.lemma_filter_len(intact());
}

// ── Match state ──

/// The players, structures, kill feed and outcome of one match.  The
/// storm, the bus and all positions are real-valued state the caller
/// keeps and reports through the event methods.
#[derive(Debug, Clone)]
pub struct BRMatchState {
    pub match_id: String,
    pub phase: MatchPhase,
    pub tick: u32,
    pub players: Vec<BRPlayer>,
    pub structures: Vec<BuildStructure>,
    pub kill_feed: Vec<KillFeedEntry>,
    pub alive_count: u32,
    pub next_structure_id: u32,
    pub next_loot_id: u32,
    pub winner_id: Option<u32>,
    pub map_seed: u64,
}

/// The player with client id `id`.
pub open spec fn has_id(id: u32) -> spec_fn(BRPlayer) -> bool {
    |p: BRPlayer| p.client_id == id
}

/// Players who count as alive for the alive counter: on the ground,
/// gliding, or down.
pub open spec fn in_play() -> spec_fn(BRPlayer) -> bool {
    |p: BRPlayer|
        p.status == PlayerStatus::Alive || p.status == PlayerStatus::Gliding || p.status
            == PlayerStatus::DBNO
}

/// Players still standing for placements and victory: alive or down.
pub open spec fn standing() -> spec_fn(BRPlayer) -> bool {
    |p: BRPlayer| spec_is_alive(p.status) || p.status == PlayerStatus::DBNO
}

/// Eliminated players without a placement yet.
pub open spec fn unplaced() -> spec_fn(BRPlayer) -> bool {
    |p: BRPlayer| p.status == PlayerStatus::Eliminated && p.placement == 0
}

/// A player's display name, empty when no player has client id `id`.
pub open spec fn name_of(s: Seq<BRPlayer>, id: u32) -> Seq<char> {
    if first_match(s, has_id(id)) >= 0 {
        s[first_match(s, has_id(id))].display_name@
    } else {
        Seq::empty()
    }
}

/// `p` credited with `dealt` damage and, for a kill, one more kill.
pub open spec fn credited(p: BRPlayer, dealt: u16, kill: bool) -> BRPlayer {
    BRPlayer {
        damage_dealt: (p.damage_dealt + dealt) as u32,
        kills: if kill {
            (p.kills + 1) as u16
        } else {
            p.kills
        },
        ..p
    }
}

/// The players after the victim is hit and the attacker credited.
pub open spec fn players_hit(s: Seq<BRPlayer>, attacker: u32, victim: u32, damage: u16) -> Seq<BRPlayer> {
    let vi = first_match(s, has_id(victim));
    let hit = after_hit(s[vi], damage, attacker);
    let s1 = s.update(vi, hit);
    let ai = first_match(s1, has_id(attacker));
    if ai >= 0 {
        s1.update(ai, credited(s1[ai], hit_damage(s[vi], damage), hit.status == PlayerStatus::Eliminated))
    } else {
        s1
    }
}

/// Whether a hit on a present victim eliminates them.
pub open spec fn hit_eliminates(s: Seq<BRPlayer>, attacker: u32, victim: u32, damage: u16) -> bool {
    after_hit(s[first_match(s, has_id(victim))], damage, attacker).status == PlayerStatus::Eliminated
}

/// The players after a hit: victim hit, attacker credited, and an
/// eliminated victim placed just behind the players still standing.
pub open spec fn players_after_hit(s: Seq<BRPlayer>, attacker: u32, victim: u32, damage: u16) -> Seq<
    BRPlayer,
> {
    let vi = first_match(s, has_id(victim));
    if vi < 0 {
        s
    } else {
        let s2 = players_hit(s, attacker, victim, damage);
        if hit_eliminates(s, attacker, victim, damage) {
            s2.update(vi, BRPlayer { placement: (count_where(s2, standing()) + 1) as u16, ..s2[vi] })
        } else {
            s2
        }
    }
}

/// The attacker's tallies stay within their integer types through a hit.
pub open spec fn hit_fits(s: Seq<BRPlayer>, attacker: u32, victim: u32, damage: u16) -> bool {
    let vi = first_match(s, has_id(victim));
    let hit = after_hit(s[vi], damage, attacker);
    let s1 = s.update(vi, hit);
    let ai = first_match(s1, has_id(attacker));
    vi >= 0 && ai >= 0 ==> {
        &&& s1[ai].damage_dealt + hit_damage(s[vi], damage) <= u32::MAX
        &&& hit.status == PlayerStatus::Eliminated ==> s1[ai].kills < u16::MAX
    }
}

/// Eliminated players without a placement get placements counting down
/// from `total` in the order of the players.
pub open spec fn placed(s: Seq<BRPlayer>, total: int) -> Seq<BRPlayer> {
    Seq::new(
        s.len(),
        |i: int|
            if unplaced()(s[i]) {
                BRPlayer { placement: (total - count_where(s.take(i), unplaced())) as u16, ..s[i] }
            } else {
                s[i]
            },
    )
}

/// The winner after a victory check: the single player still standing, if
/// there is exactly one, else the winner known before.
pub open spec fn winner_after(s: Seq<BRPlayer>, old_winner: Option<u32>) -> Option<u32> {
    if count_where(s, standing()) == 1 {
        Some(s[first_match(s, standing())].client_id)
    } else {
        old_winner
    }
}

/// The players after a victory check: placements handed out, and the
/// winner's first row placed first.
pub open spec fn players_at_victory(s: Seq<BRPlayer>, winner: Option<u32>) -> Seq<BRPlayer> {
    let p = placed(s, s.len() as int);
    match winner {
        Some(w) => if first_match(p, has_id(w)) >= 0 {
            p.update(first_match(p, has_id(w)), BRPlayer { placement: 1, ..p[first_match(p, has_id(w))] })
        } else {
            p
        },
        None => p,
    }
}

/// Placements handed out at victory are all between 1 and the number of
/// players, and count down along the players: two players placed at the
/// same check never share a placement.
pub proof fn lemma_victory_placements_distinct(s: Seq<BRPlayer>, i: int, j: int)
    requires
        s.len() <= u16::MAX,
        0 <= i < j < s.len(),
        unplaced()(s[i]),
        unplaced()(s[j]),
    ensures
        1 <= placed(s, s.len() as int)[j].placement < placed(s, s.len() as int)[i].placement <= s.len(),
{
    lemma_count_prefix_monotone(s, unplaced(), i, j);
    lemma_count_bounded(s.take(i), unplaced());
    lemma_count_bounded(s.take(j), unplaced());
}

/// A sequence with no match has count 0.
proof fn lemma_no_match_no_count<T>(s: Seq<T>, p: spec_fn(T) -> bool)
    requires
        first_match(s, p) == -1,
    ensures
        count_where(s, p) == 0,
    decreases s.len(),
{
    if s.len() > 0 {
        let t = s.drop_last();
        if first_match(t, p) >= 0 {
            assert(first_match(s, p) >= 0);
        }
        lemma_no_match_no_count(t, p);
    }
}

proof fn lemma_count_none_between<T>(s: Seq<T>, p: spec_fn(T) -> bool, a: int, b: int)
    requires
        0 <= a <= b <= s.len(),
        forall|m: int| a <= m < b ==> !p(#[trigger] s[m]),
    ensures
        count_where(s.take(b), p) == count_where(s.take(a), p),
    decreases b - a,
{
    if a < b {
        lemma_count_none_between(s, p, a, b - 1);
        lemma_count_step(s, p, b - 1);
    }
}

/// At victory, eliminated players without a placement are placed from the
/// back in player order: the first of them gets the number of players, and
/// each next one the placement just above the previous one; everybody else
/// keeps their placement.
pub proof fn lemma_victory_places_from_the_back(s: Seq<BRPlayer>, i: int, j: int)
    requires
        s.len() <= u16::MAX,
        0 <= i < j < s.len(),
    ensures
        !(s[i].status == PlayerStatus::Eliminated && s[i].placement == 0) ==> placed(s, s.len() as int)[i]
            == s[i],
        (s[i].status == PlayerStatus::Eliminated && s[i].placement == 0 && forall|m: int|
            0 <= m < i ==> !(#[trigger] s[m].status == PlayerStatus::Eliminated && s[m].placement == 0))
            ==> placed(s, s.len() as int)[i].placement == s.len(),
        (s[i].status == PlayerStatus::Eliminated && s[i].placement == 0 && s[j].status
            == PlayerStatus::Eliminated && s[j].placement == 0 && forall|m: int|
            i < m < j ==> !(#[trigger] s[m].status == PlayerStatus::Eliminated && s[m].placement == 0))
            ==> placed(s, s.len() as int)[j].placement + 1 == placed(s, s.len() as int)[i].placement,
{
    lemma_count_bounded(s.take(i), unplaced());
    lemma_count_bounded(s.take(j), unplaced());
    if s[i].status == PlayerStatus::Eliminated && s[i].placement == 0 && forall|m: int|
        0 <= m < i ==> !(#[trigger] s[m].status == PlayerStatus::Eliminated && s[m].placement == 0) {
        assert forall|m: int| 0 <= m < i implies !unplaced()(#[trigger] s[m]) by {}
        lemma_count_none_between(s, unplaced(), 0, i);
        assert(s.take(0) =~= Seq::<BRPlayer>::empty());
    }
    if s[i].status == PlayerStatus::Eliminated && s[i].placement == 0 && s[j].status
        == PlayerStatus::Eliminated && s[j].placement == 0 && forall|m: int|
        i < m < j ==> !(#[trigger] s[m].status == PlayerStatus::Eliminated && s[m].placement == 0) {
        assert forall|m: int| i + 1 <= m < j implies !unplaced()(#[trigger] s[m]) by {}
        lemma_count_step(s, unplaced(), i);
        lemma_count_none_between(s, unplaced(), i + 1, j);
    }
}

/// When exactly one player is still standing (alive, gliding, on the bus
/// or down), that player is the winner.
pub proof fn lemma_last_standing_wins(s: Seq<BRPlayer>, old_winner: Option<u32>, k: int)
    requires
        count_where(s, standing()) == 1,
        0 <= k < s.len(),
        s[k].status == PlayerStatus::Alive || s[k].status == PlayerStatus::Gliding || s[k].status
            == PlayerStatus::OnBus || s[k].status == PlayerStatus::DBNO,
    ensures
        winner_after(s, old_winner) == Some(s[k].client_id),
{
    lemma_first_match(s, standing());
    let f = first_match(s, standing());
    assert(standing()(s[k]));
    assert(f >= 0);
    if f != k {
        let (a, b) = if f < k { (f, k) } else { (k, f) };
        lemma_count_prefix_monotone(s, standing(), a, b);
        lemma_count_prefix_monotone(s, standing(), 0, a);
        lemma_count_step(s, standing(), b);
        lemma_count_prefix_monotone(s, standing(), b + 1, s.len() as int);
        assert(s.take(s.len() as int) =~= s);
        assert(s.take(0) =~= Seq::<BRPlayer>::empty());
        assert(standing()(s[a]) && standing()(s[b]));
        lemma_count_step(s, standing(), a);
        lemma_count_prefix_monotone(s, standing(), a + 1, b);
    }
}

/// The winner's row is placed first at victory.
pub proof fn lemma_winner_placed_first(s: Seq<BRPlayer>, w: u32)
    requires
        first_match(s, has_id(w)) >= 0,
    ensures
        players_at_victory(s, Some(w))[first_match(s, has_id(w))].placement == 1,
        players_at_victory(s, Some(w))[first_match(s, has_id(w))].client_id == w,
{
    let p = placed(s, s.len() as int);
    lemma_first_match(s, has_id(w));
    assert forall|j: int| 0 <= j < s.len() implies has_id(w)(#[trigger] s[j]) == has_id(w)(p[j]) by {}
    lemma_first_match_same_hits(s, p, has_id(w));
}

fn first_standing(players: &Vec<BRPlayer>) -> (r: Option<usize>)
    ensures
        r matches Some(i) ==> i == first_match(players@, standing()) && i < players@.len(),
        r is None ==> first_match(players@, standing()) == -1,
{
    proof { lemma_first_match(players@, standing()); }
    let mut j: usize = 0;
    while j < players.len()
        invariant
            j <= players.len(),
            first_match(players@.take(j as int), standing()) == -1,
        decreases players.len() - j,
    {
        proof { lemma_first_match_step(players@, standing(), j as int); }
        if is_standing(&players[j]) {
            proof { lemma_first_match_prefix(players@, standing(), j + 1); }
            return Some(j);
        }
        j = j + 1;
    }
    assert(players@.take(j as int) =~= players@);
    None
}

fn find_player(players: &Vec<BRPlayer>, client_id: u32) -> (r: Option<usize>)
    ensures
        r matches Some(i) ==> i == first_match(players@, has_id(client_id)) && i < players@.len(),
        r is None ==> first_match(players@, has_id(client_id)) == -1,
{
    proof { lemma_first_match(players@, has_id(client_id)); }
    let mut j: usize = 0;
    while j < players.len()
        invariant
            j <= players.len(),
            first_match(players@.take(j as int), has_id(client_id)) == -1,
        decreases players.len() - j,
    {
        proof { lemma_first_match_step(players@, has_id(client_id), j as int); }
        if players[j].client_id == client_id {
            proof { lemma_first_match_prefix(players@, has_id(client_id), j + 1); }
            return Some(j);
        }
        j = j + 1;
    }
    assert(players@.take(j as int) =~= players@);
    None
}

/// The structure with id `id`.
pub open spec fn structure_with_id(id: u32) -> spec_fn(BuildStructure) -> bool {
    |b: BuildStructure| b.id == id
}

fn find_structure(structures: &Vec<BuildStructure>, id: u32) -> (r: Option<usize>)
    ensures
        r matches Some(i) ==> i == first_match(structures@, structure_with_id(id)) && i < structures@.len(),
        r is None ==> first_match(structures@, structure_with_id(id)) == -1,
{
    proof { lemma_first_match(structures@, structure_with_id(id)); }
    let mut j: usize = 0;
    while j < structures.len()
        invariant
            j <= structures.len(),
            first_match(structures@.take(j as int), structure_with_id(id)) == -1,
        decreases structures.len() - j,
    {
        proof { lemma_first_match_step(structures@, structure_with_id(id), j as int); }
        if structures[j].id == id {
            proof { lemma_first_match_prefix(structures@, structure_with_id(id), j + 1); }
            return Some(j);
        }
        j = j + 1;
    }
    assert(structures@.take(j as int) =~= structures@);
    None
}

fn is_standing(p: &BRPlayer) -> (r: bool)
    ensures
        r == standing()(*p),
{
    match p.status {
        PlayerStatus::Alive | PlayerStatus::Gliding | PlayerStatus::OnBus | PlayerStatus::DBNO => true,
        _ => false,
    }
}

fn count_standing(players: &Vec<BRPlayer>) -> (n: usize)
    ensures
        n == count_where(players@, standing()),
{
    let mut n: usize = 0;
    let mut j: usize = 0;
    while j < players.len()
        invariant
            j <= players.len(),
            n == count_where(players@.take(j as int), standing()),
            n <= j,
        decreases players.len() - j,
    {
        proof { lemma_count_step(players@, standing(), j as int); }
        if is_standing(&players[j]) {
            n = n + 1;
        }
        j = j + 1;
    }
    assert(players@.take(j as int) =~= players@);
    n
}

impl BRMatchState {
    /// A match in warm-up with no players.
    pub fn new(match_id: &str, map_seed: u64) -> (r: Self)
        ensures
            r.match_id@ == match_id@,
            r.phase == MatchPhase::Warmup,
            r.tick == 0,
            r.players@.len() == 0 && r.structures@.len() == 0 && r.kill_feed@.len() == 0,
            r.alive_count == 0,
            r.next_structure_id == 1 && r.next_loot_id == 1,
            r.winner_id is None,
            r.map_seed == map_seed,
    {
        BRMatchState {
            match_id: match_id.to_owned(),
            phase: MatchPhase::Warmup,
            tick: 0,
            players: Vec::new(),
            structures: Vec::new(),
            kill_feed: Vec::new(),
            alive_count: 0,
            next_structure_id: 1,
            next_loot_id: 1,
            winner_id: None,
            map_seed,
        }
    }

    /// Join a player during warm-up while there is room; returns whether
    /// the player joined.
    pub fn add_player(&mut self, client_id: u32, did: &str, name: &str) -> (joined: bool)
        ensures
            joined == (old(self).players@.len() < MAX_PLAYERS && old(self).phase == MatchPhase::Warmup),
            !joined ==> *final(self) == *old(self),
            joined ==> {
                &&& final(self).players@.len() == old(self).players@.len() + 1
                &&& final(self).players@.take(old(self).players@.len() as int) == old(self).players@
                &&& is_new_player(final(self).players@.last(), client_id, did@, name@)
                &&& *final(self) == (BRMatchState { players: final(self).players, ..*old(self) })
            },
            old(self).players@.len() <= MAX_PLAYERS ==> final(self).players@.len() <= MAX_PLAYERS,
    {
        if self.players.len() >= MAX_PLAYERS as usize {
            return false;
        }
        match self.phase {
            MatchPhase::Warmup => {},
            _ => {
                return false;
            },
        }
        let p = BRPlayer::new(client_id, did, name);
        let ghost before = self.players@;
        self.players.push(p);
        assert(self.players@.take(before.len() as int) =~= before);
        true
    }

    /// Start the match: every player boards the bus and counts as alive.
    pub fn start_match(&mut self)
        ensures
            final(self).phase == MatchPhase::BattleBus,
            final(self).alive_count == old(self).players@.len() as u32,
            final(self).players@ == Seq::new(
                old(self).players@.len(),
                |i: int| BRPlayer { status: PlayerStatus::OnBus, ..old(self).players@[i] },
            ),
            *final(self) == (BRMatchState {
                phase: final(self).phase,
                alive_count: final(self).alive_count,
                players: final(self).players,
                ..*old(self)
            }),
    {
        self.phase = MatchPhase::BattleBus;
        self.alive_count = self.players.len() as u32;
        let mut players: Vec<BRPlayer> = Vec::new();
        std::mem::swap(&mut players, &mut self.players);
        let ghost s = players@;
        let mut i: usize = 0;
        while i < players.len()
            invariant
                i <= players.len(),
                players@.len() == s.len(),
                forall|j: int| 0 <= j < i ==> #[trigger] players@[j] == (BRPlayer { status: PlayerStatus::OnBus, ..s[j] }),
                forall|j: int| i <= j < s.len() ==> #[trigger] players@[j] == s[j],
            decreases players.len() - i,
        {
            players[i].status = PlayerStatus::OnBus;
            i = i + 1;
        }
        assert(players@ =~= Seq::new(s.len(), |i: int| BRPlayer { status: PlayerStatus::OnBus, ..s[i] }));
        self.players = players;
    }

    /// The bus has reached the end of its route: every rider still on it
    /// is dropped and the early game begins.
    pub fn on_bus_finished(&mut self)
        ensures
            final(self).phase == MatchPhase::EarlyGame,
            final(self).players@ == Seq::new(
                old(self).players@.len(),
                |i: int|
                    if old(self).players@[i].status == PlayerStatus::OnBus {
                        BRPlayer { status: PlayerStatus::Gliding, bus_jumped: true, ..old(self).players@[i] }
                    } else {
                        old(self).players@[i]
                    },
            ),
            *final(self) == (BRMatchState { phase: final(self).phase, players: final(self).players, ..*old(self) }),
    {
        let mut players: Vec<BRPlayer> = Vec::new();
        std::mem::swap(&mut players, &mut self.players);
        let ghost s = players@;
        let mut i: usize = 0;
        while i < players.len()
            invariant
                i <= players.len(),
                players@.len() == s.len(),
                forall|j: int| 0 <= j < i ==> #[trigger] players@[j] == if s[j].status == PlayerStatus::OnBus {
                    BRPlayer { status: PlayerStatus::Gliding, bus_jumped: true, ..s[j] }
                } else {
                    s[j]
                },
                forall|j: int| i <= j < s.len() ==> #[trigger] players@[j] == s[j],
            decreases players.len() - i,
        {
            if players[i].status == PlayerStatus::OnBus {
                players[i].status = PlayerStatus::Gliding;
                players[i].bus_jumped = true;
            }
            i = i + 1;
        }
        self.players = players;
        assert(self.players@ =~= Seq::new(
            s.len(),
            |i: int|
                if s[i].status == PlayerStatus::OnBus {
                    BRPlayer { status: PlayerStatus::Gliding, bus_jumped: true, ..s[i] }
                } else {
                    s[i]
                },
        ));
        self.phase = MatchPhase::EarlyGame;
    }

    /// The storm has moved on to circle `phase_index`: circles 0 to 2 are
    /// the early game, 3 to 5 the mid game, later ones the end game.
    pub fn on_storm_phase_changed(&mut self, phase_index: u8)
        ensures
            final(self).phase == if phase_index <= 2 {
                MatchPhase::EarlyGame
            } else if phase_index <= 5 {
                MatchPhase::MidGame
            } else {
                MatchPhase::EndGame
            },
            *final(self) == (BRMatchState { phase: final(self).phase, ..*old(self) }),
    {
        self.phase = if phase_index <= 2 {
            MatchPhase::EarlyGame
        } else if phase_index <= 5 {
            MatchPhase::MidGame
        } else {
            MatchPhase::EndGame
        };
    }

    /// A rider jumps from the bus and glides.
    pub fn player_jump(&mut self, client_id: u32)
        ensures
            final(self).players@.len() == old(self).players@.len(),
            ({
                let s = old(self).players@;
                let i = first_match(s, has_id(client_id));
                final(self).players@ == if i >= 0 && s[i].status == PlayerStatus::OnBus {
                    s.update(i, BRPlayer { status: PlayerStatus::Gliding, bus_jumped: true, ..s[i] })
                } else {
                    s
                }
            }),
            *final(self) == (BRMatchState { players: final(self).players, ..*old(self) }),
    {
        if let Some(i) = find_player(&self.players, client_id) {
            if self.players[i].status == PlayerStatus::OnBus {
                self.players[i].status = PlayerStatus::Gliding;
                self.players[i].bus_jumped = true;
            }
        }
    }

    /// A gliding player lands and is alive on the ground.
    pub fn player_land(&mut self, client_id: u32)
        ensures
            final(self).players@.len() == old(self).players@.len(),
            ({
                let s = old(self).players@;
                let i = first_match(s, has_id(client_id));
                final(self).players@ == if i >= 0 && s[i].status == PlayerStatus::Gliding {
                    s.update(i, BRPlayer { status: PlayerStatus::Alive, landed: true, ..s[i] })
                } else {
                    s
                }
            }),
            *final(self) == (BRMatchState { players: final(self).players, ..*old(self) }),
    {
        if let Some(i) = find_player(&self.players, client_id) {
            if self.players[i].status == PlayerStatus::Gliding {
                self.players[i].status = PlayerStatus::Alive;
                self.players[i].landed = true;
            }
        }
    }

    /// A player alive on the ground builds a piece when they can pay for
    /// it; returns the new structure's id.
    pub fn player_build(&mut self, client_id: u32, piece: BuildPiece, material: MaterialType) -> (r: Option<u32>)
        requires
            old(self).next_structure_id < u32::MAX,
        ensures
            final(self).players@.len() == old(self).players@.len(),
            ({
                let s = old(self).players@;
                let i = first_match(s, has_id(client_id));
                if i >= 0 && s[i].status == PlayerStatus::Alive && spec_can_build(s[i], material) {
                    &&& r == Some(old(self).next_structure_id)
                    &&& final(self).next_structure_id == old(self).next_structure_id + 1
                    &&& final(self).players@ == s.update(
                        i,
                        with_stock(s[i], material, (stock_of(s[i], material) - spec_cost(material)) as u16),
                    )
                    &&& final(self).structures@ == old(self).structures@.push(
                        BuildStructure {
                            id: old(self).next_structure_id,
                            piece: piece,
                            material: material,
                            current_hp: spec_initial_hp(material),
                            max_hp: spec_max_hp(material),
                            building: true,
                            owner_id: client_id,
                        },
                    )
                    &&& *final(self) == (BRMatchState {
                        players: final(self).players,
                        structures: final(self).structures,
                        next_structure_id: final(self).next_structure_id,
                        ..*old(self)
                    })
                } else {
                    &&& r is None
                    &&& final(self).players@ == s
                    &&& *final(self) == (BRMatchState { players: final(self).players, ..*old(self) })
                }
            }),
    {
        let i = match find_player(&self.players, client_id) {
            Some(i) => i,
            None => {
                return None;
            },
        };
        if self.players[i].status != PlayerStatus::Alive {
            return None;
        }
        let ghost before = self.players@;
        if !self.players[i].spend_material(material) {
            assert(self.players@ =~= before);
            return None;
        }
        let id = self.next_structure_id;
        self.next_structure_id = self.next_structure_id + 1;
        self.structures.push(BuildStructure::new(id, piece, material, client_id));
        Some(id)
    }

    /// Damage the first structure with id `structure_id`; returns whether it
    /// was destroyed (false when there is no such structure).
    pub fn damage_structure(&mut self, structure_id: u32, damage: u16) -> (destroyed: bool)
        ensures
            ({
                let s = old(self).structures@;
                let i = first_match(s, structure_with_id(structure_id));
                if i >= 0 {
                    &&& final(self).structures@ == s.update(
                        i,
                        BuildStructure {
                            current_hp: if s[i].current_hp > damage {
                                (s[i].current_hp - damage) as u16
                            } else {
                                0
                            },
                            ..s[i]
                        },
                    )
                    &&& destroyed == (final(self).structures@[i].current_hp == 0)
                } else {
                    &&& final(self).structures@ == s
                    &&& !destroyed
                }
            }),
            *final(self) == (BRMatchState { structures: final(self).structures, ..*old(self) }),
    {
        match find_structure(&self.structures, structure_id) {
            Some(i) => self.structures[i].take_damage(damage),
            None => false,
        }
    }

    /// Resolve a hit of `damage` by `attacker_id` on `victim_id` with
    /// `weapon_name`.  Nothing happens when there is no such victim.
    /// Otherwise the victim takes the hit, the attacker (if present) is
    /// credited with the damage dealt and, when the victim ends up
    /// eliminated, a kill; an eliminated victim is placed just behind the
    /// players still standing and the elimination enters the kill feed,
    /// which keeps its newest entries.  The alive count is then recounted.
    pub fn process_hit(
        &mut self,
        attacker_id: u32,
        victim_id: u32,
        damage: u16,
        weapon_name: &str,
        headshot: bool,
    )
        requires
            old(self).players@.len() < u16::MAX,
            hit_fits(old(self).players@, attacker_id, victim_id, damage),
        ensures
            final(self).players@.len() == old(self).players@.len(),
            ({
                let s = old(self).players@;
                let vi = first_match(s, has_id(victim_id));
                if vi < 0 {
                    *final(self) == *old(self)
                } else {
                    let s2 = players_hit(s, attacker_id, victim_id, damage);
                    &&& final(self).players@ == players_after_hit(s, attacker_id, victim_id, damage)
                    &&& feed_views(final(self).kill_feed@) == if hit_eliminates(s, attacker_id, victim_id, damage) {
                        feed_after(
                            feed_views(old(self).kill_feed@),
                            KillFeedView {
                                tick: old(self).tick,
                                eliminator_name: name_of(s2, attacker_id),
                                eliminator_id: attacker_id,
                                victim_name: name_of(s2, victim_id),
                                victim_id: victim_id,
                                weapon_name: weapon_name@,
                                headshot: headshot,
                            },
                        )
                    } else {
                        feed_views(old(self).kill_feed@)
                    }
                    &&& final(self).alive_count == count_where(final(self).players@, in_play()) as u32
                    &&& *final(self) == (BRMatchState {
                        players: final(self).players,
                        kill_feed: final(self).kill_feed,
                        alive_count: final(self).alive_count,
                        ..*old(self)
                    })
                }
            }),
            old(self).kill_feed@.len() <= KILL_FEED_LEN ==> final(self).kill_feed@.len() <= KILL_FEED_LEN,
    {
        let ghost s = self.players@;
        let vi = match find_player(&self.players, victim_id) {
            Some(i) => i,
            None => {
                return;
            },
        };
        let actual = self.players[vi].take_damage(damage, attacker_id);
        let eliminated = self.players[vi].status == PlayerStatus::Eliminated;
        let ghost s1 = self.players@;
        assert(s1 == s.update(vi as int, after_hit(s[vi as int], damage, attacker_id)));
        match find_player(&self.players, attacker_id) {
            Some(ai) => {
                let dd = self.players[ai].damage_dealt + actual as u32;
                self.players[ai].damage_dealt = dd;
                if eliminated {
                    let k = self.players[ai].kills + 1;
                    self.players[ai].kills = k;
                }
                assert(self.players@ =~= s1.update(ai as int, credited(s1[ai as int], actual, eliminated)));
            },
            None => {},
        }
        let ghost s2 = self.players@;
        assert(s2 == players_hit(s, attacker_id, victim_id, damage));
        proof {
            assert forall|j: int| 0 <= j < s2.len() implies has_id(victim_id)(#[trigger] s2[j]) == has_id(victim_id)(s[j]) by {}
            lemma_first_match_same_hits(s2, s, has_id(victim_id));
        }
        if eliminated {
            let attacker_name = match find_player(&self.players, attacker_id) {
                Some(i) => self.players[i].display_name.clone(),
                None => String::new(),
            };
            let victim_name = match find_player(&self.players, victim_id) {
                Some(i) => self.players[i].display_name.clone(),
                None => String::new(),
            };
            let alive = count_standing(&self.players);
            proof { lemma_count_bounded(s2, standing()); }
            let place = (alive as u16) + 1;
            self.players[vi].placement = place;
            assert(self.players@ =~= s2.update(vi as int, BRPlayer { placement: (count_where(s2, standing()) + 1) as u16, ..s2[vi as int] }));
            let ghost feed0 = feed_views(self.kill_feed@);
            let entry = KillFeedEntry {
                tick: self.tick,
                eliminator_name: attacker_name,
                eliminator_id: attacker_id,
                victim_name,
                victim_id,
                weapon_name: weapon_name.to_owned(),
                headshot,
            };
            self.kill_feed.push(entry);
            assert(feed_views(self.kill_feed@) =~= feed0.push(entry@));
            if self.kill_feed.len() > KILL_FEED_LEN {
                let ghost f1 = self.kill_feed@;
                self.kill_feed.remove(0);
                assert(feed_views(self.kill_feed@) =~= feed_views(f1).skip(1));
            }
        }
        self.update_alive_count();
    }

    /// Declare victory once at most one player is counted alive: the
    /// single player still standing, if any, wins; eliminated players
    /// without a placement are placed counting down from the number of
    /// players, in player order; the winner is placed first.
    pub fn check_victory(&mut self)
        requires
            old(self).players@.len() <= u16::MAX,
        ensures
            !(old(self).alive_count <= 1 && old(self).phase != MatchPhase::Victory) ==> *final(self) == *old(self),
            old(self).alive_count <= 1 && old(self).phase != MatchPhase::Victory ==> {
                &&& final(self).phase == MatchPhase::Victory
                &&& final(self).winner_id == winner_after(old(self).players@, old(self).winner_id)
                &&& final(self).players@ == players_at_victory(old(self).players@, final(self).winner_id)
                &&& *final(self) == (BRMatchState {
                    phase: final(self).phase,
                    winner_id: final(self).winner_id,
                    players: final(self).players,
                    ..*old(self)
                })
            },
    {
        if !(self.alive_count <= 1 && self.phase != MatchPhase::Victory) {
            return;
        }
        self.phase = MatchPhase::Victory;
        let ghost s = self.players@;
        // the players still standing
        let standing_count = count_standing(&self.players);
        if standing_count == 1 {
            match first_standing(&self.players) {
                Some(j) => {
                    self.winner_id = Some(self.players[j].client_id);
                },
                None => {
                    proof { lemma_no_match_no_count(s, standing()); }
                },
            }
        }
        let ghost winner = self.winner_id;
        assert(winner == winner_after(s, old(self).winner_id));
        // placements count down from the number of players
        let mut players: Vec<BRPlayer> = Vec::new();
        std::mem::swap(&mut players, &mut self.players);
        let total = players.len() as u16;
        let mut placement: u16 = total;
        let mut i: usize = 0;
        while i < players.len()
            invariant
                i <= players.len(),
                players@.len() == s.len(),
                s.len() <= u16::MAX,
                total == s.len(),
                placement == total - count_where(s.take(i as int), unplaced()),
                count_where(s.take(i as int), unplaced()) <= i,
                forall|j: int| 0 <= j < i ==> #[trigger] players@[j] == placed(s, s.len() as int)[j],
                forall|j: int| i <= j < s.len() ==> #[trigger] players@[j] == s[j],
            decreases players.len() - i,
        {
            proof { lemma_count_step(s, unplaced(), i as int); }
            if players[i].status == PlayerStatus::Eliminated && players[i].placement == 0 {
                players[i].placement = placement;
                placement = placement - 1;
            }
            i = i + 1;
        }
        assert(players@ =~= placed(s, s.len() as int));
        match self.winner_id {
            Some(w) => {
                match find_player(&players, w) {
                    Some(k) => {
                        players[k].placement = 1;
                    },
                    None => {},
                }
            },
            None => {},
        }
        self.players = players;
        assert(self.players@ =~= players_at_victory(s, winner));
    }

    /// Recount the players alive, gliding or down.
    pub fn update_alive_count(&mut self)
        ensures
            final(self).alive_count == count_where(old(self).players@, in_play()) as u32,
            *final(self) == (BRMatchState { alive_count: final(self).alive_count, ..*old(self) }),
    {
        let mut n: usize = 0;
        let mut j: usize = 0;
        while j < self.players.len()
            invariant
                j <= self.players.len(),
                n == count_where(self.players@.take(j as int), in_play()),
                n <= j,
            decreases self.players.len() - j,
        {
            proof { lemma_count_step(self.players@, in_play(), j as int); }
            match self.players[j].status {
                PlayerStatus::Alive | PlayerStatus::Gliding | PlayerStatus::DBNO => {
                    n = n + 1;
                },
                _ => {},
            }
            j = j + 1;
        }
        assert(self.players@.take(j as int) =~= self.players@);
        self.alive_count = n as u32;
    }

    /// Clear away destroyed pieces, keeping the others in order.
    pub fn remove_destroyed_structures(&mut self)
        ensures
            final(self).structures@ == old(self).structures@.filter(intact()),
            *final(self) == (BRMatchState { structures: final(self).structures, ..*old(self) }),
    {
        let mut all: Vec<BuildStructure> = Vec::new();
        std::mem::swap(&mut all, &mut self.structures);
        let ghost s = all@;
        let mut kept: Vec<BuildStructure> = Vec::new();
        let mut i: usize = 0;
        while i < all.len()
            invariant
                i <= all@.len(),
                all@ == s,
                kept@ == s.take(i as int).filter(intact()),
                *self == (BRMatchState { structures: self.structures, ..*old(self) }),
            decreases all@.len() - i,
        {
            proof {
                reveal(Seq::filter);
                assert(s.take(i + 1).drop_last() =~= s.take(i as int));
            }
            let b = all[i];
            if b.current_hp > 0 {
                kept.push(b);
            }
            i = i + 1;
        }
        assert(s.take(i as int) =~= s);
        self.structures = kept;
    }

    /// One tick of storm damage: `hits[i]` is what the storm deals player
    /// `i` this tick, `None` for a player outside it.  Only players alive
    /// on the ground take it; then the alive counter is recounted.
    pub fn on_storm_damage(&mut self, hits: &Vec<Option<u16>>)
        requires
            hits@.len() == old(self).players@.len(),
        ensures
            final(self).players@ == Seq::new(
                old(self).players@.len(),
                |i: int| after_storm(old(self).players@[i], hits@[i]),
            ),
            final(self).alive_count == count_where(final(self).players@, in_play()) as u32,
            *final(self) == (BRMatchState {
                players: final(self).players,
                alive_count: final(self).alive_count,
                ..*old(self)
            }),
    {
        let ghost s = self.players@;
        let mut i: usize = 0;
        while i < self.players.len()
            invariant
                i <= self.players@.len(),
                self.players@.len() == s.len(),
                hits@.len() == s.len(),
                forall|j: int| 0 <= j < i ==> #[trigger] self.players@[j] == after_storm(s[j], hits@[j]),
                forall|j: int| i <= j < s.len() ==> #[trigger] self.players@[j] == s[j],
                *self == (BRMatchState { players: self.players, ..*old(self) }),
            decreases self.players@.len() - i,
        {
            match hits[i] {
                Some(d) => {
                    if self.players[i].status == PlayerStatus::Alive {
                        self.players[i].take_damage(d, 0);
                    }
                },
                None => {},
            }
            i = i + 1;
        }
        assert(self.players@ =~= Seq::new(s.len(), |i: int| after_storm(s[i], hits@[i])));
        self.update_alive_count();
    }

    /// One tick for downed players: each bleeds `bleed` health and is
    /// eliminated once health runs out or `expired[i]` says its down timer
    /// has run out; then the alive counter is recounted.
    pub fn on_dbno_tick(&mut self, bleed: u16, expired: &Vec<bool>)
        requires
            expired@.len() == old(self).players@.len(),
        ensures
            final(self).players@ == Seq::new(
                old(self).players@.len(),
                |i: int| after_bleed(old(self).players@[i], bleed, expired@[i]),
            ),
            final(self).alive_count == count_where(final(self).players@, in_play()) as u32,
            *final(self) == (BRMatchState {
                players: final(self).players,
                alive_count: final(self).alive_count,
                ..*old(self)
            }),
    {
        let ghost s = self.players@;
        let mut i: usize = 0;
        while i < self.players.len()
            invariant
                i <= self.players@.len(),
                self.players@.len() == s.len(),
                expired@.len() == s.len(),
                forall|j: int| 0 <= j < i ==> #[trigger] self.players@[j] == after_bleed(s[j], bleed, expired@[j]),
                forall|j: int| i <= j < s.len() ==> #[trigger] self.players@[j] == s[j],
                *self == (BRMatchState { players: self.players, ..*old(self) }),
            decreases self.players@.len() - i,
        {
            if self.players[i].status == PlayerStatus::DBNO {
                let hp = self.players[i].hp.saturating_sub(bleed);
                self.players[i].hp = hp;
                if hp == 0 || expired[i] {
                    self.players[i].status = PlayerStatus::Eliminated;
                }
            }
            i = i + 1;
        }
        assert(self.players@ =~= Seq::new(s.len(), |i: int| after_bleed(s[i], bleed, expired@[i])));
        self.update_alive_count();
    }
}


} // verus!
