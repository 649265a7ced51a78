//! Card data: the ships, pilots, upgrades and factions that an xws id can
//! stand for, with what a report shows of each.
//!
//! The data is a set of plain lists in the order in which it was loaded. A
//! search by xws id goes through a list from its start and takes the first
//! card with that id.

use crate::text::{same_text, text_before, text_precedes};
use vstd::prelude::*;

verus! {

/// The slot that an upgrade takes up.
#[derive(Clone, Copy, Debug, PartialEq, Eq, Hash, Structural)]
pub enum SlotKind {
    Astromech,
    Cannon,
    Cargo,
    Command,
    Configuration,
    Crew,
    Device,
    ForcePower,
    Gunner,
    Hardpoint,
    Hyperdrive,
    Illicit,
    Missile,
    Modification,
    Sensor,
    TacticalRelay,
    Talent,
    Team,
    Tech,
    Title,
    Torpedo,
    Turret,
}

/// The name of a slot kind, written as one word.
pub open spec fn slot_name(kind: SlotKind) -> Seq<char> {
    match kind {
        SlotKind::Astromech => "Astromech"@,
        SlotKind::Cannon => "Cannon"@,
        SlotKind::Cargo => "Cargo"@,
        SlotKind::Command => "Command"@,
        SlotKind::Configuration => "Configuration"@,
        SlotKind::Crew => "Crew"@,
        SlotKind::Device => "Device"@,
        SlotKind::ForcePower => "ForcePower"@,
        SlotKind::Gunner => "Gunner"@,
        SlotKind::Hardpoint => "Hardpoint"@,
        SlotKind::Hyperdrive => "Hyperdrive"@,
        SlotKind::Illicit => "Illicit"@,
        SlotKind::Missile => "Missile"@,
        SlotKind::Modification => "Modification"@,
        SlotKind::Sensor => "Sensor"@,
        SlotKind::TacticalRelay => "TacticalRelay"@,
        SlotKind::Talent => "Talent"@,
        SlotKind::Team => "Team"@,
        SlotKind::Tech => "Tech"@,
        SlotKind::Title => "Title"@,
        SlotKind::Torpedo => "Torpedo"@,
        SlotKind::Turret => "Turret"@,
    }
}

/// The place of a slot kind in the order of the slot kinds.
pub open spec fn slot_rank(kind: SlotKind) -> int {
    match kind {
        SlotKind::Astromech => 0,
        SlotKind::Cannon => 1,
        SlotKind::Cargo => 2,
        SlotKind::Command => 3,
        SlotKind::Configuration => 4,
        SlotKind::Crew => 5,
        SlotKind::Device => 6,
        SlotKind::ForcePower => 7,
        SlotKind::Gunner => 8,
        SlotKind::Hardpoint => 9,
        SlotKind::Hyperdrive => 10,
        SlotKind::Illicit => 11,
        SlotKind::Missile => 12,
        SlotKind::Modification => 13,
        SlotKind::Sensor => 14,
        SlotKind::TacticalRelay => 15,
        SlotKind::Talent => 16,
        SlotKind::Team => 17,
        SlotKind::Tech => 18,
        SlotKind::Title => 19,
        SlotKind::Torpedo => 20,
        SlotKind::Turret => 21,
    }
}

impl SlotKind {
    /// The name of the slot kind, written as one word.
    pub fn name(self) -> (r: &'static str)
        ensures
            r@ == slot_name(self),
    {
        match self {
            SlotKind::Astromech => "Astromech",
            SlotKind::Cannon => "Cannon",
            SlotKind::Cargo => "Cargo",
            SlotKind::Command => "Command",
            SlotKind::Configuration => "Configuration",
            SlotKind::Crew => "Crew",
            SlotKind::Device => "Device",
            SlotKind::ForcePower => "ForcePower",
            SlotKind::Gunner => "Gunner",
            SlotKind::Hardpoint => "Hardpoint",
            SlotKind::Hyperdrive => "Hyperdrive",
            SlotKind::Illicit => "Illicit",
            SlotKind::Missile => "Missile",
            SlotKind::Modification => "Modification",
            SlotKind::Sensor => "Sensor",
            SlotKind::TacticalRelay => "TacticalRelay",
            SlotKind::Talent => "Talent",
            SlotKind::Team => "Team",
            SlotKind::Tech => "Tech",
            SlotKind::Title => "Title",
            SlotKind::Torpedo => "Torpedo",
            SlotKind::Turret => "Turret",
        }
    }

    /// The place of the slot kind in the order of the slot kinds.
    pub fn rank(self) -> (r: u8)
        ensures
            r == slot_rank(self),
    {
        match self {
            SlotKind::Astromech => 0,
            SlotKind::Cannon => 1,
            SlotKind::Cargo => 2,
            SlotKind::Command => 3,
            SlotKind::Configuration => 4,
            SlotKind::Crew => 5,
            SlotKind::Device => 6,
            SlotKind::ForcePower => 7,
            SlotKind::Gunner => 8,
            SlotKind::Hardpoint => 9,
            SlotKind::Hyperdrive => 10,
            SlotKind::Illicit => 11,
            SlotKind::Missile => 12,
            SlotKind::Modification => 13,
            SlotKind::Sensor => 14,
            SlotKind::TacticalRelay => 15,
            SlotKind::Talent => 16,
            SlotKind::Team => 17,
            SlotKind::Tech => 18,
            SlotKind::Title => 19,
            SlotKind::Torpedo => 20,
            SlotKind::Turret => 21,
        }
    }
}

/// The kinds of thing that an xws id can name.
#[derive(Clone, Copy, Debug, PartialEq, Eq, Hash, Structural)]
pub enum XwsKind {
    Ship,
    Obstacle,
    Pilot,
    /// An upgrade, with the slot of its main side.
    Upgrade(SlotKind),
    Damage,
    Action,
}

/// The two kinds of card that the card data lists at its top level.
#[derive(Clone, Copy, Debug, PartialEq, Eq, Structural)]
pub enum CardType {
    Pilot,
    Upgrade,
}

/// A thing that has an xws id and a kind. The two together name it.
pub trait XwsId {
    /// The characters of the xws id.
    spec fn id(&self) -> Seq<char>;

    /// Whether the thing has a kind.
    spec fn classified(&self) -> bool;

    /// The kind, where the thing has one.
    spec fn class(&self) -> XwsKind;

    /// Returns the xws id of the item.
    fn xws(&self) -> (r: &str)
        ensures
            r@ == self.id(),
    ;

    /// Returns the kind of the item.
    fn kind(&self) -> (r: XwsKind)
        requires
            self.classified(),
        ensures
            r == self.class(),
    ;
}

/// Whether two things are named alike: the same xws id and the same kind.
pub fn same_id<A: XwsId, B: XwsId>(a: &A, b: &B) -> (r: bool)
    requires
        a.classified(),
        b.classified(),
    ensures
        r == (a.id() == b.id() && a.class() == b.class()),
{
    same_text(a.xws(), b.xws()) && a.kind() == b.kind()
}

/// The place of a kind in the order of the kinds; the upgrades share one
/// place.
pub open spec fn class_rank(kind: XwsKind) -> int {
    match kind {
        XwsKind::Ship => 0,
        XwsKind::Obstacle => 1,
        XwsKind::Pilot => 2,
        XwsKind::Upgrade(_) => 3,
        XwsKind::Damage => 4,
        XwsKind::Action => 5,
    }
}

/// The order of the kinds: as they are listed, the upgrades among themselves
/// by slot.
pub open spec fn class_before(a: XwsKind, b: XwsKind) -> bool {
    class_rank(a) < class_rank(b) || match (a, b) {
        (XwsKind::Upgrade(x), XwsKind::Upgrade(y)) => slot_rank(x) < slot_rank(y),
        _ => false,
    }
}

impl XwsKind {
    /// The place of the kind in the order of the kinds.
    pub fn rank(self) -> (r: u8)
        ensures
            r == class_rank(self),
    {
        match self {
            XwsKind::Ship => 0,
            XwsKind::Obstacle => 1,
            XwsKind::Pilot => 2,
            XwsKind::Upgrade(_) => 3,
            XwsKind::Damage => 4,
            XwsKind::Action => 5,
        }
    }

    /// Whether this kind comes before `other` in the order of the kinds.
    pub fn precedes(self, other: XwsKind) -> (r: bool)
        ensures
            r == class_before(self, other),
    {
        match (self, other) {
            (XwsKind::Upgrade(x), XwsKind::Upgrade(y)) => x.rank() < y.rank(),
            _ => self.rank() < other.rank(),
        }
    }
}

/// Whether one thing is named before another: by xws id, and by kind where
/// the ids are the same.
pub fn id_before<A: XwsId, B: XwsId>(a: &A, b: &B) -> (r: bool)
    requires
        a.classified(),
        b.classified(),
    ensures
        r == (text_before(a.id(), b.id()) || (a.id() == b.id() && class_before(
            a.class(),
            b.class(),
        ))),
{
    text_precedes(a.xws(), b.xws()) || (same_text(a.xws(), b.xws()) && a.kind().precedes(b.kind()))
}

/// A faction: its xws id and its display name.
#[derive(Debug)]
pub struct Faction {
    pub xws: String,
    pub name: String,
}

impl XwsId for Faction {
    open spec fn id(&self) -> Seq<char> {
        self.xws@
    }

    open spec fn classified(&self) -> bool {
        true
    }

    open spec fn class(&self) -> XwsKind {
        XwsKind::Pilot
    }

    fn xws(&self) -> (r: &str) {
        self.xws.as_str()
    }

    fn kind(&self) -> (r: XwsKind) {
        XwsKind::Pilot
    }
}

/// Whether a card is known to have no xws id in the card data. These are
/// mostly cards for epic play.
pub fn known_missing(xws: &str) -> (r: bool)
    ensures
        r == (xws@ == "sabinewren-swz93"@),
{
    same_text(xws, "sabinewren-swz93")
}

/// A pilot card.
#[derive(Debug)]
pub struct Pilot {
    pub name: String,
    pub caption: Option<String>,
    pub xws: String,
    pub initiative: u32,
    pub standard_loadout: Option<Vec<String>>,
}

impl XwsId for Pilot {
    open spec fn id(&self) -> Seq<char> {
        self.xws@
    }

    open spec fn classified(&self) -> bool {
        true
    }

    open spec fn class(&self) -> XwsKind {
        XwsKind::Pilot
    }

    fn xws(&self) -> (r: &str) {
        self.xws.as_str()
    }

    fn kind(&self) -> (r: XwsKind) {
        XwsKind::Pilot
    }
}

/// A ship as one faction flies it, with the pilots of that faction.
#[derive(Debug)]
pub struct Ship {
    pub name: String,
    pub xws: String,
    pub faction: String,
    pub size: String,
    pub pilots: Vec<Pilot>,
}

impl XwsId for Ship {
    open spec fn id(&self) -> Seq<char> {
        self.xws@
    }

    open spec fn classified(&self) -> bool {
        true
    }

    open spec fn class(&self) -> XwsKind {
        XwsKind::Ship
    }

    fn xws(&self) -> (r: &str) {
        self.xws.as_str()
    }

    fn kind(&self) -> (r: XwsKind) {
        XwsKind::Ship
    }
}

/// One side of an upgrade card: the kind of the card and the slots it takes.
#[derive(Debug)]
pub struct Side {
    pub kind: SlotKind,
    pub slots: Vec<SlotKind>,
}

/// The categories of restriction that a report shows.
#[derive(Clone, Copy, Debug, PartialEq, Eq, Structural)]
pub enum Restriction {
    Factions,
    Sizes,
    Ships,
    Arcs,
    Keywords,
    ForceSide,
}

/// An action that a restriction asks for, with its difficulty.
#[derive(Debug)]
pub struct ActionDifficulty {
    pub kind: String,
    pub difficulty: Option<String>,
}

/// One restriction clause of an upgrade. A category that the clause does not
/// speak of has an empty list.
#[derive(Debug)]
pub struct Restrictions {
    pub factions: Vec<String>,
    pub sizes: Vec<String>,
    pub ships: Vec<String>,
    pub arcs: Vec<String>,
    pub keywords: Vec<String>,
    pub force_side: Vec<String>,
    pub equipped: Vec<String>,
    pub action: Option<ActionDifficulty>,
}

/// An upgrade card.
#[derive(Debug)]
pub struct Upgrade {
    pub name: String,
    pub xws: String,
    pub sides: Vec<Side>,
    pub restrictions: Vec<Restrictions>,
}

impl XwsId for Upgrade {
    open spec fn id(&self) -> Seq<char> {
        self.xws@
    }

    /// An upgrade takes its kind from its first side.
    open spec fn classified(&self) -> bool {
        self.sides@.len() > 0
    }

    open spec fn class(&self) -> XwsKind {
        XwsKind::Upgrade(self.sides@[0].kind)
    }

    fn xws(&self) -> (r: &str) {
        self.xws.as_str()
    }

    fn kind(&self) -> (r: XwsKind) {
        XwsKind::Upgrade(self.sides[0].kind)
    }
}

/// The first ship of the list with the xws id `xws`.
pub open spec fn first_ship(ships: Seq<Ship>, xws: Seq<char>) -> Option<Ship>
    decreases ships.len(),
{
    if ships.len() == 0 {
        None
    } else if ships[0].xws@ == xws {
        Some(ships[0])
    } else {
        first_ship(ships.drop_first(), xws)
    }
}

/// The first upgrade of the list with the xws id `xws`.
pub open spec fn first_upgrade(upgrades: Seq<Upgrade>, xws: Seq<char>) -> Option<Upgrade>
    decreases upgrades.len(),
{
    if upgrades.len() == 0 {
        None
    } else if upgrades[0].xws@ == xws {
        Some(upgrades[0])
    } else {
        first_upgrade(upgrades.drop_first(), xws)
    }
}

/// The first faction of the list with the xws id `xws`.
pub open spec fn first_faction(factions: Seq<Faction>, xws: Seq<char>) -> Option<Faction>
    decreases factions.len(),
{
    if factions.len() == 0 {
        None
    } else if factions[0].xws@ == xws {
        Some(factions[0])
    } else {
        first_faction(factions.drop_first(), xws)
    }
}

/// The first pilot of the list with the xws id `xws`.
pub open spec fn first_pilot_of(pilots: Seq<Pilot>, xws: Seq<char>) -> Option<Pilot>
    decreases pilots.len(),
{
    if pilots.len() == 0 {
        None
    } else if pilots[0].xws@ == xws {
        Some(pilots[0])
    } else {
        first_pilot_of(pilots.drop_first(), xws)
    }
}

/// The first ship of the list that has a pilot with the xws id `xws`,
/// together with the first such pilot of that ship.
pub open spec fn first_pilot(ships: Seq<Ship>, xws: Seq<char>) -> Option<(Ship, Pilot)>
    decreases ships.len(),
{
    if ships.len() == 0 {
        None
    } else {
        match first_pilot_of(ships[0].pilots@, xws) {
            Some(p) => Some((ships[0], p)),
            None => first_pilot(ships.drop_first(), xws),
        }
    }
}

/// The loaded card data.
#[derive(Debug)]
pub struct Data {
    pub ships: Vec<Ship>,
    pub upgrades: Vec<Upgrade>,
    /// The factions, for the display name that goes with a faction's xws id.
    pub factions: Vec<Faction>,
}

impl Data {
    /// The pilot with the xws id `xws`, and the ship that the pilot flies.
    pub fn get_pilot(&self, xws: &str) -> (r: Option<(&Ship, &Pilot)>)
        ensures
            match r {
                Some((s, p)) => first_pilot(self.ships@, xws@) == Some((*s, *p)),
                None => first_pilot(self.ships@, xws@) is None,
            },
    {
        let mut i: usize = 0;
        assert(self.ships@.skip(0) =~= self.ships@);
        while i < self.ships.len()
            invariant
                i <= self.ships.len(),
                first_pilot(self.ships@, xws@) == first_pilot(self.ships@.skip(i as int), xws@),
            decreases self.ships.len() - i,
        {
            let ship = &self.ships[i];
            assert(self.ships@.skip(i as int)[0] == *ship);
            let mut j: usize = 0;
            assert(ship.pilots@.skip(0) =~= ship.pilots@);
            while j < ship.pilots.len()
                invariant
                    j <= ship.pilots.len(),
                    i < self.ships.len(),
                    ship == &self.ships[i as int],
                    self.ships@.skip(i as int)[0] == *ship,
                    first_pilot(self.ships@, xws@) == first_pilot(self.ships@.skip(i as int), xws@),
                    first_pilot_of(ship.pilots@, xws@) == first_pilot_of(
                        ship.pilots@.skip(j as int),
                        xws@,
                    ),
                decreases ship.pilots.len() - j,
            {
                assert(ship.pilots@.skip(j as int)[0] == ship.pilots[j as int]);
                if same_text(ship.pilots[j].xws.as_str(), xws) {
                    return Some((ship, &ship.pilots[j]));
                }
                assert(ship.pilots@.skip(j as int).drop_first() =~= ship.pilots@.skip(j + 1));
                j += 1;
            }
            assert(self.ships@.skip(i as int).drop_first() =~= self.ships@.skip(i + 1));
            i += 1;
        }
        None
    }

    /// The upgrade with the xws id `xws`.
    pub fn get_upgrade(&self, xws: &str) -> (r: Option<&Upgrade>)
        ensures
            match r {
                Some(u) => first_upgrade(self.upgrades@, xws@) == Some(*u),
                None => first_upgrade(self.upgrades@, xws@) is None,
            },
    {
        let mut i: usize = 0;
        assert(self.upgrades@.skip(0) =~= self.upgrades@);
        while i < self.upgrades.len()
            invariant
                i <= self.upgrades.len(),
                first_upgrade(self.upgrades@, xws@) == first_upgrade(
                    self.upgrades@.skip(i as int),
                    xws@,
                ),
            decreases self.upgrades.len() - i,
        {
            assert(self.upgrades@.skip(i as int)[0] == self.upgrades[i as int]);
            if same_text(self.upgrades[i].xws.as_str(), xws) {
                return Some(&self.upgrades[i]);
            }
            assert(self.upgrades@.skip(i as int).drop_first() =~= self.upgrades@.skip(i + 1));
            i += 1;
        }
        None
    }

    /// The ship with the xws id `xws`, as the first faction that flies it.
    pub fn get_ship(&self, xws: &str) -> (r: Option<&Ship>)
        ensures
            match r {
                Some(s) => first_ship(self.ships@, xws@) == Some(*s),
                None => first_ship(self.ships@, xws@) is None,
            },
    {
        let mut i: usize = 0;
        assert(self.ships@.skip(0) =~= self.ships@);
        while i < self.ships.len()
            invariant
                i <= self.ships.len(),
                first_ship(self.ships@, xws@) == first_ship(self.ships@.skip(i as int), xws@),
            decreases self.ships.len() - i,
        {
            assert(self.ships@.skip(i as int)[0] == self.ships[i as int]);
            if same_text(self.ships[i].xws.as_str(), xws) {
                return Some(&self.ships[i]);
            }
            assert(self.ships@.skip(i as int).drop_first() =~= self.ships@.skip(i + 1));
            i += 1;
        }
        None
    }

    /// The faction with the xws id `xws`.
    pub fn get_faction(&self, xws: &str) -> (r: Option<&Faction>)
        ensures
            match r {
                Some(f) => first_faction(self.factions@, xws@) == Some(*f),
                None => first_faction(self.factions@, xws@) is None,
            },
    {
        let mut i: usize = 0;
        assert(self.factions@.skip(0) =~= self.factions@);
        while i < self.factions.len()
            invariant
                i <= self.factions.len(),
                first_faction(self.factions@, xws@) == first_faction(
                    self.factions@.skip(i as int),
                    xws@,
                ),
            decreases self.factions.len() - i,
        {
            assert(self.factions@.skip(i as int)[0] == self.factions[i as int]);
            if same_text(self.factions[i].xws.as_str(), xws) {
                return Some(&self.factions[i]);
            }
            assert(self.factions@.skip(i as int).drop_first() =~= self.factions@.skip(i + 1));
            i += 1;
        }
        None
    }
}

} // verus!
