//! Report records: what is owned, by kind, with display names from the card
//! data and, for each component, the expansions it comes from.

use crate::expansions::{
    find_sku, refs, sources_in, Catalog, ExpansionView, Inventory, Item, ItemId, ItemType,
    SourceRef,
};
use crate::sorted::SortKey;
use crate::text::{decimal, join, joined, push_decimal, texts};
use crate::xwingdata2::{
    first_faction, first_pilot, first_ship, first_upgrade, slot_name, Data, Faction, Pilot,
    Restriction, Restrictions, Ship, Side, SlotKind, Upgrade,
};
use crate::ErrorKind;
use vstd::prelude::*;

verus! {

/// How one source is written: the expansion's name, its SKU, its wave and
/// the count per copy, with colons between. A SKU that the catalog does not
/// know is written with the name `unknown` and the wave 99.
pub open spec fn source_text(cat: Seq<ExpansionView>, source: (Seq<char>, u32)) -> Seq<char> {
    let name = match find_sku(cat, source.0) {
        Some(e) => e.name,
        None => "unknown"@,
    };
    let wave = match find_sku(cat, source.0) {
        Some(e) => e.wave,
        None => 99u32,
    };
    name + ":"@ + source.0 + ":wave"@ + decimal(wave as nat) + ":"@ + decimal(source.1 as nat)
}

/// Each source of the list as it is written.
pub open spec fn source_texts(cat: Seq<ExpansionView>, sources: Seq<(Seq<char>, u32)>) -> Seq<
    Seq<char>,
> {
    Seq::new(sources.len(), |i: int| source_text(cat, sources[i]))
}

/// How a list of sources is written: each source, with commas between.
pub open spec fn sources_text(cat: Seq<ExpansionView>, sources: Seq<(Seq<char>, u32)>) -> Seq<
    char,
> {
    joined(source_texts(cat, sources), ","@)
}

/// Where a component comes from, as a record shows it; nothing where no
/// expansion holds the component.
pub open spec fn provenance(cat: Seq<ExpansionView>, item: ItemId) -> Option<Seq<char>> {
    if sources_in(cat, item).len() == 0 {
        None
    } else {
        Some(sources_text(cat, sources_in(cat, item)))
    }
}

/// What an optional string holds.
pub open spec fn option_text(s: Option<String>) -> Option<Seq<char>> {
    match s {
        Some(t) => Some(t@),
        None => None,
    }
}

/// Writes a list of sources: for each the expansion's name, its SKU, its
/// wave and the count per copy, with colons between, and commas between the
/// sources.
pub fn format_sources(catalog: &Catalog, sources: &Vec<SourceRef>) -> (r: String)
    ensures
        r@ == sources_text(catalog@, refs(sources@)),
{
    let ghost all = source_texts(catalog@, refs(sources@));
    let mut parts: Vec<String> = Vec::new();
    let mut i: usize = 0;
    assert(texts(parts@) =~= all.take(0));
    while i < sources.len()
        invariant
            i <= sources.len(),
            all == source_texts(catalog@, refs(sources@)),
            texts(parts@) == all.take(i as int),
        decreases sources.len() - i,
    {
        let source = &sources[i];
        let ghost held = texts(parts@);
        assert(refs(sources@)[i as int] == source@);
        let found = catalog.lookup(source.sku.as_str());
        let wave: u32 = match found {
            Some(e) => e.wave,
            None => 99,
        };
        let mut text = match found {
            Some(e) => e.name.clone(),
            None => "unknown".to_owned(),
        };
        text.append(":");
        text.append(source.sku.as_str());
        text.append(":wave");
        push_decimal(&mut text, wave);
        text.append(":");
        push_decimal(&mut text, source.per_copy_count);
        assert(text@ == source_text(catalog@, source@));
        parts.push(text);
        assert(texts(parts@) =~= held.push(all[i as int]));
        assert(held.push(all[i as int]) =~= all.take(i + 1));
        i += 1;
    }
    assert(all.take(all.len() as int) =~= all);
    join(&parts, ",")
}

/// Where a component comes from, as a record shows it.
fn sources_of(catalog: &Catalog, kind: ItemType, xws: &str) -> (r: Option<String>)
    ensures
        option_text(r) == provenance(catalog@, ItemId { kind, xws: xws@ }),
{
    let item = Item { kind, xws: xws.to_owned() };
    match catalog.sources_of(&item) {
        Some(sources) => Some(format_sources(catalog, sources)),
        None => None,
    }
}

/// What a [`ShipRecord`] is in contracts.
pub struct ShipRecordView {
    pub name: Seq<char>,
    pub xws: Seq<char>,
    pub factions: Seq<char>,
    pub count: u32,
    pub sources: Option<Seq<char>>,
}

/// An owned ship as a report shows it.
#[derive(Debug)]
pub struct ShipRecord {
    pub name: String,
    pub xws: String,
    pub factions: String,
    pub count: u32,
    /// The sources, for information; absent where there are none.
    pub sources: Option<String>,
}

impl View for ShipRecord {
    type V = ShipRecordView;

    open spec fn view(&self) -> ShipRecordView {
        ShipRecordView {
            name: self.name@,
            xws: self.xws@,
            factions: self.factions@,
            count: self.count,
            sources: option_text(self.sources),
        }
    }
}

/// The record of `count` owned copies of the ship `s`.
pub open spec fn ship_record(s: Ship, count: u32, cat: Seq<ExpansionView>) -> ShipRecordView {
    ShipRecordView {
        name: s.name@,
        xws: s.xws@,
        factions: s.faction@,
        count,
        sources: provenance(cat, ItemId { kind: ItemType::Ship, xws: s.xws@ }),
    }
}

impl ShipRecord {
    /// Turns an xws id and a count into the record of a ship; fails where the
    /// card data has no ship with that id.
    pub fn build(xws: &str, count: u32, data: &Data, catalog: &Catalog) -> (r: Result<
        Self,
        ErrorKind,
    >)
        ensures
            match first_ship(data.ships@, xws@) {
                Some(s) => r matches Ok(record) && record@ == ship_record(s, count, catalog@),
                None => r matches Err(ErrorKind::NotFound),
            },
    {
        proof {
            lemma_first_ship_has_id(data.ships@, xws@);
        }
        match data.get_ship(xws) {
            None => Err(ErrorKind::NotFound),
            Some(s) => Ok(
                ShipRecord {
                    name: s.name.clone(),
                    xws: s.xws.clone(),
                    factions: s.faction.clone(),
                    count,
                    sources: sources_of(catalog, ItemType::Ship, xws),
                },
            ),
        }
    }
}

/// The ship that a search finds has the id that was searched for.
pub proof fn lemma_first_ship_has_id(ships: Seq<Ship>, xws: Seq<char>)
    ensures
        first_ship(ships, xws) matches Some(s) ==> s.xws@ == xws,
    decreases ships.len(),
{
    if ships.len() > 0 && ships[0].xws@ != xws {
        lemma_first_ship_has_id(ships.drop_first(), xws);
    }
}

/// The upgrade that a search finds has the id that was searched for.
pub proof fn lemma_first_upgrade_has_id(upgrades: Seq<Upgrade>, xws: Seq<char>)
    ensures
        first_upgrade(upgrades, xws) matches Some(u) ==> u.xws@ == xws,
    decreases upgrades.len(),
{
    if upgrades.len() > 0 && upgrades[0].xws@ != xws {
        lemma_first_upgrade_has_id(upgrades.drop_first(), xws);
    }
}

/// The pilot that a search finds has the id that was searched for.
pub proof fn lemma_first_pilot_has_id(ships: Seq<Ship>, xws: Seq<char>)
    ensures
        first_pilot(ships, xws) matches Some(found) ==> found.1.xws@ == xws,
    decreases ships.len(),
{
    if ships.len() > 0 {
        lemma_first_pilot_of_has_id(ships[0].pilots@, xws);
        lemma_first_pilot_has_id(ships.drop_first(), xws);
    }
}

/// The pilot that a search of one ship finds has the id that was searched
/// for.
pub proof fn lemma_first_pilot_of_has_id(pilots: Seq<Pilot>, xws: Seq<char>)
    ensures
        crate::xwingdata2::first_pilot_of(pilots, xws) matches Some(p) ==> p.xws@ == xws,
    decreases pilots.len(),
{
    if pilots.len() > 0 && pilots[0].xws@ != xws {
        lemma_first_pilot_of_has_id(pilots.drop_first(), xws);
    }
}

/// The display name of a faction; its xws id where the card data does not
/// know the faction.
pub open spec fn faction_name(factions: Seq<Faction>, xws: Seq<char>) -> Seq<char> {
    match first_faction(factions, xws) {
        Some(f) => f.name@,
        None => xws,
    }
}

/// The display name of a ship; its xws id where the card data does not know
/// the ship.
pub open spec fn ship_name(ships: Seq<Ship>, xws: Seq<char>) -> Seq<char> {
    match first_ship(ships, xws) {
        Some(s) => s.name@,
        None => xws,
    }
}

/// The display name of a faction, or its xws id.
fn faction_name_of(data: &Data, xws: &str) -> (r: String)
    ensures
        r@ == faction_name(data.factions@, xws@),
{
    match data.get_faction(xws) {
        Some(f) => f.name.clone(),
        None => xws.to_owned(),
    }
}

/// The display name of a ship, or its xws id.
fn ship_name_of(data: &Data, xws: &str) -> (r: String)
    ensures
        r@ == ship_name(data.ships@, xws@),
{
    match data.get_ship(xws) {
        Some(s) => s.name.clone(),
        None => xws.to_owned(),
    }
}

/// What a [`PilotRecord`] is in contracts.
pub struct PilotRecordView {
    pub faction: Seq<char>,
    pub ship: Seq<char>,
    pub xws: Seq<char>,
    pub name: Seq<char>,
    pub initiative: u32,
    pub count: u32,
    pub sources: Option<Seq<char>>,
}

/// An owned pilot as a report shows it, with the fields that a collection is
/// sorted by.
#[derive(Debug)]
pub struct PilotRecord {
    pub faction: String,
    pub ship: String,
    pub xws: String,
    pub name: String,
    pub initiative: u32,
    pub count: u32,
    pub sources: Option<String>,
}

impl View for PilotRecord {
    type V = PilotRecordView;

    open spec fn view(&self) -> PilotRecordView {
        PilotRecordView {
            faction: self.faction@,
            ship: self.ship@,
            xws: self.xws@,
            name: self.name@,
            initiative: self.initiative,
            count: self.count,
            sources: option_text(self.sources),
        }
    }
}

/// The record of `count` owned copies of the pilot `p`, who flies `s`.
pub open spec fn pilot_record(
    s: Ship,
    p: Pilot,
    factions: Seq<Faction>,
    count: u32,
    cat: Seq<ExpansionView>,
) -> PilotRecordView {
    PilotRecordView {
        faction: faction_name(factions, s.faction@),
        ship: s.name@,
        xws: p.xws@,
        name: p.name@,
        initiative: p.initiative,
        count,
        sources: provenance(cat, ItemId { kind: ItemType::Pilot, xws: p.xws@ }),
    }
}

impl PilotRecord {
    /// Turns an xws id and a count into the record of a pilot; fails where
    /// the card data has no pilot with that id.
    pub fn build(xws: &str, count: u32, data: &Data, expansions: &Catalog) -> (r: Result<
        Self,
        ErrorKind,
    >)
        ensures
            match first_pilot(data.ships@, xws@) {
                Some((s, p)) => r matches Ok(record) && record@ == pilot_record(
                    s,
                    p,
                    data.factions@,
                    count,
                    expansions@,
                ),
                None => r matches Err(ErrorKind::NotFound),
            },
    {
        proof {
            lemma_first_pilot_has_id(data.ships@, xws@);
        }
        match data.get_pilot(xws) {
            None => Err(ErrorKind::NotFound),
            Some((s, p)) => Ok(
                PilotRecord {
                    faction: faction_name_of(data, s.faction.as_str()),
                    ship: s.name.clone(),
                    xws: p.xws.clone(),
                    name: p.name.clone(),
                    initiative: p.initiative,
                    count,
                    sources: sources_of(expansions, ItemType::Pilot, xws),
                },
            ),
        }
    }
}

/// The names of a list of slot kinds.
pub open spec fn slot_names(slots: Seq<SlotKind>) -> Seq<Seq<char>> {
    Seq::new(slots.len(), |i: int| slot_name(slots[i]))
}

/// The kind of an upgrade as a record shows it: the kind of its first side,
/// or `unknown` for an upgrade without sides.
pub open spec fn main_kind(sides: Seq<Side>) -> Seq<char> {
    if sides.len() > 0 {
        slot_name(sides[0].kind)
    } else {
        "unknown"@
    }
}

/// The slots of an upgrade as a record shows them: those of its first side
/// with commas between, or `unknown` for an upgrade without sides.
pub open spec fn main_slots(sides: Seq<Side>) -> Seq<char> {
    if sides.len() > 0 {
        joined(slot_names(sides[0].slots@), ","@)
    } else {
        "unknown"@
    }
}

/// The values that one clause gives a category: display names for factions
/// and ships, the clause's own words for the rest.
pub open spec fn clause_values(data: Data, clause: Restrictions, kind: Restriction) -> Seq<
    Seq<char>,
> {
    match kind {
        Restriction::Factions => Seq::new(
            clause.factions@.len(),
            |i: int| faction_name(data.factions@, clause.factions@[i]@),
        ),
        Restriction::Ships => Seq::new(
            clause.ships@.len(),
            |i: int| ship_name(data.ships@, clause.ships@[i]@),
        ),
        Restriction::Sizes => texts(clause.sizes@),
        Restriction::Arcs => texts(clause.arcs@),
        Restriction::Keywords => texts(clause.keywords@),
        Restriction::ForceSide => texts(clause.force_side@),
    }
}

/// The values that all the clauses give a category, clause after clause.
pub open spec fn restriction_values(data: Data, clauses: Seq<Restrictions>, kind: Restriction) -> Seq<
    Seq<char>,
>
    decreases clauses.len(),
{
    if clauses.len() == 0 {
        Seq::empty()
    } else {
        restriction_values(data, clauses.drop_last(), kind) + clause_values(
            data,
            clauses.last(),
            kind,
        )
    }
}

/// How a category of restriction is written: its values with commas between.
pub open spec fn restriction_text(data: Data, clauses: Seq<Restrictions>, kind: Restriction) -> Seq<
    char,
> {
    joined(restriction_values(data, clauses, kind), ","@)
}

/// A clause that says nothing of a category leaves what is written of that
/// category as it is, wherever the clause stands.
pub proof fn lemma_silent_clause_adds_nothing(
    data: Data,
    clauses: Seq<Restrictions>,
    kind: Restriction,
    k: int,
)
    requires
        0 <= k < clauses.len(),
        clause_values(data, clauses[k], kind).len() == 0,
    ensures
        restriction_text(data, clauses, kind) == restriction_text(data, clauses.remove(k), kind),
{
    lemma_silent_clause_values(data, clauses, kind, k);
}

/// A clause that says nothing of a category adds no value to it.
pub proof fn lemma_silent_clause_values(
    data: Data,
    clauses: Seq<Restrictions>,
    kind: Restriction,
    k: int,
)
    requires
        0 <= k < clauses.len(),
        clause_values(data, clauses[k], kind).len() == 0,
    ensures
        restriction_values(data, clauses, kind) == restriction_values(
            data,
            clauses.remove(k),
            kind,
        ),
    decreases clauses.len(),
{
    if k == clauses.len() - 1 {
        assert(clauses.remove(k) =~= clauses.drop_last());
        assert(restriction_values(data, clauses, kind) =~= restriction_values(
            data,
            clauses.drop_last(),
            kind,
        ));
    } else {
        lemma_silent_clause_values(data, clauses.drop_last(), kind, k);
        assert(clauses.remove(k).drop_last() =~= clauses.drop_last().remove(k));
        assert(clauses.remove(k).last() == clauses.last());
    }
}

/// Appends copies of the strings of `list` to `values`.
fn push_texts(values: &mut Vec<String>, list: &Vec<String>)
    ensures
        texts(final(values)@) == texts(old(values)@) + texts(list@),
{
    let ghost start = texts(values@);
    let mut i: usize = 0;
    assert(texts(values@) =~= start + texts(list@).take(0));
    while i < list.len()
        invariant
            i <= list.len(),
            texts(values@) == start + texts(list@).take(i as int),
        decreases list.len() - i,
    {
        let ghost held = texts(values@);
        values.push(list[i].clone());
        assert(texts(values@) =~= held.push(list@[i as int]@));
        assert(held.push(list@[i as int]@) =~= start + texts(list@).take(i + 1));
        i += 1;
    }
    assert(texts(list@).take(list.len() as int) =~= texts(list@));
}

/// Appends the values that `clause` gives the category `kind` to `values`.
fn push_clause(values: &mut Vec<String>, data: &Data, clause: &Restrictions, kind: Restriction)
    ensures
        texts(final(values)@) == texts(old(values)@) + clause_values(*data, *clause, kind),
{
    let ghost start = texts(values@);
    let ghost all = clause_values(*data, *clause, kind);
    match kind {
        Restriction::Factions => {
            let mut i: usize = 0;
            assert(texts(values@) =~= start + all.take(0));
            while i < clause.factions.len()
                invariant
                    i <= clause.factions.len(),
                    kind == Restriction::Factions,
                    all == clause_values(*data, *clause, kind),
                    texts(values@) == start + all.take(i as int),
                decreases clause.factions.len() - i,
            {
                let ghost held = texts(values@);
                values.push(faction_name_of(data, clause.factions[i].as_str()));
                assert(texts(values@) =~= held.push(all[i as int]));
                assert(held.push(all[i as int]) =~= start + all.take(i + 1));
                i += 1;
            }
            assert(all.take(all.len() as int) =~= all);
        },
        Restriction::Ships => {
            let mut i: usize = 0;
            assert(texts(values@) =~= start + all.take(0));
            while i < clause.ships.len()
                invariant
                    i <= clause.ships.len(),
                    kind == Restriction::Ships,
                    all == clause_values(*data, *clause, kind),
                    texts(values@) == start + all.take(i as int),
                decreases clause.ships.len() - i,
            {
                let ghost held = texts(values@);
                values.push(ship_name_of(data, clause.ships[i].as_str()));
                assert(texts(values@) =~= held.push(all[i as int]));
                assert(held.push(all[i as int]) =~= start + all.take(i + 1));
                i += 1;
            }
            assert(all.take(all.len() as int) =~= all);
        },
        Restriction::Sizes => push_texts(values, &clause.sizes),
        Restriction::Arcs => push_texts(values, &clause.arcs),
        Restriction::Keywords => push_texts(values, &clause.keywords),
        Restriction::ForceSide => push_texts(values, &clause.force_side),
    }
}

/// Writes one category of the restrictions of an upgrade: the values of all
/// the clauses, with commas between. A clause that says nothing of the
/// category adds nothing, not even a comma.
pub fn format_restriction(data: &Data, restrictions: &Vec<Restrictions>, kind: Restriction) -> (r:
    String)
    ensures
        r@ == restriction_text(*data, restrictions@, kind),
{
    let mut values: Vec<String> = Vec::new();
    let mut i: usize = 0;
    assert(restrictions@.take(0) =~= Seq::<Restrictions>::empty());
    assert(texts(values@) =~= Seq::<Seq<char>>::empty());
    while i < restrictions.len()
        invariant
            i <= restrictions.len(),
            texts(values@) == restriction_values(*data, restrictions@.take(i as int), kind),
        decreases restrictions.len() - i,
    {
        assert(restrictions@.take(i + 1).drop_last() =~= restrictions@.take(i as int));
        assert(restrictions@.take(i + 1).last() == restrictions@[i as int]);
        push_clause(&mut values, data, &restrictions[i], kind);
        i += 1;
    }
    assert(restrictions@.take(restrictions.len() as int) =~= restrictions@);
    join(&values, ",")
}

/// What an [`UpgradeRecord`] is in contracts.
pub struct UpgradeRecordView {
    pub xws: Seq<char>,
    pub kind: Seq<char>,
    pub slots: Seq<char>,
    pub name: Seq<char>,
    pub faction_restriction: Seq<char>,
    pub size_restriction: Seq<char>,
    pub ship_restriction: Seq<char>,
    pub arc_restriction: Seq<char>,
    pub keyword_restriction: Seq<char>,
    pub count: u32,
    pub force_side_restriction: Seq<char>,
    pub sources: Option<Seq<char>>,
}

/// An owned upgrade as a report shows it, with the fields that a collection
/// is sorted by.
#[derive(Debug)]
pub struct UpgradeRecord {
    pub xws: String,
    pub kind: String,
    pub slots: String,
    pub name: String,
    pub faction_restriction: String,
    pub size_restriction: String,
    pub ship_restriction: String,
    pub arc_restriction: String,
    pub keyword_restriction: String,
    pub count: u32,
    pub force_side_restriction: String,
    /// The sources, for information; absent where there are none.
    pub sources: Option<String>,
}

impl View for UpgradeRecord {
    type V = UpgradeRecordView;

    open spec fn view(&self) -> UpgradeRecordView {
        UpgradeRecordView {
            xws: self.xws@,
            kind: self.kind@,
            slots: self.slots@,
            name: self.name@,
            faction_restriction: self.faction_restriction@,
            size_restriction: self.size_restriction@,
            ship_restriction: self.ship_restriction@,
            arc_restriction: self.arc_restriction@,
            keyword_restriction: self.keyword_restriction@,
            count: self.count,
            force_side_restriction: self.force_side_restriction@,
            sources: option_text(self.sources),
        }
    }
}

/// The record of `count` owned copies of the upgrade `u`.
pub open spec fn upgrade_record(u: Upgrade, data: Data, count: u32, cat: Seq<ExpansionView>) -> UpgradeRecordView {
    UpgradeRecordView {
        xws: u.xws@,
        kind: main_kind(u.sides@),
        slots: main_slots(u.sides@),
        name: u.name@,
        faction_restriction: restriction_text(data, u.restrictions@, Restriction::Factions),
        size_restriction: restriction_text(data, u.restrictions@, Restriction::Sizes),
        ship_restriction: restriction_text(data, u.restrictions@, Restriction::Ships),
        arc_restriction: restriction_text(data, u.restrictions@, Restriction::Arcs),
        keyword_restriction: restriction_text(data, u.restrictions@, Restriction::Keywords),
        count,
        force_side_restriction: restriction_text(data, u.restrictions@, Restriction::ForceSide),
        sources: provenance(cat, ItemId { kind: ItemType::Upgrade, xws: u.xws@ }),
    }
}

/// The slots of a side, with commas between.
fn slots_text(slots: &Vec<SlotKind>) -> (r: String)
    ensures
        r@ == joined(slot_names(slots@), ","@),
{
    let ghost all = slot_names(slots@);
    let mut names: Vec<String> = Vec::new();
    let mut i: usize = 0;
    assert(texts(names@) =~= all.take(0));
    while i < slots.len()
        invariant
            i <= slots.len(),
            all == slot_names(slots@),
            texts(names@) == all.take(i as int),
        decreases slots.len() - i,
    {
        let ghost held = texts(names@);
        names.push(slots[i].name().to_owned());
        assert(texts(names@) =~= held.push(all[i as int]));
        assert(held.push(all[i as int]) =~= all.take(i + 1));
        i += 1;
    }
    assert(all.take(all.len() as int) =~= all);
    join(&names, ",")
}

impl UpgradeRecord {
    /// Turns an xws id and a count into the record of an upgrade; fails where
    /// the card data has no upgrade with that id.
    pub fn build(xws: &str, count: u32, data: &Data, catalog: &Catalog) -> (r: Result<
        Self,
        ErrorKind,
    >)
        ensures
            match first_upgrade(data.upgrades@, xws@) {
                Some(u) => r matches Ok(record) && record@ == upgrade_record(
                    u,
                    *data,
                    count,
                    catalog@,
                ),
                None => r matches Err(ErrorKind::NotFound),
            },
    {
        proof {
            lemma_first_upgrade_has_id(data.upgrades@, xws@);
        }
        match data.get_upgrade(xws) {
            None => Err(ErrorKind::NotFound),
            Some(u) => {
                let kind = if u.sides.len() > 0 {
                    u.sides[0].kind.name().to_owned()
                } else {
                    "unknown".to_owned()
                };
                let slots = if u.sides.len() > 0 {
                    slots_text(&u.sides[0].slots)
                } else {
                    "unknown".to_owned()
                };
                Ok(
                    UpgradeRecord {
                        xws: u.xws.clone(),
                        kind,
                        slots,
                        name: u.name.clone(),
                        faction_restriction: format_restriction(
                            data,
                            &u.restrictions,
                            Restriction::Factions,
                        ),
                        size_restriction: format_restriction(
                            data,
                            &u.restrictions,
                            Restriction::Sizes,
                        ),
                        ship_restriction: format_restriction(
                            data,
                            &u.restrictions,
                            Restriction::Ships,
                        ),
                        arc_restriction: format_restriction(
                            data,
                            &u.restrictions,
                            Restriction::Arcs,
                        ),
                        keyword_restriction: format_restriction(
                            data,
                            &u.restrictions,
                            Restriction::Keywords,
                        ),
                        count,
                        force_side_restriction: format_restriction(
                            data,
                            &u.restrictions,
                            Restriction::ForceSide,
                        ),
                        sources: sources_of(catalog, ItemType::Upgrade, xws),
                    },
                )
            },
        }
    }
}

/// What a list of ship records holds, each by its view.
pub open spec fn ship_views(v: Seq<ShipRecord>) -> Seq<ShipRecordView> {
    v.map_values(|r: ShipRecord| r@)
}

/// What a list of pilot records holds, each by its view.
pub open spec fn pilot_views(v: Seq<PilotRecord>) -> Seq<PilotRecordView> {
    v.map_values(|r: PilotRecord| r@)
}

/// What a list of upgrade records holds, each by its view.
pub open spec fn upgrade_views(v: Seq<UpgradeRecord>) -> Seq<UpgradeRecordView> {
    v.map_values(|r: UpgradeRecord| r@)
}

/// What a list of components holds, each by its view.
pub open spec fn item_ids(v: Seq<Item>) -> Seq<ItemId> {
    v.map_values(|i: Item| i@)
}

/// The records of the ships among `entries` that the card data knows, in the
/// order of the entries.
pub open spec fn ship_records(entries: Seq<(ItemId, u32)>, data: Data, cat: Seq<ExpansionView>) -> Seq<
    ShipRecordView,
>
    decreases entries.len(),
{
    if entries.len() == 0 {
        Seq::empty()
    } else {
        let rest = ship_records(entries.drop_last(), data, cat);
        let e = entries.last();
        match first_ship(data.ships@, e.0.xws) {
            Some(s) => if e.0.kind == ItemType::Ship {
                rest.push(ship_record(s, e.1, cat))
            } else {
                rest
            },
            None => rest,
        }
    }
}

/// The records of the pilots among `entries` that the card data knows, in
/// the order of the entries.
pub open spec fn pilot_records(entries: Seq<(ItemId, u32)>, data: Data, cat: Seq<ExpansionView>) -> Seq<
    PilotRecordView,
>
    decreases entries.len(),
{
    if entries.len() == 0 {
        Seq::empty()
    } else {
        let rest = pilot_records(entries.drop_last(), data, cat);
        let e = entries.last();
        match first_pilot(data.ships@, e.0.xws) {
            Some((s, p)) => if e.0.kind == ItemType::Pilot {
                rest.push(pilot_record(s, p, data.factions@, e.1, cat))
            } else {
                rest
            },
            None => rest,
        }
    }
}

/// The records of the upgrades among `entries` that the card data knows, in
/// the order of the entries.
pub open spec fn upgrade_records(
    entries: Seq<(ItemId, u32)>,
    data: Data,
    cat: Seq<ExpansionView>,
) -> Seq<UpgradeRecordView>
    decreases entries.len(),
{
    if entries.len() == 0 {
        Seq::empty()
    } else {
        let rest = upgrade_records(entries.drop_last(), data, cat);
        let e = entries.last();
        match first_upgrade(data.upgrades@, e.0.xws) {
            Some(u) => if e.0.kind == ItemType::Upgrade {
                rest.push(upgrade_record(u, data, e.1, cat))
            } else {
                rest
            },
            None => rest,
        }
    }
}

/// Whether the card data has the card that `item` names. Obstacles and
/// damage cards are not looked up, so they are never missed.
pub open spec fn card_known(data: Data, item: ItemId) -> bool {
    match item.kind {
        ItemType::Ship => first_ship(data.ships@, item.xws) is Some,
        ItemType::Pilot => first_pilot(data.ships@, item.xws) is Some,
        ItemType::Upgrade => first_upgrade(data.upgrades@, item.xws) is Some,
        _ => true,
    }
}

/// The ships, pilots and upgrades among `entries` that the card data does
/// not know, in the order of the entries.
pub open spec fn cards_not_found(entries: Seq<(ItemId, u32)>, data: Data) -> Seq<ItemId>
    decreases entries.len(),
{
    if entries.len() == 0 {
        Seq::empty()
    } else {
        let rest = cards_not_found(entries.drop_last(), data);
        if card_known(data, entries.last().0) {
            rest
        } else {
            rest.push(entries.last().0)
        }
    }
}

/// The records of an inventory, by kind.
#[derive(Debug)]
pub struct Records {
    pub ships: Vec<ShipRecord>,
    pub pilots: Vec<PilotRecord>,
    pub upgrades: Vec<UpgradeRecord>,
}

impl Default for Records {
    /// No records.
    fn default() -> (r: Self)
        ensures
            r.ships@.len() == 0,
            r.pilots@.len() == 0,
            r.upgrades@.len() == 0,
    {
        Records { ships: Vec::new(), pilots: Vec::new(), upgrades: Vec::new() }
    }
}

impl Records {
    /// Builds the records of an inventory: one for each ship, pilot and
    /// upgrade that the card data knows, in the order of the inventory, each
    /// with its count. The components that the card data does not know are
    /// left out of the records and handed back as a list.
    pub fn build(inventory: &Inventory, data: &Data, catalog: &Catalog) -> (r: (Records, Vec<Item>))
        ensures
            ship_views(r.0.ships@) == ship_records(inventory.entries(), *data, catalog@),
            pilot_views(r.0.pilots@) == pilot_records(inventory.entries(), *data, catalog@),
            upgrade_views(r.0.upgrades@) == upgrade_records(inventory.entries(), *data, catalog@),
            item_ids(r.1@) == cards_not_found(inventory.entries(), *data),
    {
        let ghost entries = inventory.entries();
        let mut ships: Vec<ShipRecord> = Vec::new();
        let mut pilots: Vec<PilotRecord> = Vec::new();
        let mut upgrades: Vec<UpgradeRecord> = Vec::new();
        let mut missing: Vec<Item> = Vec::new();
        let count = inventory.len();
        let mut i: usize = 0;
        proof {
            assert(entries.take(0) =~= Seq::<(ItemId, u32)>::empty());
            assert(ship_views(ships@) =~= Seq::<ShipRecordView>::empty());
            assert(pilot_views(pilots@) =~= Seq::<PilotRecordView>::empty());
            assert(upgrade_views(upgrades@) =~= Seq::<UpgradeRecordView>::empty());
            assert(item_ids(missing@) =~= Seq::<ItemId>::empty());
        }
        while i < count
            invariant
                i <= count,
                count == entries.len(),
                entries == inventory.entries(),
                ship_views(ships@) == ship_records(entries.take(i as int), *data, catalog@),
                pilot_views(pilots@) == pilot_records(entries.take(i as int), *data, catalog@),
                upgrade_views(upgrades@) == upgrade_records(
                    entries.take(i as int),
                    *data,
                    catalog@,
                ),
                item_ids(missing@) == cards_not_found(entries.take(i as int), *data),
            decreases count - i,
        {
            let item = inventory.key(i);
            let n = inventory.count(i);
            let ghost held_ships = ship_views(ships@);
            let ghost held_pilots = pilot_views(pilots@);
            let ghost held_upgrades = upgrade_views(upgrades@);
            let ghost held_missing = item_ids(missing@);
            proof {
                assert(entries.take(i + 1).drop_last() =~= entries.take(i as int));
                assert(entries.take(i + 1).last() == (item@, n));
            }
            match item.kind {
                ItemType::Ship => {
                    match ShipRecord::build(item.xws.as_str(), n, data, catalog) {
                        Ok(record) => {
                            ships.push(record);
                            assert(ship_views(ships@) =~= held_ships.push(record@));
                        },
                        Err(_) => {
                            missing.push(item.duplicate());
                            assert(item_ids(missing@) =~= held_missing.push(item@));
                        },
                    }
                },
                ItemType::Pilot => {
                    match PilotRecord::build(item.xws.as_str(), n, data, catalog) {
                        Ok(record) => {
                            pilots.push(record);
                            assert(pilot_views(pilots@) =~= held_pilots.push(record@));
                        },
                        Err(_) => {
                            missing.push(item.duplicate());
                            assert(item_ids(missing@) =~= held_missing.push(item@));
                        },
                    }
                },
                ItemType::Upgrade => {
                    match UpgradeRecord::build(item.xws.as_str(), n, data, catalog) {
                        Ok(record) => {
                            upgrades.push(record);
                            assert(upgrade_views(upgrades@) =~= held_upgrades.push(record@));
                        },
                        Err(_) => {
                            missing.push(item.duplicate());
                            assert(item_ids(missing@) =~= held_missing.push(item@));
                        },
                    }
                },
                _ => {},
            }
            i += 1;
        }
        assert(entries.take(entries.len() as int) =~= entries);
        (Records { ships, pilots, upgrades }, missing)
    }
}

} // verus!
