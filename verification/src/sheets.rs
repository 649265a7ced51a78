//! The rows of the spreadsheet export: one sheet of the known expansions and
//! one each of the owned ships, pilots and upgrades.
//!
//! Every row of a component sheet holds a formula for the total owned. It adds
//! the singles, read from a cell of the same row, to the copies that each
//! source brings, read from the expansion sheet. This module works out what
//! every cell holds; writing the cells to a file is left to the caller.

use crate::expansions::{
    find_sku, listing, refs, sources_in, Catalog, ExpansionView, Inventory, Item, ItemId,
    ItemType, SkuCounts,
};
use crate::records::{
    faction_name, format_sources, lemma_first_upgrade_has_id, main_kind, main_slots, provenance,
    restriction_text, UpgradeRecord,
};
use crate::sorted::{listing_of, Counts, SortKey};
use crate::text::{
    decimal, lemma_text_order, push_decimal, same_text, text_before, text_precedes, texts,
};
use crate::xwingdata2::{
    first_pilot, first_ship, first_upgrade, Data, Pilot, Restriction, Ship, Upgrade,
};
use crate::held;
use vstd::prelude::*;

verus! {

/// What a [`Cell`] is in contracts.
pub enum CellView {
    Text(Seq<char>),
    Count(u32),
    Formula(Seq<char>),
    Flag(bool),
}

/// What one cell of a sheet holds.
#[derive(Debug)]
pub enum Cell {
    Text(String),
    Count(u32),
    Formula(String),
    Flag(bool),
}

impl View for Cell {
    type V = CellView;

    open spec fn view(&self) -> CellView {
        match self {
            Cell::Text(s) => CellView::Text(s@),
            Cell::Count(n) => CellView::Count(*n),
            Cell::Formula(s) => CellView::Formula(s@),
            Cell::Flag(b) => CellView::Flag(*b),
        }
    }
}

/// What a row of cells holds, each cell by its view.
pub open spec fn cells(row: Seq<Cell>) -> Seq<CellView> {
    Seq::new(row.len(), |i: int| row[i]@)
}

/// What the rows of a sheet hold.
pub open spec fn rows(sheet: Seq<Vec<Cell>>) -> Seq<Seq<CellView>> {
    Seq::new(sheet.len(), |i: int| cells(sheet[i]@))
}

/// The letters that name the column `n`, counted from one: `A` to `Z`, then
/// `AA` to `AZ`, `BA` and so on.
pub open spec fn column_letters(n: nat) -> Seq<char>
    decreases n,
{
    if n == 0 {
        Seq::empty()
    } else {
        column_letters(((n - 1) / 26) as nat).push(((65 + (n - 1) % 26) as u8) as char)
    }
}

/// The name of the cell at a row and a column, both counted from zero, in
/// the style `A1`: the letters of the column, then the number of the row
/// counted from one.
pub open spec fn cell_name(row: u32, col: u16) -> Seq<char> {
    column_letters((col + 1) as nat) + decimal((row + 1) as nat)
}

/// Calls `rust_xlsxwriter::utility::row_col_to_cell`. The contract claims
/// that the result is the name of the cell in the style `A1`, as
/// [`cell_name`] spells it out. The last row and the last column are left
/// out, because the writer adds one to each.
#[verifier::external_body]
fn cell_ref(row: u32, col: u16) -> (r: String)
    requires
        row < u32::MAX,
        col < u16::MAX,
    ensures
        r@ == cell_name(row, col),
{
    rust_xlsxwriter::utility::row_col_to_cell(row, col)
}

/// What one source adds to the total: its count per copy times the copies
/// owned of its expansion, which the expansion sheet gives by SKU.
pub open spec fn source_term(source: (Seq<char>, u32)) -> Seq<char> {
    "+"@ + decimal(source.1 as nat) + "*XLOOKUP(\""@ + source.0
        + "\",ExpansionLookup[SKU],ExpansionLookup[Owned],0,0)"@
}

/// What all the sources add to the total, source after source.
pub open spec fn source_terms(sources: Seq<(Seq<char>, u32)>) -> Seq<char>
    decreases sources.len(),
{
    if sources.len() == 0 {
        Seq::empty()
    } else {
        source_terms(sources.drop_last()) + source_term(sources.last())
    }
}

/// The formula for the total owned of a component: the singles, read from
/// the cell `cell`, plus what each source adds.
pub open spec fn total_formula(cell: Seq<char>, sources: Seq<(Seq<char>, u32)>) -> Seq<char> {
    "="@ + cell + source_terms(sources)
}

/// Writes the formula for the total owned of `item`, with the singles read
/// from the cell `singles_cell`.
pub fn total_func(item: &Item, singles_cell: String, catalog: &Catalog) -> (r: String)
    ensures
        r@ == total_formula(singles_cell@, sources_in(catalog@, item@)),
{
    let mut func = "=".to_owned();
    func.append(singles_cell.as_str());
    match catalog.sources_of(item) {
        Some(sources) => {
            let ghost all = refs(sources@);
            let ghost start = func@;
            let mut i: usize = 0;
            assert(all.take(0) =~= Seq::<(Seq<char>, u32)>::empty());
            assert(func@ =~= start + source_terms(all.take(0)));
            while i < sources.len()
                invariant
                    i <= sources.len(),
                    all == refs(sources@),
                    func@ == start + source_terms(all.take(i as int)),
                decreases sources.len() - i,
            {
                let source = &sources[i];
                let ghost held = func@;
                assert(all.take(i + 1).drop_last() =~= all.take(i as int));
                assert(all.take(i + 1).last() == source@);
                func.append("+");
                push_decimal(&mut func, source.per_copy_count);
                func.append("*XLOOKUP(\"");
                func.append(source.sku.as_str());
                func.append("\",ExpansionLookup[SKU],ExpansionLookup[Owned],0,0)");
                assert(func@ =~= held + source_term(source@));
                assert(func@ =~= start + source_terms(all.take(i + 1)));
                i += 1;
            }
            assert(all.take(all.len() as int) =~= all);
        },
        None => {
            assert(func@ =~= total_formula(singles_cell@, sources_in(catalog@, item@)));
        },
    }
    func
}

/// The sources of a component as a sheet shows them: written out, or empty
/// where there are none.
pub open spec fn sources_cell(cat: Seq<ExpansionView>, item: ItemId) -> Seq<char> {
    match provenance(cat, item) {
        Some(text) => text,
        None => Seq::empty(),
    }
}

/// Writes the sources of a component as a sheet shows them.
fn sources_cell_of(catalog: &Catalog, item: &Item) -> (r: String)
    ensures
        r@ == sources_cell(catalog@, item@),
{
    match catalog.sources_of(item) {
        Some(sources) => format_sources(catalog, sources),
        None => String::new(),
    }
}

/// The count of a single, zero where there is none.
fn singles_of(singles: &Inventory, item: &Item) -> (r: u32)
    ensures
        r == held(singles@, item@),
{
    match singles.get(item) {
        Some(n) => n,
        None => 0,
    }
}

/// The column of the ship sheet that holds the singles.
pub const SHIP_SINGLES_COLUMN: u16 = 2;

/// The column of the pilot sheet that holds the singles.
pub const PILOT_SINGLES_COLUMN: u16 = 4;

/// The column of the upgrade sheet that holds the singles.
pub const UPGRADE_SINGLES_COLUMN: u16 = 3;

/// The row of the ship sheet for the ship `s`, owned as `item`, at sheet row
/// `row`: name, total, singles, size, faction, xws id and sources.
pub open spec fn ship_row(
    s: Ship,
    item: ItemId,
    row: u32,
    singles: Map<ItemId, u32>,
    cat: Seq<ExpansionView>,
) -> Seq<CellView> {
    seq![
        CellView::Text(s.name@),
        CellView::Formula(
            total_formula(cell_name(row, SHIP_SINGLES_COLUMN), sources_in(cat, item)),
        ),
        CellView::Count(held(singles, item) as u32),
        CellView::Text(s.size@),
        CellView::Text(s.faction@),
        CellView::Text(item.xws),
        CellView::Text(sources_cell(cat, item)),
    ]
}

/// The rows of the ship sheet: one for each ship among `entries` that the
/// card data knows, in the order of the entries. The rows lie one below the
/// other from sheet row 1 on, under the header.
pub open spec fn ship_sheet(
    entries: Seq<(ItemId, u32)>,
    singles: Map<ItemId, u32>,
    data: Data,
    cat: Seq<ExpansionView>,
) -> Seq<Seq<CellView>>
    decreases entries.len(),
{
    if entries.len() == 0 {
        Seq::empty()
    } else {
        let rest = ship_sheet(entries.drop_last(), singles, data, cat);
        let item = entries.last().0;
        match first_ship(data.ships@, item.xws) {
            Some(s) => if item.kind == ItemType::Ship {
                rest.push(ship_row(s, item, (rest.len() + 1) as u32, singles, cat))
            } else {
                rest
            },
            None => rest,
        }
    }
}

/// The caption of a pilot as a sheet shows it: empty where the pilot has
/// none.
pub open spec fn caption_cell(p: Pilot) -> Seq<char> {
    match p.caption {
        Some(c) => c@,
        None => Seq::empty(),
    }
}

/// Whether a pilot comes with a loadout of its own.
pub open spec fn has_loadout(p: Pilot) -> bool {
    match p.standard_loadout {
        Some(l) => l@.len() > 0,
        None => false,
    }
}

/// The row of the pilot sheet for the pilot `p` of the ship `s`, owned as
/// `item`, at sheet row `row`: name, ship, caption, total, singles, faction,
/// initiative, whether the pilot has a loadout of its own, xws id and
/// sources.
pub open spec fn pilot_row(
    s: Ship,
    p: Pilot,
    item: ItemId,
    row: u32,
    singles: Map<ItemId, u32>,
    data: Data,
    cat: Seq<ExpansionView>,
) -> Seq<CellView> {
    seq![
        CellView::Text(p.name@),
        CellView::Text(s.name@),
        CellView::Text(caption_cell(p)),
        CellView::Formula(
            total_formula(cell_name(row, PILOT_SINGLES_COLUMN), sources_in(cat, item)),
        ),
        CellView::Count(held(singles, item) as u32),
        CellView::Text(faction_name(data.factions@, s.faction@)),
        CellView::Count(p.initiative),
        CellView::Flag(has_loadout(p)),
        CellView::Text(p.xws@),
        CellView::Text(sources_cell(cat, item)),
    ]
}

/// The rows of the pilot sheet: one for each pilot among `entries` that the
/// card data knows, in the order of the entries, from sheet row 1 on.
pub open spec fn pilot_sheet(
    entries: Seq<(ItemId, u32)>,
    singles: Map<ItemId, u32>,
    data: Data,
    cat: Seq<ExpansionView>,
) -> Seq<Seq<CellView>>
    decreases entries.len(),
{
    if entries.len() == 0 {
        Seq::empty()
    } else {
        let rest = pilot_sheet(entries.drop_last(), singles, data, cat);
        let item = entries.last().0;
        match first_pilot(data.ships@, item.xws) {
            Some((s, p)) => if item.kind == ItemType::Pilot {
                rest.push(pilot_row(s, p, item, (rest.len() + 1) as u32, singles, data, cat))
            } else {
                rest
            },
            None => rest,
        }
    }
}

/// The row of the upgrade sheet for the upgrade `u`, owned as `item`, at
/// sheet row `row`: name, kind, total, singles, the restrictions by faction,
/// the slots, the restrictions by ship, size, arc, side of the Force and
/// keyword, xws id and sources.
pub open spec fn upgrade_row(
    u: Upgrade,
    item: ItemId,
    row: u32,
    singles: Map<ItemId, u32>,
    data: Data,
    cat: Seq<ExpansionView>,
) -> Seq<CellView> {
    seq![
        CellView::Text(u.name@),
        CellView::Text(main_kind(u.sides@)),
        CellView::Formula(
            total_formula(cell_name(row, UPGRADE_SINGLES_COLUMN), sources_in(cat, item)),
        ),
        CellView::Count(held(singles, item) as u32),
        CellView::Text(restriction_text(data, u.restrictions@, Restriction::Factions)),
        CellView::Text(main_slots(u.sides@)),
        CellView::Text(restriction_text(data, u.restrictions@, Restriction::Ships)),
        CellView::Text(restriction_text(data, u.restrictions@, Restriction::Sizes)),
        CellView::Text(restriction_text(data, u.restrictions@, Restriction::Arcs)),
        CellView::Text(restriction_text(data, u.restrictions@, Restriction::ForceSide)),
        CellView::Text(restriction_text(data, u.restrictions@, Restriction::Keywords)),
        CellView::Text(u.xws@),
        CellView::Text(sources_cell(cat, item)),
    ]
}

/// The rows of the upgrade sheet: one for each upgrade among `entries` that
/// the card data knows, in the order of the entries, from sheet row 1 on.
pub open spec fn upgrade_sheet(
    entries: Seq<(ItemId, u32)>,
    singles: Map<ItemId, u32>,
    data: Data,
    cat: Seq<ExpansionView>,
) -> Seq<Seq<CellView>>
    decreases entries.len(),
{
    if entries.len() == 0 {
        Seq::empty()
    } else {
        let rest = upgrade_sheet(entries.drop_last(), singles, data, cat);
        let item = entries.last().0;
        match first_upgrade(data.upgrades@, item.xws) {
            Some(u) => if item.kind == ItemType::Upgrade {
                rest.push(upgrade_row(u, item, (rest.len() + 1) as u32, singles, data, cat))
            } else {
                rest
            },
            None => rest,
        }
    }
}

/// Whether the card data has the card of the given kind that `item` names;
/// a component of another kind counts as known.
pub open spec fn known_as(data: Data, item: ItemId, kind: ItemType) -> bool {
    item.kind != kind || match kind {
        ItemType::Ship => first_ship(data.ships@, item.xws) is Some,
        ItemType::Pilot => first_pilot(data.ships@, item.xws) is Some,
        ItemType::Upgrade => first_upgrade(data.upgrades@, item.xws) is Some,
        _ => true,
    }
}

/// The xws ids of the components of one kind among `entries` that the card
/// data does not know, in the order of the entries.
pub open spec fn left_out(entries: Seq<(ItemId, u32)>, data: Data, kind: ItemType) -> Seq<
    Seq<char>,
>
    decreases entries.len(),
{
    if entries.len() == 0 {
        Seq::empty()
    } else {
        let rest = left_out(entries.drop_last(), data, kind);
        if known_as(data, entries.last().0, kind) {
            rest
        } else {
            rest.push(entries.last().0.xws)
        }
    }
}

/// Works out the rows of the ship sheet for an inventory, with the counts of
/// the singles taken from `singles`, and lists the xws ids of the ships that
/// the card data does not know; those get no row.
pub fn ship_rows(inventory: &Inventory, singles: &Inventory, data: &Data, catalog: &Catalog) -> (r: (
    Vec<Vec<Cell>>,
    Vec<String>,
))
    requires
        inventory.entries().len() < u32::MAX,
    ensures
        rows(r.0@) == ship_sheet(inventory.entries(), singles@, *data, catalog@),
        texts(r.1@) == left_out(inventory.entries(), *data, ItemType::Ship),
{
    let ghost entries = inventory.entries();
    let mut sheet: Vec<Vec<Cell>> = Vec::new();
    let mut missing: Vec<String> = Vec::new();
    let count = inventory.len();
    let mut row: u32 = 1;
    let mut i: usize = 0;
    proof {
        assert(entries.take(0) =~= Seq::<(ItemId, u32)>::empty());
        assert(rows(sheet@) =~= Seq::<Seq<CellView>>::empty());
        assert(texts(missing@) =~= Seq::<Seq<char>>::empty());
    }
    while i < count
        invariant
            i <= count,
            count == entries.len(),
            count < u32::MAX,
            entries == inventory.entries(),
            row == sheet@.len() + 1,
            sheet@.len() <= i,
            rows(sheet@) == ship_sheet(entries.take(i as int), singles@, *data, catalog@),
            texts(missing@) == left_out(entries.take(i as int), *data, ItemType::Ship),
        decreases count - i,
    {
        let item = inventory.key(i);
        let ghost held_rows = rows(sheet@);
        let ghost held_missing = texts(missing@);
        proof {
            assert(entries.take(i + 1).drop_last() =~= entries.take(i as int));
            assert(entries.take(i + 1).last().0 == item@);
        }
        if item.kind == ItemType::Ship {
            match data.get_ship(item.xws.as_str()) {
                Some(s) => {
                    let mut cells_of_row: Vec<Cell> = Vec::new();
                    cells_of_row.push(Cell::Text(s.name.clone()));
                    cells_of_row.push(
                        Cell::Formula(
                            total_func(item, cell_ref(row, SHIP_SINGLES_COLUMN), catalog),
                        ),
                    );
                    cells_of_row.push(Cell::Count(singles_of(singles, item)));
                    cells_of_row.push(Cell::Text(s.size.clone()));
                    cells_of_row.push(Cell::Text(s.faction.clone()));
                    cells_of_row.push(Cell::Text(item.xws.clone()));
                    cells_of_row.push(Cell::Text(sources_cell_of(catalog, item)));
                    assert(cells(cells_of_row@) =~= ship_row(*s, item@, row, singles@, catalog@));
                    sheet.push(cells_of_row);
                    assert(rows(sheet@) =~= held_rows.push(
                        ship_row(*s, item@, row, singles@, catalog@),
                    ));
                    row += 1;
                },
                None => {
                    missing.push(item.xws.clone());
                    assert(texts(missing@) =~= held_missing.push(item@.xws));
                },
            }
        }
        i += 1;
    }
    assert(entries.take(entries.len() as int) =~= entries);
    (sheet, missing)
}

/// Works out the rows of the pilot sheet for an inventory, with the counts
/// of the singles taken from `singles`, and lists the xws ids of the pilots
/// that the card data does not know; those get no row.
pub fn pilot_rows(inventory: &Inventory, singles: &Inventory, data: &Data, catalog: &Catalog) -> (r:
    (Vec<Vec<Cell>>, Vec<String>))
    requires
        inventory.entries().len() < u32::MAX,
    ensures
        rows(r.0@) == pilot_sheet(inventory.entries(), singles@, *data, catalog@),
        texts(r.1@) == left_out(inventory.entries(), *data, ItemType::Pilot),
{
    let ghost entries = inventory.entries();
    let mut sheet: Vec<Vec<Cell>> = Vec::new();
    let mut missing: Vec<String> = Vec::new();
    let count = inventory.len();
    let mut row: u32 = 1;
    let mut i: usize = 0;
    proof {
        assert(entries.take(0) =~= Seq::<(ItemId, u32)>::empty());
        assert(rows(sheet@) =~= Seq::<Seq<CellView>>::empty());
        assert(texts(missing@) =~= Seq::<Seq<char>>::empty());
    }
    while i < count
        invariant
            i <= count,
            count == entries.len(),
            count < u32::MAX,
            entries == inventory.entries(),
            row == sheet@.len() + 1,
            sheet@.len() <= i,
            rows(sheet@) == pilot_sheet(entries.take(i as int), singles@, *data, catalog@),
            texts(missing@) == left_out(entries.take(i as int), *data, ItemType::Pilot),
        decreases count - i,
    {
        let item = inventory.key(i);
        let ghost held_rows = rows(sheet@);
        let ghost held_missing = texts(missing@);
        proof {
            assert(entries.take(i + 1).drop_last() =~= entries.take(i as int));
            assert(entries.take(i + 1).last().0 == item@);
        }
        if item.kind == ItemType::Pilot {
            match data.get_pilot(item.xws.as_str()) {
                Some((s, p)) => {
                    let caption = match &p.caption {
                        Some(c) => c.clone(),
                        None => String::new(),
                    };
                    let loadout = match &p.standard_loadout {
                        Some(l) => l.len() > 0,
                        None => false,
                    };
                    let faction = match data.get_faction(s.faction.as_str()) {
                        Some(f) => f.name.clone(),
                        None => s.faction.clone(),
                    };
                    let mut cells_of_row: Vec<Cell> = Vec::new();
                    cells_of_row.push(Cell::Text(p.name.clone()));
                    cells_of_row.push(Cell::Text(s.name.clone()));
                    cells_of_row.push(Cell::Text(caption));
                    cells_of_row.push(
                        Cell::Formula(
                            total_func(item, cell_ref(row, PILOT_SINGLES_COLUMN), catalog),
                        ),
                    );
                    cells_of_row.push(Cell::Count(singles_of(singles, item)));
                    cells_of_row.push(Cell::Text(faction));
                    cells_of_row.push(Cell::Count(p.initiative));
                    cells_of_row.push(Cell::Flag(loadout));
                    cells_of_row.push(Cell::Text(p.xws.clone()));
                    cells_of_row.push(Cell::Text(sources_cell_of(catalog, item)));
                    assert(cells(cells_of_row@) =~= pilot_row(
                        *s,
                        *p,
                        item@,
                        row,
                        singles@,
                        *data,
                        catalog@,
                    ));
                    sheet.push(cells_of_row);
                    assert(rows(sheet@) =~= held_rows.push(
                        pilot_row(*s, *p, item@, row, singles@, *data, catalog@),
                    ));
                    row += 1;
                },
                None => {
                    missing.push(item.xws.clone());
                    assert(texts(missing@) =~= held_missing.push(item@.xws));
                },
            }
        }
        i += 1;
    }
    assert(entries.take(entries.len() as int) =~= entries);
    (sheet, missing)
}

/// Works out the rows of the upgrade sheet for an inventory, with the counts
/// of the singles taken from `singles`, and lists the xws ids of the upgrades
/// that the card data does not know; those get no row.
pub fn upgrade_rows(inventory: &Inventory, singles: &Inventory, data: &Data, catalog: &Catalog) -> (r:
    (Vec<Vec<Cell>>, Vec<String>))
    requires
        inventory.entries().len() < u32::MAX,
    ensures
        rows(r.0@) == upgrade_sheet(inventory.entries(), singles@, *data, catalog@),
        texts(r.1@) == left_out(inventory.entries(), *data, ItemType::Upgrade),
{
    let ghost entries = inventory.entries();
    let mut sheet: Vec<Vec<Cell>> = Vec::new();
    let mut missing: Vec<String> = Vec::new();
    let count = inventory.len();
    let mut row: u32 = 1;
    let mut i: usize = 0;
    proof {
        assert(entries.take(0) =~= Seq::<(ItemId, u32)>::empty());
        assert(rows(sheet@) =~= Seq::<Seq<CellView>>::empty());
        assert(texts(missing@) =~= Seq::<Seq<char>>::empty());
    }
    while i < count
        invariant
            i <= count,
            count == entries.len(),
            count < u32::MAX,
            entries == inventory.entries(),
            row == sheet@.len() + 1,
            sheet@.len() <= i,
            rows(sheet@) == upgrade_sheet(entries.take(i as int), singles@, *data, catalog@),
            texts(missing@) == left_out(entries.take(i as int), *data, ItemType::Upgrade),
        decreases count - i,
    {
        let item = inventory.key(i);
        let ghost held_rows = rows(sheet@);
        let ghost held_missing = texts(missing@);
        proof {
            assert(entries.take(i + 1).drop_last() =~= entries.take(i as int));
            assert(entries.take(i + 1).last().0 == item@);
            lemma_first_upgrade_has_id(data.upgrades@, item@.xws);
        }
        if item.kind == ItemType::Upgrade {
            match UpgradeRecord::build(item.xws.as_str(), 1, data, catalog) {
                Ok(record) => {
                    let ghost u = first_upgrade(data.upgrades@, item@.xws).unwrap();
                    let mut cells_of_row: Vec<Cell> = Vec::new();
                    cells_of_row.push(Cell::Text(record.name));
                    cells_of_row.push(Cell::Text(record.kind));
                    cells_of_row.push(
                        Cell::Formula(
                            total_func(item, cell_ref(row, UPGRADE_SINGLES_COLUMN), catalog),
                        ),
                    );
                    cells_of_row.push(Cell::Count(singles_of(singles, item)));
                    cells_of_row.push(Cell::Text(record.faction_restriction));
                    cells_of_row.push(Cell::Text(record.slots));
                    cells_of_row.push(Cell::Text(record.ship_restriction));
                    cells_of_row.push(Cell::Text(record.size_restriction));
                    cells_of_row.push(Cell::Text(record.arc_restriction));
                    cells_of_row.push(Cell::Text(record.force_side_restriction));
                    cells_of_row.push(Cell::Text(record.keyword_restriction));
                    cells_of_row.push(Cell::Text(record.xws));
                    cells_of_row.push(Cell::Text(sources_cell_of(catalog, item)));
                    assert(cells(cells_of_row@) =~= upgrade_row(
                        u,
                        item@,
                        row,
                        singles@,
                        *data,
                        catalog@,
                    ));
                    sheet.push(cells_of_row);
                    assert(rows(sheet@) =~= held_rows.push(
                        upgrade_row(u, item@, row, singles@, *data, catalog@),
                    ));
                    row += 1;
                },
                Err(_) => {
                    missing.push(item.xws.clone());
                    assert(texts(missing@) =~= held_missing.push(item@.xws));
                },
            }
        }
        i += 1;
    }
    assert(entries.take(entries.len() as int) =~= entries);
    (sheet, missing)
}

/// What a [`WaveSku`] is in contracts.
pub struct WaveSkuView {
    pub wave: u32,
    pub sku: Seq<char>,
}

/// The place of an expansion on the expansion sheet: its wave, then its SKU.
#[derive(Debug)]
pub struct WaveSku {
    pub wave: u32,
    pub sku: String,
}

impl View for WaveSku {
    type V = WaveSkuView;

    open spec fn view(&self) -> WaveSkuView {
        WaveSkuView { wave: self.wave, sku: self.sku@ }
    }
}

impl SortKey for WaveSku {
    /// Earlier waves first; within a wave, by SKU.
    open spec fn before(a: WaveSkuView, b: WaveSkuView) -> bool {
        a.wave < b.wave || (a.wave == b.wave && text_before(a.sku, b.sku))
    }

    proof fn lemma_order(a: WaveSkuView, b: WaveSkuView, c: WaveSkuView) {
        lemma_text_order(a.sku, b.sku, c.sku);
    }

    fn precedes(&self, other: &Self) -> (r: bool) {
        self.wave < other.wave || (self.wave == other.wave && text_precedes(
            self.sku.as_str(),
            other.sku.as_str(),
        ))
    }

    fn same(&self, other: &Self) -> (r: bool) {
        self.wave == other.wave && same_text(self.sku.as_str(), other.sku.as_str())
    }

    fn duplicate(&self) -> (r: Self) {
        WaveSku { wave: self.wave, sku: self.sku.clone() }
    }
}

/// The copies owned of a SKU; zero where none are.
pub open spec fn owned_copies(skus: Map<Seq<char>, u32>, sku: Seq<char>) -> u32 {
    if skus.contains_key(sku) {
        skus[sku]
    } else {
        0
    }
}

/// Whether an expansion gets a row: always, unless only owned expansions are
/// asked for and no copy of it is owned.
pub open spec fn shown(e: ExpansionView, skus: Map<Seq<char>, u32>, only_owned: bool) -> bool {
    !(only_owned && owned_copies(skus, e.sku) == 0)
}

/// Whether some expansion of `cat` that gets a row has the wave and the SKU
/// of `place`.
pub open spec fn placed(
    cat: Seq<ExpansionView>,
    skus: Map<Seq<char>, u32>,
    only_owned: bool,
    place: WaveSkuView,
) -> bool {
    exists|i: int|
        0 <= i < cat.len() && (#[trigger] cat[i]).wave == place.wave && cat[i].sku == place.sku
            && shown(cat[i], skus, only_owned)
}

/// The copies owned of every expansion that gets a row, by wave and SKU.
pub open spec fn by_wave(cat: Seq<ExpansionView>, skus: Map<Seq<char>, u32>, only_owned: bool) -> Map<
    WaveSkuView,
    u32,
> {
    Map::new(
        |place: WaveSkuView| placed(cat, skus, only_owned, place),
        |place: WaveSkuView| owned_copies(skus, place.sku),
    )
}

/// The display name of an expansion; empty for a SKU that the catalog does
/// not know.
pub open spec fn expansion_name(cat: Seq<ExpansionView>, sku: Seq<char>) -> Seq<char> {
    match find_sku(cat, sku) {
        Some(e) => e.name,
        None => Seq::empty(),
    }
}

/// The row of the expansion sheet for one expansion: the copies owned, the
/// name, the wave and the SKU.
pub open spec fn expansion_row(place: WaveSkuView, owned: u32, cat: Seq<ExpansionView>) -> Seq<
    CellView,
> {
    seq![
        CellView::Count(owned),
        CellView::Text(expansion_name(cat, place.sku)),
        CellView::Count(place.wave),
        CellView::Text(place.sku),
    ]
}

/// The rows for a list of places with the copies owned of each.
pub open spec fn expansion_rows_of(order: Seq<(WaveSkuView, u32)>, cat: Seq<ExpansionView>) -> Seq<
    Seq<CellView>,
> {
    Seq::new(order.len(), |i: int| expansion_row(order[i].0, order[i].1, cat))
}

/// The rows of the expansion sheet: one for each expansion that gets a row,
/// by wave and within a wave by SKU.
pub open spec fn expansion_sheet(
    cat: Seq<ExpansionView>,
    skus: Map<Seq<char>, u32>,
    only_owned: bool,
) -> Seq<Seq<CellView>> {
    expansion_rows_of(listing_of::<WaveSku>(by_wave(cat, skus, only_owned)), cat)
}

/// Works out the rows of the expansion sheet: the known expansions with the
/// copies owned of each, by wave and within a wave by SKU. With `only_owned`
/// the expansions of which no copy is owned get no row.
pub fn expansion_rows(catalog: &Catalog, skus: &SkuCounts, only_owned: bool) -> (r: Vec<Vec<Cell>>)
    ensures
        rows(r@) == expansion_sheet(catalog@, skus@, only_owned),
{
    let expansions = catalog.expansions();
    let ghost cat = catalog@;
    let mut order: Counts<WaveSku> = Counts::new();
    let mut i: usize = 0;
    assert(order@ =~= by_wave(cat.take(0), skus@, only_owned));
    while i < expansions.len()
        invariant
            i <= expansions.len(),
            cat == catalog@,
            cat == listing(expansions@),
            order@ == by_wave(cat.take(i as int), skus@, only_owned),
        decreases expansions.len() - i,
    {
        let expansion = &expansions[i];
        let owned = match skus.get(&expansion.sku) {
            Some(n) => n,
            None => 0,
        };
        let ghost before = order@;
        let ghost done = cat.take(i as int);
        let ghost next = cat.take(i + 1);
        let ghost place = WaveSkuView { wave: expansion.wave, sku: expansion.sku@ };
        assert(owned == owned_copies(skus@, expansion.sku@));
        assert(next[i as int] == cat[i as int]);
        if !(owned == 0 && only_owned) {
            order.insert(WaveSku { wave: expansion.wave, sku: expansion.sku.clone() }, owned);
        }
        proof {
            assert forall|p: WaveSkuView|
                placed(next, skus@, only_owned, p) <==> placed(done, skus@, only_owned, p) || (p
                    == place && shown(cat[i as int], skus@, only_owned)) by {
                if placed(next, skus@, only_owned, p) {
                    let w = choose|w: int|
                        0 <= w < next.len() && (#[trigger] next[w]).wave == p.wave && next[w].sku
                            == p.sku && shown(next[w], skus@, only_owned);
                    if w < i {
                        assert(done[w] == next[w]);
                    }
                }
                if placed(done, skus@, only_owned, p) {
                    let w = choose|w: int|
                        0 <= w < done.len() && (#[trigger] done[w]).wave == p.wave && done[w].sku
                            == p.sku && shown(done[w], skus@, only_owned);
                    assert(next[w] == done[w]);
                }
            }
            assert(order@ =~= by_wave(next, skus@, only_owned));
        }
        i += 1;
    }
    assert(cat.take(cat.len() as int) =~= cat);
    let count = order.len();
    proof {
        use_type_invariant(&order);
        order.lemma_entries_are_listing();
    }
    let ghost listed = order.entries();
    let mut sheet: Vec<Vec<Cell>> = Vec::new();
    let mut j: usize = 0;
    assert(rows(sheet@) =~= expansion_rows_of(listed, cat).take(0));
    while j < count
        invariant
            j <= count,
            count == listed.len(),
            listed == order.entries(),
            cat == catalog@,
            rows(sheet@) == expansion_rows_of(listed, cat).take(j as int),
        decreases count - j,
    {
        let place = order.key(j);
        let owned = order.count(j);
        let name = match catalog.lookup(place.sku.as_str()) {
            Some(e) => e.name.clone(),
            None => String::new(),
        };
        let ghost held_rows = rows(sheet@);
        let mut cells_of_row: Vec<Cell> = Vec::new();
        cells_of_row.push(Cell::Count(owned));
        cells_of_row.push(Cell::Text(name));
        cells_of_row.push(Cell::Count(place.wave));
        cells_of_row.push(Cell::Text(place.sku.clone()));
        assert(cells(cells_of_row@) =~= expansion_row(place@, owned, cat));
        sheet.push(cells_of_row);
        assert(rows(sheet@) =~= held_rows.push(expansion_row(place@, owned, cat)));
        assert(held_rows.push(expansion_row(place@, owned, cat)) =~= expansion_rows_of(
            listed,
            cat,
        ).take(j + 1));
        j += 1;
    }
    assert(expansion_rows_of(listed, cat).take(count as int) =~= expansion_rows_of(listed, cat));
    sheet
}

} // verus!
