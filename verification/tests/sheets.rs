use xwingtmg2_inventory_rs::expansions::{
    Catalog, Expansion, Inventory, Item, ItemCount, ItemType, SkuCounts,
};
use xwingtmg2_inventory_rs::sheets::{
    expansion_rows, pilot_rows, ship_rows, total_func, upgrade_rows, Cell,
};
use xwingtmg2_inventory_rs::xwingdata2::{
    Data, Faction, Pilot, Restrictions, Ship, Side, SlotKind, Upgrade,
};

fn item(kind: ItemType, xws: &str) -> Item {
    Item { kind, xws: xws.to_string() }
}

fn line(kind: ItemType, xws: &str, count: u32) -> ItemCount {
    ItemCount { item: item(kind, xws), count }
}

fn expansion(sku: &str, name: &str, wave: u32, contents: Vec<ItemCount>) -> Expansion {
    Expansion { sku: sku.to_string(), name: name.to_string(), wave, contents }
}

fn catalog() -> Catalog {
    Catalog::load(vec![
        expansion(
            "swz68",
            "Heralds of Hope",
            7,
            vec![
                line(ItemType::Ship, "t70xwing", 1),
                line(ItemType::Ship, "rz2awing", 2),
                line(ItemType::Pilot, "poedameron", 1),
                line(ItemType::Upgrade, "bb8", 12),
            ],
        ),
        expansion(
            "swz25",
            "T-70 X-Wing Expansion Pack",
            2,
            vec![
                line(ItemType::Ship, "t70xwing", 1),
                line(ItemType::Pilot, "poedameron", 1),
                line(ItemType::Upgrade, "blackone", 1),
                line(ItemType::Upgrade, "bb8", 1),
            ],
        ),
        expansion("swz19", "Servants of Strife", 2, vec![]),
        expansion("swz01", "Core Set", 1, vec![line(ItemType::Ship, "t65xwing", 1)]),
    ])
    .unwrap()
}

fn data() -> Data {
    Data {
        ships: vec![
            Ship {
                name: "T-70 X-wing".to_string(),
                xws: "t70xwing".to_string(),
                faction: "resistance".to_string(),
                size: "Small".to_string(),
                pilots: vec![Pilot {
                    name: "Poe Dameron".to_string(),
                    caption: Some("Trigger-Happy Flyboy".to_string()),
                    xws: "poedameron".to_string(),
                    initiative: 6,
                    standard_loadout: Some(vec!["bb8".to_string()]),
                }],
            },
            Ship {
                name: "RZ-2 A-wing".to_string(),
                xws: "rz2awing".to_string(),
                faction: "colossus".to_string(),
                size: "Small".to_string(),
                pilots: vec![Pilot {
                    name: "Tallissan Lintra".to_string(),
                    caption: None,
                    xws: "tallissanlintra".to_string(),
                    initiative: 5,
                    standard_loadout: Some(vec![]),
                }],
            },
        ],
        upgrades: vec![Upgrade {
            name: "BB-8".to_string(),
            xws: "bb8".to_string(),
            sides: vec![Side { kind: SlotKind::Astromech, slots: vec![SlotKind::Astromech] }],
            restrictions: vec![Restrictions {
                factions: vec!["resistance".to_string()],
                sizes: vec!["Small".to_string()],
                ships: vec!["t70xwing".to_string()],
                arcs: vec!["Front Arc".to_string()],
                keywords: vec!["X-wing".to_string()],
                force_side: vec!["light".to_string()],
                equipped: vec![],
                action: None,
            }],
        }],
        factions: vec![Faction { xws: "resistance".to_string(), name: "Resistance".to_string() }],
    }
}

fn inventory(entries: &[(ItemType, &str, u32)]) -> Inventory {
    let mut counts = Inventory::new();
    for (kind, xws, n) in entries {
        counts.insert(item(*kind, xws), *n);
    }
    counts
}

fn shown(row: &Vec<Cell>) -> Vec<String> {
    row.iter()
        .map(|c| match c {
            Cell::Text(s) => format!("text {}", s),
            Cell::Count(n) => format!("count {}", n),
            Cell::Formula(s) => format!("formula {}", s),
            Cell::Flag(b) => format!("flag {}", b),
        })
        .collect()
}

const LOOKUP: &str = ",ExpansionLookup[SKU],ExpansionLookup[Owned],0,0)";

#[test]
fn the_total_adds_each_source_to_the_singles() {
    let formula = total_func(&item(ItemType::Upgrade, "bb8"), "D7".to_string(), &catalog());
    assert_eq!(
        formula,
        format!("=D7+12*XLOOKUP(\"swz68\"{}+1*XLOOKUP(\"swz25\"{}", LOOKUP, LOOKUP)
    );
}

#[test]
fn the_total_of_a_component_without_sources_is_the_singles() {
    let formula = total_func(&item(ItemType::Ship, "ewing"), "C2".to_string(), &catalog());
    assert_eq!(formula, "=C2");
    assert_eq!(total_func(&item(ItemType::Ship, "ewing"), String::new(), &catalog()), "=");
}

#[test]
fn ship_rows_read_the_singles_from_their_own_row() {
    let owned = inventory(&[
        (ItemType::Ship, "t70xwing", 3),
        (ItemType::Ship, "rz2awing", 2),
        (ItemType::Ship, "ewing", 1),
        (ItemType::Pilot, "poedameron", 2),
    ]);
    let singles = inventory(&[(ItemType::Ship, "t70xwing", 1), (ItemType::Ship, "ewing", 1)]);
    let (rows, missing) = ship_rows(&owned, &singles, &data(), &catalog());
    assert_eq!(missing, vec!["ewing"]);
    assert_eq!(rows.len(), 2);
    assert_eq!(
        shown(&rows[0]),
        vec![
            "text RZ-2 A-wing".to_string(),
            format!("formula =C2+2*XLOOKUP(\"swz68\"{}", LOOKUP),
            "count 0".to_string(),
            "text Small".to_string(),
            "text colossus".to_string(),
            "text rz2awing".to_string(),
            "text Heralds of Hope:swz68:wave7:2".to_string(),
        ]
    );
    assert_eq!(
        shown(&rows[1]),
        vec![
            "text T-70 X-wing".to_string(),
            format!("formula =C3+1*XLOOKUP(\"swz68\"{}+1*XLOOKUP(\"swz25\"{}", LOOKUP, LOOKUP),
            "count 1".to_string(),
            "text Small".to_string(),
            "text resistance".to_string(),
            "text t70xwing".to_string(),
            "text Heralds of Hope:swz68:wave7:1,T-70 X-Wing Expansion Pack:swz25:wave2:1".to_string(),
        ]
    );
}

#[test]
fn pilot_rows_show_caption_faction_and_loadout() {
    let owned = inventory(&[
        (ItemType::Pilot, "tallissanlintra", 1),
        (ItemType::Pilot, "poedameron", 2),
        (ItemType::Pilot, "nobody", 2),
        (ItemType::Ship, "t70xwing", 3),
    ]);
    let singles = inventory(&[(ItemType::Pilot, "tallissanlintra", 1)]);
    let (rows, missing) = pilot_rows(&owned, &singles, &data(), &catalog());
    assert_eq!(missing, vec!["nobody"]);
    assert_eq!(rows.len(), 2);
    assert_eq!(
        shown(&rows[0]),
        vec![
            "text Poe Dameron".to_string(),
            "text T-70 X-wing".to_string(),
            "text Trigger-Happy Flyboy".to_string(),
            format!("formula =E2+1*XLOOKUP(\"swz68\"{}+1*XLOOKUP(\"swz25\"{}", LOOKUP, LOOKUP),
            "count 0".to_string(),
            "text Resistance".to_string(),
            "count 6".to_string(),
            "flag true".to_string(),
            "text poedameron".to_string(),
            "text Heralds of Hope:swz68:wave7:1,T-70 X-Wing Expansion Pack:swz25:wave2:1".to_string(),
        ]
    );
    assert_eq!(
        shown(&rows[1]),
        vec![
            "text Tallissan Lintra".to_string(),
            "text RZ-2 A-wing".to_string(),
            "text ".to_string(),
            "formula =E3".to_string(),
            "count 1".to_string(),
            "text colossus".to_string(),
            "count 5".to_string(),
            "flag false".to_string(),
            "text tallissanlintra".to_string(),
            "text ".to_string(),
        ]
    );
}

#[test]
fn upgrade_rows_show_the_restrictions() {
    let owned = inventory(&[(ItemType::Upgrade, "bb8", 13), (ItemType::Upgrade, "r5d8", 1)]);
    let singles = inventory(&[(ItemType::Upgrade, "bb8", 4)]);
    let (rows, missing) = upgrade_rows(&owned, &singles, &data(), &catalog());
    assert_eq!(missing, vec!["r5d8"]);
    assert_eq!(rows.len(), 1);
    assert_eq!(
        shown(&rows[0]),
        vec![
            "text BB-8".to_string(),
            "text Astromech".to_string(),
            format!("formula =D2+12*XLOOKUP(\"swz68\"{}+1*XLOOKUP(\"swz25\"{}", LOOKUP, LOOKUP),
            "count 4".to_string(),
            "text Resistance".to_string(),
            "text Astromech".to_string(),
            "text T-70 X-wing".to_string(),
            "text Small".to_string(),
            "text Front Arc".to_string(),
            "text light".to_string(),
            "text X-wing".to_string(),
            "text bb8".to_string(),
            "text Heralds of Hope:swz68:wave7:12,T-70 X-Wing Expansion Pack:swz25:wave2:1".to_string(),
        ]
    );
}

#[test]
fn an_inventory_without_ships_has_no_ship_rows() {
    let owned = inventory(&[(ItemType::Upgrade, "bb8", 13)]);
    let (rows, missing) = ship_rows(&owned, &Inventory::new(), &data(), &catalog());
    assert!(rows.is_empty());
    assert!(missing.is_empty());
}

#[test]
fn expansion_rows_come_by_wave_then_sku() {
    let mut skus = SkuCounts::new();
    skus.insert("swz25".to_string(), 2);
    skus.insert("swz99".to_string(), 5);
    let rows = expansion_rows(&catalog(), &skus, false);
    let shown_rows: Vec<Vec<String>> = rows.iter().map(shown).collect();
    assert_eq!(
        shown_rows,
        vec![
            vec!["count 0", "text Core Set", "count 1", "text swz01"],
            vec!["count 0", "text Servants of Strife", "count 2", "text swz19"],
            vec!["count 2", "text T-70 X-Wing Expansion Pack", "count 2", "text swz25"],
            vec!["count 0", "text Heralds of Hope", "count 7", "text swz68"],
        ]
    );
}

#[test]
fn only_owned_expansions_are_shown_when_asked() {
    let mut skus = SkuCounts::new();
    skus.insert("swz68".to_string(), 1);
    skus.insert("swz01".to_string(), 0);
    skus.insert("swz25".to_string(), 3);
    let rows = expansion_rows(&catalog(), &skus, true);
    let shown_rows: Vec<Vec<String>> = rows.iter().map(shown).collect();
    assert_eq!(
        shown_rows,
        vec![
            vec!["count 3", "text T-70 X-Wing Expansion Pack", "count 2", "text swz25"],
            vec!["count 1", "text Heralds of Hope", "count 7", "text swz68"],
        ]
    );
    assert!(expansion_rows(&catalog(), &SkuCounts::new(), true).is_empty());
}

#[test]
fn every_row_reads_the_singles_from_its_own_cell() {
    let names = [
        "a", "b", "c", "d", "e", "f", "g", "h", "i", "j", "k", "l", "m", "n", "o", "p", "q", "r",
        "s", "t", "u", "v", "w", "x", "y", "z",
    ];
    let mut d = data();
    let mut owned = Inventory::new();
    for name in names {
        d.ships.push(Ship {
            name: name.to_uppercase(),
            xws: name.to_string(),
            faction: "resistance".to_string(),
            size: "Small".to_string(),
            pilots: vec![Pilot {
                name: name.to_uppercase(),
                caption: None,
                xws: format!("{}pilot", name),
                initiative: 1,
                standard_loadout: None,
            }],
        });
        owned.insert(item(ItemType::Ship, name), 1);
        owned.insert(item(ItemType::Pilot, &format!("{}pilot", name)), 1);
    }
    let (ships, _) = ship_rows(&owned, &Inventory::new(), &d, &catalog());
    let (pilots, _) = pilot_rows(&owned, &Inventory::new(), &d, &catalog());
    assert_eq!(ships.len(), 26);
    assert_eq!(pilots.len(), 26);
    for k in 0..26 {
        assert_eq!(shown(&ships[k])[1], format!("formula =C{}", k + 2));
        assert_eq!(shown(&pilots[k])[3], format!("formula =E{}", k + 2));
    }
}
