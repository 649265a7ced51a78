use xwingtmg2_inventory_rs::expansions::{
    Catalog, Expansion, Inventory, Item, ItemCount, ItemType, SourceRef,
};
use xwingtmg2_inventory_rs::xwingdata2::{
    Data, Faction, Pilot, Restriction, Restrictions, Ship, Side, SlotKind, Upgrade,
};
use xwingtmg2_inventory_rs::{
    format_restriction, format_sources, ErrorKind, PilotRecord, Records, ShipRecord, UpgradeRecord,
};

fn item(kind: ItemType, xws: &str) -> Item {
    Item { kind, xws: xws.to_string() }
}

fn line(kind: ItemType, xws: &str, count: u32) -> ItemCount {
    ItemCount { item: item(kind, xws), count }
}

fn expansion(sku: &str, name: &str, wave: u32, contents: Vec<ItemCount>) -> Expansion {
    Expansion { sku: sku.to_string(), name: name.to_string(), wave, contents }
}

fn catalog() -> Catalog {
    Catalog::load(vec![
        expansion(
            "swz25",
            "T-70 X-Wing Expansion Pack",
            2,
            vec![
                line(ItemType::Ship, "t70xwing", 1),
                line(ItemType::Pilot, "poedameron", 1),
                line(ItemType::Upgrade, "blackone", 1),
                line(ItemType::Upgrade, "bb8", 1),
            ],
        ),
        expansion(
            "swz68",
            "Heralds of Hope",
            7,
            vec![
                line(ItemType::Ship, "t70xwing", 1),
                line(ItemType::Ship, "rz2awing", 2),
                line(ItemType::Pilot, "poedameron", 1),
                line(ItemType::Upgrade, "bb8", 12),
            ],
        ),
    ])
    .unwrap()
}

fn words(list: &[&str]) -> Vec<String> {
    list.iter().map(|s| s.to_string()).collect()
}

fn clause() -> Restrictions {
    Restrictions {
        factions: vec![],
        sizes: vec![],
        ships: vec![],
        arcs: vec![],
        keywords: vec![],
        force_side: vec![],
        equipped: vec![],
        action: None,
    }
}

fn pilot(name: &str, xws: &str, initiative: u32) -> Pilot {
    Pilot {
        name: name.to_string(),
        caption: None,
        xws: xws.to_string(),
        initiative,
        standard_loadout: None,
    }
}

fn data() -> Data {
    Data {
        ships: vec![
            Ship {
                name: "T-70 X-wing".to_string(),
                xws: "t70xwing".to_string(),
                faction: "resistance".to_string(),
                size: "Small".to_string(),
                pilots: vec![pilot("Poe Dameron", "poedameron", 6)],
            },
            Ship {
                name: "Fireball".to_string(),
                xws: "fireball".to_string(),
                faction: "colossus".to_string(),
                size: "Small".to_string(),
                pilots: vec![pilot("Kazuda Xiono", "kazudaxiono", 4)],
            },
        ],
        upgrades: vec![
            Upgrade {
                name: "BB-8".to_string(),
                xws: "bb8".to_string(),
                sides: vec![Side { kind: SlotKind::Astromech, slots: vec![SlotKind::Astromech] }],
                restrictions: vec![Restrictions { factions: words(&["resistance"]), ..clause() }],
            },
            Upgrade {
                name: "Black One".to_string(),
                xws: "blackone".to_string(),
                sides: vec![Side {
                    kind: SlotKind::Title,
                    slots: vec![SlotKind::Title, SlotKind::Modification, SlotKind::ForcePower],
                }],
                restrictions: vec![
                    Restrictions { ships: words(&["t70xwing", "t65xwing"]), ..clause() },
                    Restrictions { factions: words(&["resistance", "firstorder"]), ..clause() },
                    clause(),
                    Restrictions {
                        ships: words(&["fireball"]),
                        sizes: words(&["Small", "Medium"]),
                        arcs: words(&["Front Arc"]),
                        keywords: words(&["X-wing"]),
                        force_side: words(&["light"]),
                        ..clause()
                    },
                ],
            },
            Upgrade {
                name: "Blank".to_string(),
                xws: "blank".to_string(),
                sides: vec![],
                restrictions: vec![],
            },
        ],
        factions: vec![Faction { xws: "resistance".to_string(), name: "Resistance".to_string() }],
    }
}

#[test]
fn one_source_is_written_with_name_sku_wave_and_count() {
    let sources = vec![SourceRef { sku: "swz25".to_string(), per_copy_count: 1 }];
    assert_eq!(format_sources(&catalog(), &sources), "T-70 X-Wing Expansion Pack:swz25:wave2:1");
}

#[test]
fn sources_are_joined_by_commas() {
    let sources = vec![
        SourceRef { sku: "swz25".to_string(), per_copy_count: 1 },
        SourceRef { sku: "swz68".to_string(), per_copy_count: 12 },
    ];
    assert_eq!(
        format_sources(&catalog(), &sources),
        "T-70 X-Wing Expansion Pack:swz25:wave2:1,Heralds of Hope:swz68:wave7:12"
    );
    assert_eq!(format_sources(&catalog(), &vec![]), "");
}

#[test]
fn a_source_that_the_catalog_does_not_know_is_written_as_unknown() {
    let sources = vec![SourceRef { sku: "swz00".to_string(), per_copy_count: 3 }];
    assert_eq!(format_sources(&catalog(), &sources), "unknown:swz00:wave99:3");
}

#[test]
fn a_ship_record_shows_the_card_and_the_sources() {
    let record = ShipRecord::build("t70xwing", 3, &data(), &catalog()).unwrap();
    assert_eq!(record.name, "T-70 X-wing");
    assert_eq!(record.xws, "t70xwing");
    assert_eq!(record.factions, "resistance");
    assert_eq!(record.count, 3);
    assert_eq!(
        record.sources.as_deref(),
        Some("T-70 X-Wing Expansion Pack:swz25:wave2:1,Heralds of Hope:swz68:wave7:1")
    );
}

#[test]
fn a_record_of_a_component_that_nothing_holds_has_no_sources() {
    let record = ShipRecord::build("fireball", 1, &data(), &catalog()).unwrap();
    assert_eq!(record.name, "Fireball");
    assert_eq!(record.sources, None);
    let record = PilotRecord::build("kazudaxiono", 1, &data(), &catalog()).unwrap();
    assert_eq!(record.sources, None);
    let record = UpgradeRecord::build("blank", 1, &data(), &catalog()).unwrap();
    assert_eq!(record.sources, None);
}

#[test]
fn a_card_that_the_data_does_not_know_is_not_found() {
    assert_eq!(ShipRecord::build("rz2awing", 2, &data(), &catalog()).err(), Some(ErrorKind::NotFound));
    assert_eq!(PilotRecord::build("t70xwing", 2, &data(), &catalog()).err(), Some(ErrorKind::NotFound));
    assert_eq!(UpgradeRecord::build("r2d2", 2, &data(), &catalog()).err(), Some(ErrorKind::NotFound));
}

#[test]
fn a_pilot_record_shows_the_ship_and_the_name_of_the_faction() {
    let record = PilotRecord::build("poedameron", 2, &data(), &catalog()).unwrap();
    assert_eq!(record.faction, "Resistance");
    assert_eq!(record.ship, "T-70 X-wing");
    assert_eq!(record.xws, "poedameron");
    assert_eq!(record.name, "Poe Dameron");
    assert_eq!(record.initiative, 6);
    assert_eq!(record.count, 2);
    assert_eq!(
        record.sources.as_deref(),
        Some("T-70 X-Wing Expansion Pack:swz25:wave2:1,Heralds of Hope:swz68:wave7:1")
    );
}

#[test]
fn a_faction_without_a_name_is_shown_by_its_id() {
    let record = PilotRecord::build("kazudaxiono", 1, &data(), &catalog()).unwrap();
    assert_eq!(record.faction, "colossus");
    assert_eq!(record.ship, "Fireball");
}

#[test]
fn an_upgrade_record_shows_kind_slots_and_restrictions() {
    let record = UpgradeRecord::build("blackone", 4, &data(), &catalog()).unwrap();
    assert_eq!(record.xws, "blackone");
    assert_eq!(record.name, "Black One");
    assert_eq!(record.kind, "Title");
    assert_eq!(record.slots, "Title,Modification,ForcePower");
    assert_eq!(record.faction_restriction, "Resistance,firstorder");
    assert_eq!(record.ship_restriction, "T-70 X-wing,t65xwing,Fireball");
    assert_eq!(record.size_restriction, "Small,Medium");
    assert_eq!(record.arc_restriction, "Front Arc");
    assert_eq!(record.keyword_restriction, "X-wing");
    assert_eq!(record.force_side_restriction, "light");
    assert_eq!(record.count, 4);
    assert_eq!(record.sources.as_deref(), Some("T-70 X-Wing Expansion Pack:swz25:wave2:1"));
}

#[test]
fn an_upgrade_without_sides_is_of_unknown_kind() {
    let record = UpgradeRecord::build("blank", 1, &data(), &catalog()).unwrap();
    assert_eq!(record.kind, "unknown");
    assert_eq!(record.slots, "unknown");
    assert_eq!(record.faction_restriction, "");
    assert_eq!(record.ship_restriction, "");
}

#[test]
fn a_side_without_slots_has_empty_slots() {
    let mut d = data();
    d.upgrades[2].sides.push(Side { kind: SlotKind::Crew, slots: vec![] });
    let record = UpgradeRecord::build("blank", 1, &d, &catalog()).unwrap();
    assert_eq!(record.kind, "Crew");
    assert_eq!(record.slots, "");
}

#[test]
fn empty_clauses_leave_no_stray_commas() {
    let d = data();
    let clauses = vec![
        clause(),
        Restrictions { sizes: words(&["Small"]), ..clause() },
        clause(),
        clause(),
        Restrictions { sizes: words(&["Large", "Huge"]), factions: words(&["resistance"]), ..clause() },
        clause(),
    ];
    assert_eq!(format_restriction(&d, &clauses, Restriction::Sizes), "Small,Large,Huge");
    assert_eq!(format_restriction(&d, &clauses, Restriction::Factions), "Resistance");
    assert_eq!(format_restriction(&d, &clauses, Restriction::Ships), "");
    assert_eq!(format_restriction(&d, &vec![], Restriction::Arcs), "");
    assert_eq!(format_restriction(&d, &vec![clause(), clause()], Restriction::Keywords), "");
}

#[test]
fn records_are_built_by_kind_in_the_order_of_the_inventory() {
    let mut inventory = Inventory::new();
    inventory.insert(item(ItemType::Upgrade, "blackone"), 2);
    inventory.insert(item(ItemType::Upgrade, "bb8"), 15);
    inventory.insert(item(ItemType::Ship, "t70xwing"), 3);
    inventory.insert(item(ItemType::Ship, "fireball"), 1);
    inventory.insert(item(ItemType::Pilot, "poedameron"), 3);
    inventory.insert(item(ItemType::Obstacle, "gascloud1"), 3);
    inventory.insert(item(ItemType::Damage, "core"), 33);
    inventory.insert(item(ItemType::Ship, "rz2awing"), 6);
    inventory.insert(item(ItemType::Pilot, "tallissanlintra"), 3);
    inventory.insert(item(ItemType::Upgrade, "r2d2"), 1);
    let (records, missing) = Records::build(&inventory, &data(), &catalog());
    let ships: Vec<(&str, u32)> = records.ships.iter().map(|r| (r.xws.as_str(), r.count)).collect();
    assert_eq!(ships, vec![("fireball", 1), ("t70xwing", 3)]);
    let pilots: Vec<(&str, u32)> = records.pilots.iter().map(|r| (r.xws.as_str(), r.count)).collect();
    assert_eq!(pilots, vec![("poedameron", 3)]);
    let upgrades: Vec<(&str, u32)> =
        records.upgrades.iter().map(|r| (r.xws.as_str(), r.count)).collect();
    assert_eq!(upgrades, vec![("bb8", 15), ("blackone", 2)]);
    assert_eq!(
        missing,
        vec![
            item(ItemType::Ship, "rz2awing"),
            item(ItemType::Pilot, "tallissanlintra"),
            item(ItemType::Upgrade, "r2d2"),
        ]
    );
    assert_eq!(
        records.upgrades[0].sources.as_deref(),
        Some("T-70 X-Wing Expansion Pack:swz25:wave2:1,Heralds of Hope:swz68:wave7:12")
    );
}

#[test]
fn an_empty_inventory_gives_no_records() {
    let (records, missing) = Records::build(&Inventory::new(), &data(), &catalog());
    assert!(records.ships.is_empty() && records.pilots.is_empty() && records.upgrades.is_empty());
    assert!(missing.is_empty());
    let none = Records::default();
    assert!(none.ships.is_empty() && none.pilots.is_empty() && none.upgrades.is_empty());
}
