use xwingtmg2_inventory_rs::expansions::{
    Catalog, Expansion, Inventory, Item, ItemCount, ItemType, SkuCounts,
};
use xwingtmg2_inventory_rs::sorted::Counts;
use xwingtmg2_inventory_rs::yasb2::{
    collection_to_xws_count, of_kind, Collection, CollectionFile, Singletons,
};
use xwingtmg2_inventory_rs::ErrorKind;

fn line(kind: ItemType, xws: &str, count: u32) -> ItemCount {
    ItemCount { item: Item { kind, xws: xws.to_string() }, count }
}

fn expansion(sku: &str, name: &str, wave: u32, contents: Vec<ItemCount>) -> Expansion {
    Expansion { sku: sku.to_string(), name: name.to_string(), wave, contents }
}

fn catalog() -> Catalog {
    Catalog::load(vec![
        expansion(
            "swz25",
            "T-70 X-Wing Expansion Pack",
            2,
            vec![
                line(ItemType::Ship, "t70xwing", 1),
                line(ItemType::Pilot, "poedameron", 1),
                line(ItemType::Upgrade, "blackone", 1),
                line(ItemType::Upgrade, "bb8", 1),
            ],
        ),
        expansion(
            "swz01",
            "Core Set",
            1,
            vec![
                line(ItemType::Ship, "t65xwing", 1),
                line(ItemType::Ship, "tielnfighter", 2),
                line(ItemType::Pilot, "lukeskywalker", 1),
                line(ItemType::Upgrade, "r2d2", 1),
            ],
        ),
    ])
    .unwrap()
}

fn list(entries: &[(&str, &str)]) -> Vec<(String, String)> {
    entries.iter().map(|(n, c)| (n.to_string(), c.to_string())).collect()
}

fn declared(expansions: &[(&str, &str)]) -> Collection {
    Collection { expansions: list(expansions), singletons: None }
}

fn singles(
    ship: Option<&[(&str, &str)]>,
    upgrade: Option<&[(&str, &str)]>,
    pilot: Option<&[(&str, &str)]>,
) -> Collection {
    Collection {
        expansions: vec![],
        singletons: Some(Singletons {
            ship: ship.map(list),
            upgrade: upgrade.map(list),
            pilot: pilot.map(list),
        }),
    }
}

fn sku_entries(counts: &SkuCounts) -> Vec<(String, u32)> {
    (0..counts.len()).map(|i| (counts.key(i).clone(), counts.count(i))).collect()
}

fn text_entries(counts: &Counts<String>) -> Vec<(String, u32)> {
    (0..counts.len()).map(|i| (counts.key(i).clone(), counts.count(i))).collect()
}

fn item_entries(counts: &Inventory) -> Vec<(ItemType, String, u32)> {
    (0..counts.len())
        .map(|i| (counts.key(i).kind, counts.key(i).xws.clone(), counts.count(i)))
        .collect()
}

#[test]
fn declared_expansions_become_skus() {
    let c = declared(&[("T-70 X-Wing Expansion Pack", "2"), ("Core Set", "1")]);
    let (skus, missing) = c.expansion_skus(&catalog()).unwrap();
    assert_eq!(sku_entries(&skus), vec![("swz01".to_string(), 1), ("swz25".to_string(), 2)]);
    assert!(missing.is_empty());
}

#[test]
fn a_declared_expansion_with_count_zero_is_left_out() {
    let c = declared(&[("T-70 X-Wing Expansion Pack", "0"), ("Core Set", "3"), ("Nothing", "0")]);
    let (skus, missing) = c.expansion_skus(&catalog()).unwrap();
    assert_eq!(sku_entries(&skus), vec![("swz01".to_string(), 3)]);
    assert_eq!(skus.get(&"swz25".to_string()), None);
    assert!(missing.is_empty());
}

#[test]
fn an_unknown_expansion_is_listed_and_the_known_one_still_counts() {
    let c = declared(&[("Core Set", "2"), ("First Edition Core Set", "1")]);
    let (skus, missing) = c.expansion_skus(&catalog()).unwrap();
    assert_eq!(sku_entries(&skus), vec![("swz01".to_string(), 2)]);
    assert_eq!(missing, vec!["First Edition Core Set"]);
    let swapped = declared(&[("First Edition Core Set", "1"), ("Core Set", "2")]);
    let (skus, missing) = swapped.expansion_skus(&catalog()).unwrap();
    assert_eq!(sku_entries(&skus), vec![("swz01".to_string(), 2)]);
    assert_eq!(missing, vec!["First Edition Core Set"]);
}

#[test]
fn unknown_expansions_are_listed_in_the_order_of_the_declaration() {
    let c = declared(&[("Zeta", "1"), ("Core Set", "1"), ("Alpha", "4"), ("core set", "1")]);
    let (skus, missing) = c.expansion_skus(&catalog()).unwrap();
    assert_eq!(sku_entries(&skus), vec![("swz01".to_string(), 1)]);
    assert_eq!(missing, vec!["Zeta", "Alpha", "core set"]);
}

#[test]
fn a_later_entry_for_the_same_expansion_replaces_the_earlier() {
    let c = declared(&[("Core Set", "1"), ("Core Set", "4")]);
    let (skus, _) = c.expansion_skus(&catalog()).unwrap();
    assert_eq!(sku_entries(&skus), vec![("swz01".to_string(), 4)]);
}

#[test]
fn a_count_that_is_no_number_fails_the_expansions() {
    let c = declared(&[("Core Set", "1"), ("Alpha", "two"), ("Beta", "")]);
    assert_eq!(
        c.expansion_skus(&catalog()).err(),
        Some(ErrorKind::InvalidCount("Alpha".to_string()))
    );
    let zero = declared(&[("Alpha", "0"), ("Beta", "-1")]);
    assert_eq!(
        zero.expansion_skus(&catalog()).err(),
        Some(ErrorKind::InvalidCount("Beta".to_string()))
    );
}

#[test]
fn an_empty_declaration_gives_nothing() {
    let c = Collection::default();
    let (skus, missing) = c.expansion_skus(&catalog()).unwrap();
    assert_eq!(skus.len(), 0);
    assert!(missing.is_empty());
    let (owned, dropped) = c.singles_as_xws().unwrap();
    assert_eq!(owned.len(), 0);
    assert!(dropped.is_empty());
}

#[test]
fn singles_are_resolved_by_kind() {
    let c = singles(
        Some(&[("T-65 X-Wing", "2"), ("X-Wing", "1")]),
        Some(&[("Rey", "1"), ("BB-8", "3")]),
        Some(&[("Rey", "2"), ("Han Solo (Resistance)", "1")]),
    );
    let (owned, dropped) = c.singles_as_xws().unwrap();
    assert_eq!(
        item_entries(&owned),
        vec![
            (ItemType::Ship, "t65xwing".to_string(), 2),
            (ItemType::Ship, "xwing-legacyyasb".to_string(), 1),
            (ItemType::Pilot, "hansolo-scavengedyt1300".to_string(), 1),
            (ItemType::Pilot, "rey".to_string(), 2),
            (ItemType::Upgrade, "bb8".to_string(), 3),
            (ItemType::Upgrade, "rey-gunner".to_string(), 1),
        ]
    );
    assert!(dropped.is_empty());
}

#[test]
fn a_single_with_count_zero_is_left_out() {
    let c = singles(Some(&[("T-65 X-Wing", "0")]), Some(&[("BB-8", "0"), ("R2-D2", "1")]), None);
    let (owned, dropped) = c.singles_as_xws().unwrap();
    assert_eq!(item_entries(&owned), vec![(ItemType::Upgrade, "r2d2".to_string(), 1)]);
    assert!(dropped.is_empty());
}

#[test]
fn a_single_that_repeats_a_component_is_dropped_and_named() {
    let c = singles(
        None,
        Some(&[("BB-8", "1"), ("bb8", "5"), ("B.B. 8", "7"), ("Rey", "1"), ("Rey (Gunner)", "2")]),
        None,
    );
    let (owned, dropped) = c.singles_as_xws().unwrap();
    assert_eq!(
        item_entries(&owned),
        vec![
            (ItemType::Upgrade, "bb8".to_string(), 1),
            (ItemType::Upgrade, "rey-gunner".to_string(), 1),
        ]
    );
    assert_eq!(dropped, vec!["bb8", "B.B. 8", "Rey (Gunner)"]);
}

#[test]
fn a_repeat_with_count_zero_is_not_named() {
    let c = singles(None, Some(&[("BB-8", "1"), ("bb8", "0")]), None);
    let (owned, dropped) = c.singles_as_xws().unwrap();
    assert_eq!(item_entries(&owned), vec![(ItemType::Upgrade, "bb8".to_string(), 1)]);
    assert!(dropped.is_empty());
}

#[test]
fn the_same_id_in_two_kinds_is_no_repeat() {
    let c = singles(Some(&[("Chewbacca", "1")]), Some(&[("Chewbacca", "2")]), Some(&[("Chewbacca", "3")]));
    let (owned, dropped) = c.singles_as_xws().unwrap();
    assert_eq!(
        item_entries(&owned),
        vec![
            (ItemType::Ship, "chewbacca".to_string(), 1),
            (ItemType::Pilot, "chewbacca".to_string(), 3),
            (ItemType::Upgrade, "chewbacca".to_string(), 2),
        ]
    );
    assert!(dropped.is_empty());
}

#[test]
fn dropped_names_come_upgrades_first_then_pilots_then_ships() {
    let c = singles(
        Some(&[("X-Wing", "1"), ("x wing", "1")]),
        Some(&[("BB-8", "1"), ("bb8", "1")]),
        Some(&[("Rey", "1"), ("rey", "1")]),
    );
    let (_, dropped) = c.singles_as_xws().unwrap();
    assert_eq!(dropped, vec!["bb8", "rey", "x wing"]);
}

#[test]
fn a_count_that_is_no_number_fails_the_singles() {
    let c = singles(Some(&[("X-Wing", "x")]), Some(&[("BB-8", "1")]), Some(&[("Rey", "1.5")]));
    assert_eq!(c.singles_as_xws().err(), Some(ErrorKind::InvalidCount("Rey".to_string())));
    let d = singles(Some(&[("X-Wing", "x")]), Some(&[("BB-8", "1"), ("R2-D2", "--")]), None);
    assert_eq!(d.singles_as_xws().err(), Some(ErrorKind::InvalidCount("R2-D2".to_string())));
    let e = singles(Some(&[("X-Wing", "1"), ("Y-Wing", "y")]), None, None);
    assert_eq!(e.singles_as_xws().err(), Some(ErrorKind::InvalidCount("Y-Wing".to_string())));
}

#[test]
fn a_collection_file_wraps_a_collection() {
    let file = CollectionFile { collection: declared(&[("Core Set", "1")]) };
    assert_eq!(file.collection.expansions.len(), 1);
    assert!(file.collection.singletons.is_none());
}

#[test]
fn counts_of_one_kind_are_by_id() {
    let mut inventory = Inventory::new();
    inventory.insert(Item { kind: ItemType::Pilot, xws: "rey".to_string() }, 2);
    inventory.insert(Item { kind: ItemType::Upgrade, xws: "rey-gunner".to_string() }, 1);
    inventory.insert(Item { kind: ItemType::Pilot, xws: "finn".to_string() }, 4);
    assert_eq!(
        text_entries(&of_kind(&inventory, ItemType::Pilot)),
        vec![("finn".to_string(), 4), ("rey".to_string(), 2)]
    );
    assert_eq!(
        text_entries(&of_kind(&inventory, ItemType::Upgrade)),
        vec![("rey-gunner".to_string(), 1)]
    );
    assert_eq!(of_kind(&inventory, ItemType::Ship).len(), 0);
}

#[test]
fn pilots_and_upgrades_of_a_declaration_are_counted() {
    let c = Collection {
        expansions: list(&[
            ("T-70 X-Wing Expansion Pack", "2"),
            ("Core Set", "1"),
            ("Lost Pack", "1"),
            ("Unowned", "0"),
        ]),
        singletons: Some(Singletons {
            ship: Some(list(&[("T-70 X-Wing", "1")])),
            upgrade: Some(list(&[("BB-8", "1"), ("Rey", "1"), ("bb8", "9")])),
            pilot: Some(list(&[("Poe Dameron", "3")])),
        }),
    };
    let (pilots, upgrades, not_found, dropped) = collection_to_xws_count(&c, &catalog()).unwrap();
    assert_eq!(
        text_entries(&pilots),
        vec![("lukeskywalker".to_string(), 1), ("poedameron".to_string(), 5)]
    );
    assert_eq!(
        text_entries(&upgrades),
        vec![
            ("bb8".to_string(), 3),
            ("blackone".to_string(), 2),
            ("r2d2".to_string(), 1),
            ("rey-gunner".to_string(), 1),
        ]
    );
    assert_eq!(not_found, vec!["Lost Pack"]);
    assert_eq!(dropped, vec!["bb8"]);
}

#[test]
fn counting_fails_on_a_bad_count_and_on_a_total_too_large() {
    let bad = Collection {
        expansions: list(&[("Core Set", "one")]),
        singletons: Some(Singletons { ship: None, upgrade: None, pilot: Some(list(&[("Rey", "?")])) }),
    };
    assert_eq!(
        collection_to_xws_count(&bad, &catalog()).err(),
        Some(ErrorKind::InvalidCount("Rey".to_string()))
    );
    let bad_expansion = declared(&[("Core Set", "one")]);
    assert_eq!(
        collection_to_xws_count(&bad_expansion, &catalog()).err(),
        Some(ErrorKind::InvalidCount("Core Set".to_string()))
    );
    let large = declared(&[("Core Set", "4294967295")]);
    assert_eq!(collection_to_xws_count(&large, &catalog()).err(), Some(ErrorKind::Overflow));
}
