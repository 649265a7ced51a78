use xwingtmg2_inventory_rs::expansions::{
    Catalog, Expansion, Inventory, Item, ItemCount, ItemType, SkuCounts,
};
use xwingtmg2_inventory_rs::yasb2;
use xwingtmg2_inventory_rs::Collection;

fn item(kind: ItemType, xws: &str) -> Item {
    Item { kind, xws: xws.to_string() }
}

fn line(kind: ItemType, xws: &str, count: u32) -> ItemCount {
    ItemCount { item: item(kind, xws), count }
}

fn expansion(sku: &str, name: &str, wave: u32, contents: Vec<ItemCount>) -> Expansion {
    Expansion { sku: sku.to_string(), name: name.to_string(), wave, contents }
}

fn t70() -> Expansion {
    expansion(
        "swz25",
        "T-70 X-Wing Expansion Pack",
        2,
        vec![
            line(ItemType::Ship, "t70xwing", 1),
            line(ItemType::Pilot, "poedameron", 1),
            line(ItemType::Upgrade, "blackone", 1),
            line(ItemType::Upgrade, "bb8", 1),
        ],
    )
}

fn heralds() -> Expansion {
    expansion(
        "swz68",
        "Heralds of Hope",
        7,
        vec![
            line(ItemType::Ship, "t70xwing", 1),
            line(ItemType::Ship, "rz2awing", 2),
            line(ItemType::Pilot, "poedameron", 1),
            line(ItemType::Upgrade, "bb8", 3),
        ],
    )
}

fn skus(entries: &[(&str, u32)]) -> SkuCounts {
    let mut counts = SkuCounts::new();
    for (sku, n) in entries {
        counts.insert(sku.to_string(), *n);
    }
    counts
}

fn singles(entries: &[(ItemType, &str, u32)]) -> Inventory {
    let mut counts = Inventory::new();
    for (kind, xws, n) in entries {
        counts.insert(item(*kind, xws), *n);
    }
    counts
}

fn entries(counts: &Inventory) -> Vec<(ItemType, String, u32)> {
    (0..counts.len())
        .map(|i| (counts.key(i).kind, counts.key(i).xws.clone(), counts.count(i)))
        .collect()
}

#[test]
fn two_copies_of_an_expansion_give_two_of_each_of_its_contents() {
    let catalog = Catalog::load(vec![t70()]).unwrap();
    let collection = Collection { skus: skus(&[("swz25", 2)]), singles: Inventory::new() };
    let (inventory, missing) = collection.inventory(&catalog);
    assert_eq!(inventory.get(&item(ItemType::Ship, "t70xwing")), Some(2));
    assert_eq!(inventory.get(&item(ItemType::Pilot, "poedameron")), Some(2));
    assert_eq!(inventory.get(&item(ItemType::Upgrade, "blackone")), Some(2));
    assert_eq!(inventory.get(&item(ItemType::Upgrade, "bb8")), Some(2));
    assert_eq!(inventory.len(), 4);
    assert!(missing.is_empty());
}

#[test]
fn expansions_add_to_the_singles() {
    let catalog = Catalog::load(vec![t70(), heralds()]).unwrap();
    let collection = Collection {
        skus: skus(&[("swz25", 2), ("swz68", 3)]),
        singles: singles(&[
            (ItemType::Upgrade, "bb8", 10),
            (ItemType::Ship, "ewing", 1),
            (ItemType::Pilot, "bb8", 4),
        ]),
    };
    let (inventory, missing) = collection.inventory(&catalog);
    assert_eq!(
        entries(&inventory),
        vec![
            (ItemType::Ship, "ewing".to_string(), 1),
            (ItemType::Ship, "rz2awing".to_string(), 6),
            (ItemType::Ship, "t70xwing".to_string(), 5),
            (ItemType::Pilot, "bb8".to_string(), 4),
            (ItemType::Pilot, "poedameron".to_string(), 5),
            (ItemType::Upgrade, "bb8".to_string(), 21),
            (ItemType::Upgrade, "blackone".to_string(), 2),
        ]
    );
    assert!(missing.is_empty());
}

#[test]
fn a_component_on_two_lines_counts_for_both() {
    let twice = expansion(
        "swz77",
        "Twice",
        1,
        vec![line(ItemType::Ship, "xwing", 1), line(ItemType::Ship, "xwing", 2)],
    );
    let catalog = Catalog::load(vec![twice]).unwrap();
    let collection = Collection { skus: skus(&[("swz77", 5)]), singles: Inventory::new() };
    let (inventory, _) = collection.inventory(&catalog);
    assert_eq!(entries(&inventory), vec![(ItemType::Ship, "xwing".to_string(), 15)]);
}

#[test]
fn unknown_skus_are_listed_in_sku_order_and_add_nothing() {
    let catalog = Catalog::load(vec![t70()]).unwrap();
    let collection = Collection {
        skus: skus(&[("swz99", 1), ("swz25", 1), ("swz00", 4)]),
        singles: singles(&[(ItemType::Ship, "ewing", 1)]),
    };
    let (inventory, missing) = collection.inventory(&catalog);
    assert_eq!(missing, vec!["swz00", "swz99"]);
    assert_eq!(inventory.len(), 5);
    assert_eq!(inventory.get(&item(ItemType::Ship, "ewing")), Some(1));
    assert_eq!(inventory.get(&item(ItemType::Ship, "t70xwing")), Some(1));
}

#[test]
fn the_inventory_does_not_depend_on_the_order_in_which_skus_were_entered() {
    let catalog = Catalog::load(vec![t70(), heralds()]).unwrap();
    let owned = singles(&[(ItemType::Upgrade, "bb8", 1)]);
    let one = Collection { skus: skus(&[("swz25", 2), ("swz68", 3), ("lost", 1)]), singles: owned };
    let owned = singles(&[(ItemType::Upgrade, "bb8", 1)]);
    let other = Collection { skus: skus(&[("lost", 1), ("swz68", 3), ("swz25", 2)]), singles: owned };
    let (a, _) = one.inventory(&catalog);
    let (b, _) = other.inventory(&catalog);
    assert_eq!(entries(&a), entries(&b));
    assert_eq!(a.get(&item(ItemType::Upgrade, "bb8")), Some(12));
}

#[test]
fn an_owned_count_of_zero_lists_the_contents_with_zero() {
    let catalog = Catalog::load(vec![t70()]).unwrap();
    let collection = Collection { skus: skus(&[("swz25", 0)]), singles: Inventory::new() };
    let (inventory, missing) = collection.inventory(&catalog);
    assert_eq!(inventory.len(), 4);
    assert_eq!(inventory.get(&item(ItemType::Ship, "t70xwing")), Some(0));
    assert!(missing.is_empty());
}

#[test]
fn nothing_owned_gives_an_empty_inventory() {
    let catalog = Catalog::load(vec![t70()]).unwrap();
    let (inventory, missing) = Collection::default().inventory(&catalog);
    assert_eq!(inventory.len(), 0);
    assert!(missing.is_empty());
}

#[test]
fn a_total_that_does_not_fit_is_refused() {
    let catalog = Catalog::load(vec![heralds()]).unwrap();
    let product = Collection { skus: skus(&[("swz68", 2_147_483_648)]), singles: Inventory::new() };
    assert!(product.checked_inventory(&catalog).is_none());
    let sum = Collection {
        skus: skus(&[("swz68", 1)]),
        singles: singles(&[(ItemType::Ship, "t70xwing", u32::MAX)]),
    };
    assert!(sum.checked_inventory(&catalog).is_none());
    let fits = Collection {
        skus: skus(&[("swz68", 1)]),
        singles: singles(&[(ItemType::Ship, "t70xwing", u32::MAX - 1)]),
    };
    let (inventory, _) = fits.checked_inventory(&catalog).unwrap();
    assert_eq!(inventory.get(&item(ItemType::Ship, "t70xwing")), Some(u32::MAX));
}

#[test]
fn a_declaration_with_one_known_and_one_unknown_expansion_counts_the_known_one_in_full() {
    let catalog = Catalog::load(vec![t70(), heralds()]).unwrap();
    let declared = yasb2::Collection {
        expansions: vec![
            ("No Such Pack".to_string(), "3".to_string()),
            ("T-70 X-Wing Expansion Pack".to_string(), "2".to_string()),
        ],
        singletons: None,
    };
    let (skus, unresolved) = declared.expansion_skus(&catalog).unwrap();
    let (singles, dropped) = declared.singles_as_xws().unwrap();
    assert_eq!(unresolved, vec!["No Such Pack"]);
    assert!(dropped.is_empty());
    let (inventory, missing) = Collection { skus, singles }.inventory(&catalog);
    assert!(missing.is_empty());
    assert_eq!(
        entries(&inventory),
        vec![
            (ItemType::Ship, "t70xwing".to_string(), 2),
            (ItemType::Pilot, "poedameron".to_string(), 2),
            (ItemType::Upgrade, "bb8".to_string(), 2),
            (ItemType::Upgrade, "blackone".to_string(), 2),
        ]
    );
}

#[test]
fn a_declared_zero_leaves_no_entry_in_the_inventory() {
    let catalog = Catalog::load(vec![t70(), heralds()]).unwrap();
    let declared = yasb2::Collection {
        expansions: vec![
            ("Heralds of Hope".to_string(), "0".to_string()),
            ("T-70 X-Wing Expansion Pack".to_string(), "1".to_string()),
        ],
        singletons: Some(yasb2::Singletons {
            ship: Some(vec![("E-Wing".to_string(), "0".to_string())]),
            upgrade: None,
            pilot: None,
        }),
    };
    let (skus, _) = declared.expansion_skus(&catalog).unwrap();
    let (singles, _) = declared.singles_as_xws().unwrap();
    assert_eq!(skus.len(), 1);
    assert_eq!(singles.len(), 0);
    let (inventory, _) = Collection { skus, singles }.inventory(&catalog);
    assert_eq!(inventory.get(&item(ItemType::Ship, "rz2awing")), None);
    assert_eq!(inventory.get(&item(ItemType::Ship, "ewing-legacyyasb")), None);
    assert_eq!(inventory.len(), 4);
    for i in 0..inventory.len() {
        assert!(inventory.count(i) > 0);
    }
}
