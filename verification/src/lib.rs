//! Keeps track of a collection of miniatures, owned as retail expansions and
//! as single components, and reconciles both into one inventory keyed by
//! component.
//!
//! - [`expansions`] holds the catalog of known expansions: what each holds,
//!   and for each component the expansions it comes from.
//! - [`yasb2`] turns a declared collection, which goes by display names and
//!   spells its counts as strings, into SKUs, component ids and numbers.
//! - [`Collection::inventory`] adds what the owned expansions hold to the
//!   singles.
//! - [`records`] and [`sheets`] lay the inventory out for a report, with
//!   display names from the card data in [`xwingdata2`].
//! - [`sorted`] is the map that inventories are kept in, and [`text`] the
//!   string helpers that the rest builds on.
//!
//! Nothing here reads or writes a file. A caller parses its sources into the
//! plain types of this crate and gets plain values back; what could not be
//! placed comes back as a list of names, not as an error.

use crate::expansions::{find_sku, mentions, Catalog, ExpansionView, ItemId, SkuCounts};
use crate::sorted::SortKey;
use crate::text::texts;
use vstd::prelude::*;

pub use crate::expansions::Inventory;
pub use crate::records::{
    format_restriction, format_sources, PilotRecord, Records, ShipRecord, UpgradeRecord,
};

pub mod expansions;
pub mod records;
pub mod sheets;
pub mod sorted;
pub mod text;
pub mod xwingdata2;
pub mod yasb2;

verus! {

/// Why an operation of this library failed.
#[derive(Debug, PartialEq, Eq)]
pub enum ErrorKind {
    /// A card is not in the card data.
    NotFound,
    /// Two expansions of a listing share this SKU.
    DuplicateSku(String),
    /// A declared count is not a decimal number that fits in 32 bits.
    InvalidCount(String),
    /// The total owned of some component does not fit in 32 bits.
    Overflow,
}

/// What is owned: expansions by SKU with the number of copies, and single
/// components with their counts.
#[derive(Debug)]
pub struct Collection {
    pub skus: SkuCounts,
    pub singles: Inventory,
}

impl Default for Collection {
    /// A collection that owns nothing.
    fn default() -> (r: Self)
        ensures
            r.skus.entries().len() == 0,
            r.singles.entries().len() == 0,
    {
        Collection { skus: SkuCounts::new(), singles: Inventory::new() }
    }
}

/// How many of `item` come from `n` copies of an expansion with the given
/// lines: each line that names the item adds `n` times its count.
pub open spec fn copies(n: u32, lines: Seq<(ItemId, u32)>, item: ItemId) -> nat
    decreases lines.len(),
{
    if lines.len() == 0 {
        0
    } else {
        copies(n, lines.drop_last(), item) + if lines.last().0 == item {
            (n * lines.last().1) as nat
        } else {
            0
        }
    }
}

/// How many of `item` the owned copies of one SKU add; nothing where the
/// catalog does not know the SKU.
pub open spec fn from_sku(entry: (Seq<char>, u32), cat: Seq<ExpansionView>, item: ItemId) -> nat {
    match find_sku(cat, entry.0) {
        Some(e) => copies(entry.1, e.contents, item),
        None => 0,
    }
}

/// How many of `item` all the owned expansions add together.
pub open spec fn from_skus(skus: Seq<(Seq<char>, u32)>, cat: Seq<ExpansionView>, item: ItemId) -> nat
    decreases skus.len(),
{
    if skus.len() == 0 {
        0
    } else {
        from_skus(skus.drop_last(), cat, item) + from_sku(skus.last(), cat, item)
    }
}

/// Whether the expansion of an owned SKU is known and holds `item`.
pub open spec fn supplies(entry: (Seq<char>, u32), cat: Seq<ExpansionView>, item: ItemId) -> bool {
    match find_sku(cat, entry.0) {
        Some(e) => mentions(e.contents, item),
        None => false,
    }
}

/// Whether some owned expansion holds `item`.
pub open spec fn supplied(skus: Seq<(Seq<char>, u32)>, cat: Seq<ExpansionView>, item: ItemId) -> bool {
    exists|i: int| 0 <= i < skus.len() && supplies(#[trigger] skus[i], cat, item)
}

/// The count that `counts` keeps for `item`; zero where it keeps none.
pub open spec fn held(counts: Map<ItemId, u32>, item: ItemId) -> nat {
    if counts.contains_key(item) {
        counts[item] as nat
    } else {
        0
    }
}

/// How many of `item` are owned in all: as singles and through expansions.
pub open spec fn total(
    singles: Map<ItemId, u32>,
    skus: Seq<(Seq<char>, u32)>,
    cat: Seq<ExpansionView>,
    item: ItemId,
) -> nat {
    held(singles, item) + from_skus(skus, cat, item)
}

/// Whether every total fits in 32 bits.
pub open spec fn fits(
    singles: Map<ItemId, u32>,
    skus: Seq<(Seq<char>, u32)>,
    cat: Seq<ExpansionView>,
) -> bool {
    forall|item: ItemId| #[trigger] total(singles, skus, cat, item) <= u32::MAX
}

/// The inventory that singles and owned expansions come to: an entry for
/// every component that is a single or that an owned expansion holds, with
/// the total owned.
pub open spec fn aggregate(
    singles: Map<ItemId, u32>,
    skus: Seq<(Seq<char>, u32)>,
    cat: Seq<ExpansionView>,
) -> Map<ItemId, u32> {
    Map::new(
        |item: ItemId| singles.contains_key(item) || supplied(skus, cat, item),
        |item: ItemId| total(singles, skus, cat, item) as u32,
    )
}

/// The owned SKUs that the catalog does not know, in the order of `skus`.
pub open spec fn unknown_skus(skus: Seq<(Seq<char>, u32)>, cat: Seq<ExpansionView>) -> Seq<
    Seq<char>,
>
    decreases skus.len(),
{
    if skus.len() == 0 {
        Seq::empty()
    } else {
        let rest = unknown_skus(skus.drop_last(), cat);
        if find_sku(cat, skus.last().0) is None {
            rest.push(skus.last().0)
        } else {
            rest
        }
    }
}

/// The lines read so far add no more than all the lines.
pub proof fn lemma_copies_grow(n: u32, lines: Seq<(ItemId, u32)>, k: int, item: ItemId)
    requires
        0 <= k <= lines.len(),
    ensures
        copies(n, lines.take(k), item) <= copies(n, lines, item),
    decreases lines.len(),
{
    if k == lines.len() {
        assert(lines.take(k) =~= lines);
    } else {
        lemma_copies_grow(n, lines.drop_last(), k, item);
        assert(lines.drop_last().take(k) =~= lines.take(k));
    }
}

/// The expansions walked so far add no more than all of them.
pub proof fn lemma_from_skus_grow(
    skus: Seq<(Seq<char>, u32)>,
    k: int,
    cat: Seq<ExpansionView>,
    item: ItemId,
)
    requires
        0 <= k <= skus.len(),
    ensures
        from_skus(skus.take(k), cat, item) <= from_skus(skus, cat, item),
    decreases skus.len(),
{
    if k == skus.len() {
        assert(skus.take(k) =~= skus);
    } else {
        lemma_from_skus_grow(skus.drop_last(), k, cat, item);
        assert(skus.drop_last().take(k) =~= skus.take(k));
    }
}

/// No copies of an expansion add nothing.
pub proof fn lemma_no_copies_add_nothing(lines: Seq<(ItemId, u32)>, item: ItemId)
    ensures
        copies(0, lines, item) == 0,
    decreases lines.len(),
{
    if lines.len() > 0 {
        lemma_no_copies_add_nothing(lines.drop_last(), item);
    }
}

/// An owned count of zero adds nothing to any total: without the entry, every
/// total is what it is with it.
pub proof fn lemma_zero_owned_adds_nothing(
    singles: Map<ItemId, u32>,
    skus: Seq<(Seq<char>, u32)>,
    k: int,
    cat: Seq<ExpansionView>,
    item: ItemId,
)
    requires
        0 <= k < skus.len(),
        skus[k].1 == 0,
    ensures
        total(singles, skus, cat, item) == total(singles, skus.remove(k), cat, item),
{
    lemma_from_skus_without(skus, k, cat, item);
    match find_sku(cat, skus[k].0) {
        Some(e) => lemma_no_copies_add_nothing(e.contents, item),
        None => {},
    }
}

/// What has been added once the walk has read `j` lines of the expansion at
/// place `i` is no more than the total.
pub proof fn lemma_total_covers(
    singles: Map<ItemId, u32>,
    skus: Seq<(Seq<char>, u32)>,
    i: int,
    cat: Seq<ExpansionView>,
    j: int,
    item: ItemId,
)
    requires
        0 <= i < skus.len(),
        find_sku(cat, skus[i].0) is Some,
        0 <= j <= find_sku(cat, skus[i].0).unwrap().contents.len(),
    ensures
        total(singles, skus.take(i), cat, item) + copies(
            skus[i].1,
            find_sku(cat, skus[i].0).unwrap().contents.take(j),
            item,
        ) <= total(singles, skus, cat, item),
{
    let lines = find_sku(cat, skus[i].0).unwrap().contents;
    lemma_copies_grow(skus[i].1, lines, j, item);
    lemma_from_skus_grow(skus, i + 1, cat, item);
    assert(skus.take(i + 1).drop_last() =~= skus.take(i));
    assert(skus.take(i + 1).last() == skus[i]);
}

/// Leaving out the entry at `k` takes away what that entry added.
pub proof fn lemma_from_skus_without(
    skus: Seq<(Seq<char>, u32)>,
    k: int,
    cat: Seq<ExpansionView>,
    item: ItemId,
)
    requires
        0 <= k < skus.len(),
    ensures
        from_skus(skus, cat, item) == from_skus(skus.remove(k), cat, item) + from_sku(
            skus[k],
            cat,
            item,
        ),
    decreases skus.len(),
{
    if k == skus.len() - 1 {
        assert(skus.remove(k) =~= skus.drop_last());
    } else {
        lemma_from_skus_without(skus.drop_last(), k, cat, item);
        assert(skus.remove(k).drop_last() =~= skus.drop_last().remove(k));
        assert(skus.remove(k).last() == skus.last());
    }
}

/// What the owned expansions add does not depend on the order in which they
/// are walked.
pub proof fn lemma_from_skus_any_order(
    a: Seq<(Seq<char>, u32)>,
    b: Seq<(Seq<char>, u32)>,
    cat: Seq<ExpansionView>,
    item: ItemId,
)
    requires
        a.to_multiset() == b.to_multiset(),
    ensures
        from_skus(a, cat, item) == from_skus(b, cat, item),
    decreases a.len(),
{
    a.to_multiset_ensures();
    b.to_multiset_ensures();
    if a.len() > 0 {
        let x = a.last();
        assert(a[a.len() - 1] == x);
        assert(a.contains(x));
        assert(a.to_multiset().count(x) > 0);
        assert(b.to_multiset().count(x) > 0);
        assert(b.contains(x));
        let k = choose|k: int| 0 <= k < b.len() && b[k] == x;
        assert(a.remove(a.len() - 1) =~= a.drop_last());
        lemma_from_skus_any_order(a.drop_last(), b.remove(k), cat, item);
        lemma_from_skus_without(b, k, cat, item);
    }
}

/// The inventory does not depend on the order in which the owned expansions
/// are walked: two lists with the same entries, in whatever order, give the
/// same inventory, and one fits exactly when the other does.
pub proof fn lemma_aggregate_any_order(
    singles: Map<ItemId, u32>,
    a: Seq<(Seq<char>, u32)>,
    b: Seq<(Seq<char>, u32)>,
    cat: Seq<ExpansionView>,
)
    requires
        a.to_multiset() == b.to_multiset(),
    ensures
        aggregate(singles, a, cat) == aggregate(singles, b, cat),
        fits(singles, a, cat) == fits(singles, b, cat),
{
    a.to_multiset_ensures();
    b.to_multiset_ensures();
    assert forall|item: ItemId| #[trigger]
        total(singles, a, cat, item) == total(singles, b, cat, item) by {
        lemma_from_skus_any_order(a, b, cat, item);
    }
    assert forall|item: ItemId| supplied(a, cat, item) == supplied(b, cat, item) by {
        if supplied(a, cat, item) {
            let i = choose|i: int| 0 <= i < a.len() && supplies(#[trigger] a[i], cat, item);
            assert(a.contains(a[i]));
            assert(a.to_multiset().count(a[i]) > 0);
            assert(b.to_multiset().count(a[i]) > 0);
            assert(b.contains(a[i]));
            let k = choose|k: int| 0 <= k < b.len() && b[k] == a[i];
            assert(supplies(b[k], cat, item));
        }
        if supplied(b, cat, item) {
            let i = choose|i: int| 0 <= i < b.len() && supplies(#[trigger] b[i], cat, item);
            assert(b.contains(b[i]));
            assert(b.to_multiset().count(b[i]) > 0);
            assert(a.to_multiset().count(b[i]) > 0);
            assert(a.contains(b[i]));
            let k = choose|k: int| 0 <= k < a.len() && a[k] == b[i];
            assert(supplies(a[k], cat, item));
        }
    }
    assert(aggregate(singles, a, cat) =~= aggregate(singles, b, cat));
    if fits(singles, a, cat) {
        assert forall|item: ItemId| #[trigger] total(singles, b, cat, item) <= u32::MAX by {
            assert(total(singles, a, cat, item) <= u32::MAX);
        }
    }
    if fits(singles, b, cat) {
        assert forall|item: ItemId| #[trigger] total(singles, a, cat, item) <= u32::MAX by {
            assert(total(singles, b, cat, item) <= u32::MAX);
        }
    }
}

impl Collection {
    /// Adds what the owned expansions hold to the singles, and lists the
    /// owned SKUs that the catalog does not know, in SKU order. `None` where
    /// some total does not fit in 32 bits.
    pub fn checked_inventory(&self, catalog: &Catalog) -> (r: Option<(Inventory, Vec<String>)>)
        ensures
            match r {
                Some((inventory, missing)) => {
                    &&& fits(self.singles@, self.skus.entries(), catalog@)
                    &&& inventory@ == aggregate(self.singles@, self.skus.entries(), catalog@)
                    &&& texts(missing@) == unknown_skus(self.skus.entries(), catalog@)
                },
                None => !fits(self.singles@, self.skus.entries(), catalog@),
            },
    {
        let ghost singles = self.singles@;
        let ghost skus = self.skus.entries();
        let ghost cat = catalog@;
        let mut inventory = self.singles.duplicate();
        let mut missing: Vec<String> = Vec::new();
        let count = self.skus.len();
        let mut i: usize = 0;
        proof {
            assert(skus.take(0) =~= Seq::<(Seq<char>, u32)>::empty());
            assert(texts(missing@) =~= Seq::<Seq<char>>::empty());
        }
        while i < count
            invariant
                i <= count,
                count == skus.len(),
                singles == self.singles@,
                skus == self.skus.entries(),
                cat == catalog@,
                forall|item: ItemId| #[trigger]
                    inventory@.contains_key(item) <==> singles.contains_key(item) || supplied(
                        skus.take(i as int),
                        cat,
                        item,
                    ),
                forall|item: ItemId| #[trigger]
                    held(inventory@, item) == total(singles, skus.take(i as int), cat, item),
                texts(missing@) == unknown_skus(skus.take(i as int), cat),
            decreases count - i,
        {
            let ghost done = skus.take(i as int);
            let ghost next = skus.take(i + 1);
            proof {
                assert(next.drop_last() =~= done);
                assert(next.last() == skus[i as int]);
            }
            let sku = self.skus.key(i);
            let n = self.skus.count(i);
            match catalog.lookup(sku.as_str()) {
                Some(expansion) => {
                    let ghost lines = expansion@.contents;
                    let mut j: usize = 0;
                    proof {
                        assert(lines.take(0) =~= Seq::<(ItemId, u32)>::empty());
                    }
                    while j < expansion.contents.len()
                        invariant
                            j <= expansion.contents.len(),
                            i < count,
                            count == skus.len(),
                            singles == self.singles@,
                            skus == self.skus.entries(),
                            cat == catalog@,
                            lines == expansion@.contents,
                            find_sku(cat, skus[i as int].0) == Some(expansion@),
                            n == skus[i as int].1,
                            done == skus.take(i as int),
                            forall|item: ItemId| #[trigger]
                                inventory@.contains_key(item) <==> singles.contains_key(item)
                                    || supplied(done, cat, item) || mentions(
                                    lines.take(j as int),
                                    item,
                                ),
                            forall|item: ItemId| #[trigger]
                                held(inventory@, item) == total(singles, done, cat, item) + copies(
                                    n,
                                    lines.take(j as int),
                                    item,
                                ),
                        decreases expansion.contents.len() - j,
                    {
                        let line = &expansion.contents[j];
                        let ghost read = lines.take(j as int);
                        let ghost more = lines.take(j + 1);
                        let ghost before = inventory@;
                        proof {
                            assert(more.drop_last() =~= read);
                            assert(more.last() == (line.item@, line.count));
                            assert(held(before, line.item@) == total(singles, done, cat, line.item@)
                                + copies(n, read, line.item@));
                            lemma_total_covers(singles, skus, i as int, cat, j + 1, line.item@);
                        }
                        let product = match n.checked_mul(line.count) {
                            Some(p) => p,
                            None => {
                                assert(total(singles, skus, cat, line.item@) > u32::MAX);
                                return None;
                            },
                        };
                        let owned = match inventory.get(&line.item) {
                            Some(h) => h,
                            None => 0,
                        };
                        let sum = match owned.checked_add(product) {
                            Some(t) => t,
                            None => {
                                assert(total(singles, skus, cat, line.item@) > u32::MAX);
                                return None;
                            },
                        };
                        inventory.insert(line.item.duplicate(), sum);
                        proof {
                            assert forall|item: ItemId| #[trigger]
                                inventory@.contains_key(item) <==> singles.contains_key(item)
                                    || supplied(done, cat, item) || mentions(more, item) by {
                                if mentions(more, item) {
                                    let w = choose|w: int|
                                        0 <= w < more.len() && (#[trigger] more[w]).0 == item;
                                    if w < j {
                                        assert(read[w].0 == item);
                                    }
                                }
                                if mentions(read, item) {
                                    let w = choose|w: int|
                                        0 <= w < read.len() && (#[trigger] read[w]).0 == item;
                                    assert(more[w].0 == item);
                                }
                                if item == line.item@ {
                                    assert(more[j as int].0 == item);
                                }
                                assert(before.contains_key(item) <==> singles.contains_key(item)
                                    || supplied(done, cat, item) || mentions(read, item));
                            }
                            assert forall|item: ItemId| #[trigger]
                                held(inventory@, item) == total(singles, done, cat, item) + copies(
                                    n,
                                    more,
                                    item,
                                ) by {
                                assert(held(before, item) == total(singles, done, cat, item)
                                    + copies(n, read, item));
                            }
                        }
                        j += 1;
                    }
                    proof {
                        assert(lines.take(lines.len() as int) =~= lines);
                        assert forall|item: ItemId| #[trigger]
                            inventory@.contains_key(item) <==> singles.contains_key(item)
                                || supplied(next, cat, item) by {
                            if supplied(next, cat, item) {
                                let w = choose|w: int|
                                    0 <= w < next.len() && supplies(#[trigger] next[w], cat, item);
                                if w < i {
                                    assert(supplies(done[w], cat, item));
                                }
                            }
                            if supplied(done, cat, item) {
                                let w = choose|w: int|
                                    0 <= w < done.len() && supplies(#[trigger] done[w], cat, item);
                                assert(supplies(next[w], cat, item));
                            }
                            if mentions(lines, item) {
                                assert(supplies(next[i as int], cat, item));
                            }
                        }
                    }
                },
                None => {
                    let ghost listed = texts(missing@);
                    missing.push(sku.clone());
                    proof {
                        assert(texts(missing@) =~= listed.push(skus[i as int].0));
                        assert forall|item: ItemId|
                            supplied(next, cat, item) <==> supplied(done, cat, item) by {
                            if supplied(next, cat, item) {
                                let w = choose|w: int|
                                    0 <= w < next.len() && supplies(#[trigger] next[w], cat, item);
                                assert(supplies(done[w], cat, item));
                            }
                            if supplied(done, cat, item) {
                                let w = choose|w: int|
                                    0 <= w < done.len() && supplies(#[trigger] done[w], cat, item);
                                assert(supplies(next[w], cat, item));
                            }
                        }
                    }
                },
            }
            i += 1;
        }
        proof {
            assert(skus.take(skus.len() as int) =~= skus);
            assert forall|item: ItemId| #[trigger]
                total(singles, skus, cat, item) <= u32::MAX by {
                assert(held(inventory@, item) == total(singles, skus, cat, item));
            }
            assert forall|item: ItemId| inventory@.contains_key(item) implies inventory@[item]
                == total(singles, skus, cat, item) as u32 by {
                assert(held(inventory@, item) == total(singles, skus, cat, item));
            }
            assert(inventory@ =~= aggregate(singles, skus, cat));
        }
        Some((inventory, missing))
    }

    /// Adds what the owned expansions hold to the singles, and lists the
    /// owned SKUs that the catalog does not know, in SKU order.
    pub fn inventory(&self, catalog: &Catalog) -> (r: (Inventory, Vec<String>))
        requires
            fits(self.singles@, self.skus.entries(), catalog@),
        ensures
            r.0@ == aggregate(self.singles@, self.skus.entries(), catalog@),
            texts(r.1@) == unknown_skus(self.skus.entries(), catalog@),
    {
        match self.checked_inventory(catalog) {
            Some(r) => r,
            None => vstd::pervasive::unreached(),
        }
    }
}

} // verus!
