//! Expansions, what they hold, and the catalog of all known expansions.
//!
//! An expansion is named by its SKU, a component by its kind and its xws id.
//! The catalog keeps the expansions in the order in which they were listed,
//! with no SKU twice, and an index from each component to the expansions that
//! hold it.

use crate::sorted::{Counts, SortKey};
use crate::text::{lemma_text_order, same_text, text_before, text_precedes, texts};
use crate::ErrorKind;
use vstd::prelude::*;
use vstd::std_specs::cmp::PartialEqSpecImpl;

verus! {

/// The kinds of component that an expansion can hold.
#[derive(Clone, Copy, Debug, PartialEq, Eq, Hash, Structural)]
pub enum ItemType {
    Ship,
    Obstacle,
    Pilot,
    Upgrade,
    Damage,
}

/// The place of a kind in the order of the kinds.
pub open spec fn kind_rank(kind: ItemType) -> int {
    match kind {
        ItemType::Ship => 0,
        ItemType::Obstacle => 1,
        ItemType::Pilot => 2,
        ItemType::Upgrade => 3,
        ItemType::Damage => 4,
    }
}

impl ItemType {
    /// The place of this kind in the order of the kinds.
    pub fn rank(self) -> (r: u8)
        ensures
            r == kind_rank(self),
    {
        match self {
            ItemType::Ship => 0,
            ItemType::Obstacle => 1,
            ItemType::Pilot => 2,
            ItemType::Upgrade => 3,
            ItemType::Damage => 4,
        }
    }
}

/// An xws id; the alias marks where one is meant.
pub type XWS = String;

/// The stock code that names an expansion.
pub type SKU = String;

/// What an [`Item`] is in contracts: its kind and the characters of its id.
pub struct ItemId {
    pub kind: ItemType,
    pub xws: Seq<char>,
}

/// A component, identified by its kind together with its xws id.
#[derive(Debug, Eq, Hash)]
pub struct Item {
    pub kind: ItemType,
    pub xws: XWS,
}

impl View for Item {
    type V = ItemId;

    open spec fn view(&self) -> ItemId {
        ItemId { kind: self.kind, xws: self.xws@ }
    }
}

impl PartialEq for Item {
    fn eq(&self, other: &Self) -> (r: bool) {
        self.kind == other.kind && same_text(self.xws.as_str(), other.xws.as_str())
    }
}

impl PartialEqSpecImpl for Item {
    open spec fn obeys_eq_spec() -> bool {
        true
    }

    open spec fn eq_spec(&self, other: &Self) -> bool {
        self@ == other@
    }
}

impl Clone for Item {
    fn clone(&self) -> (r: Self)
        ensures
            r@ == self@,
    {
        Item { kind: self.kind, xws: self.xws.clone() }
    }
}

impl SortKey for Item {
    /// Kinds first, in the order of [`kind_rank`]; within a kind, by id.
    open spec fn before(a: ItemId, b: ItemId) -> bool {
        kind_rank(a.kind) < kind_rank(b.kind) || (a.kind == b.kind && text_before(a.xws, b.xws))
    }

    proof fn lemma_order(a: ItemId, b: ItemId, c: ItemId) {
        lemma_text_order(a.xws, b.xws, c.xws);
    }

    fn precedes(&self, other: &Self) -> (r: bool) {
        let x = self.kind.rank();
        let y = other.kind.rank();
        x < y || (x == y && text_precedes(self.xws.as_str(), other.xws.as_str()))
    }

    fn same(&self, other: &Self) -> (r: bool) {
        self.kind == other.kind && same_text(self.xws.as_str(), other.xws.as_str())
    }

    fn duplicate(&self) -> (r: Self) {
        Item { kind: self.kind, xws: self.xws.clone() }
    }
}

/// A component together with a count: how many of it an expansion holds, or
/// how many of it are owned.
#[derive(Debug)]
pub struct ItemCount {
    pub item: Item,
    pub count: u32,
}

impl View for ItemCount {
    type V = (ItemId, u32);

    open spec fn view(&self) -> (ItemId, u32) {
        (self.item@, self.count)
    }
}

/// Owned counts by component.
pub type Inventory = Counts<Item>;

/// Owned counts by SKU.
pub type SkuCounts = Counts<String>;

/// What a list of contents holds, each line by its view.
pub open spec fn lines(v: Seq<ItemCount>) -> Seq<(ItemId, u32)> {
    v.map_values(|c: ItemCount| c@)
}

/// What an [`Expansion`] is in contracts.
pub struct ExpansionView {
    pub sku: Seq<char>,
    pub name: Seq<char>,
    pub wave: u32,
    pub contents: Seq<(ItemId, u32)>,
}

/// A retail product: its SKU, its display name, the wave it was released in,
/// and what one copy of it holds.
#[derive(Debug)]
pub struct Expansion {
    pub sku: SKU,
    pub name: String,
    pub wave: u32,
    pub contents: Vec<ItemCount>,
}

impl View for Expansion {
    type V = ExpansionView;

    open spec fn view(&self) -> ExpansionView {
        ExpansionView {
            sku: self.sku@,
            name: self.name@,
            wave: self.wave,
            contents: lines(self.contents@),
        }
    }
}

/// What a list of expansions holds, each by its view.
pub open spec fn listing(v: Seq<Expansion>) -> Seq<ExpansionView> {
    v.map_values(|e: Expansion| e@)
}

/// One place a component comes from: an expansion, and how many of the
/// component one copy of that expansion holds.
#[derive(Debug)]
pub struct SourceRef {
    pub sku: SKU,
    pub per_copy_count: u32,
}

impl View for SourceRef {
    type V = (Seq<char>, u32);

    open spec fn view(&self) -> (Seq<char>, u32) {
        (self.sku@, self.per_copy_count)
    }
}

/// What a list of sources holds, each by its view.
pub open spec fn refs(v: Seq<SourceRef>) -> Seq<(Seq<char>, u32)> {
    v.map_values(|r: SourceRef| r@)
}

/// Whether some line of `contents` names `item`.
pub open spec fn mentions(contents: Seq<(ItemId, u32)>, item: ItemId) -> bool {
    exists|j: int| 0 <= j < contents.len() && (#[trigger] contents[j]).0 == item
}

/// Whether some expansion of `exps` holds `item`.
pub open spec fn holds_item(exps: Seq<ExpansionView>, item: ItemId) -> bool {
    exists|i: int| 0 <= i < exps.len() && mentions((#[trigger] exps[i]).contents, item)
}

/// Whether no two expansions of `exps` share a SKU.
pub open spec fn distinct_skus(exps: Seq<ExpansionView>) -> bool {
    forall|i: int, j: int|
        0 <= i < j < exps.len() ==> (#[trigger] exps[i]).sku != (#[trigger] exps[j]).sku
}

/// Whether the expansion at `j` repeats the SKU of an earlier one.
pub open spec fn repeats_sku(exps: Seq<ExpansionView>, j: int) -> bool {
    exists|i: int| 0 <= i < j && (#[trigger] exps[i]).sku == exps[j].sku
}

/// Whether some expansion of `exps` has the SKU `sku`.
pub open spec fn has_sku(exps: Seq<ExpansionView>, sku: Seq<char>) -> bool {
    exists|i: int| 0 <= i < exps.len() && (#[trigger] exps[i]).sku == sku
}

/// The first expansion of `exps` with the SKU `sku`; where no SKU occurs
/// twice, the only one.
pub open spec fn find_sku(exps: Seq<ExpansionView>, sku: Seq<char>) -> Option<ExpansionView>
    decreases exps.len(),
{
    if exps.len() == 0 {
        None
    } else if exps[0].sku == sku {
        Some(exps[0])
    } else {
        find_sku(exps.drop_first(), sku)
    }
}

/// Where no SKU occurs twice, a search by SKU finds each expansion under its
/// own SKU.
pub proof fn lemma_find_sku_finds(exps: Seq<ExpansionView>, i: int)
    requires
        distinct_skus(exps),
        0 <= i < exps.len(),
    ensures
        find_sku(exps, exps[i].sku) == Some(exps[i]),
    decreases exps.len(),
{
    if i > 0 {
        let rest = exps.drop_first();
        assert forall|a: int, b: int| 0 <= a < b < rest.len() implies (#[trigger] rest[a]).sku != (
        #[trigger] rest[b]).sku by {
            assert(rest[a] == exps[a + 1] && rest[b] == exps[b + 1]);
        }
        assert(rest[i - 1] == exps[i]);
        lemma_find_sku_finds(rest, i - 1);
        assert(exps[0].sku != exps[i].sku);
    }
}

/// Whether the expansion at `i` is the one that a search for `name` finds:
/// it has that name, and of all that have it, the least SKU.
pub open spec fn found_by_name(exps: Seq<ExpansionView>, name: Seq<char>, i: int) -> bool {
    &&& 0 <= i < exps.len()
    &&& exps[i].name == name
    &&& forall|j: int|
        0 <= j < exps.len() && (#[trigger] exps[j]).name == name && j != i ==> text_before(
            exps[i].sku,
            exps[j].sku,
        )
}

/// The expansion that a search of `exps` for `name` finds, if it finds one.
pub open spec fn named(exps: Seq<ExpansionView>, name: Seq<char>) -> Option<ExpansionView> {
    if exists|i: int| found_by_name(exps, name, i) {
        Some(exps[choose|i: int| found_by_name(exps, name, i)])
    } else {
        None
    }
}

/// Whether some expansion of `exps` has the display name `name`.
pub open spec fn has_name(exps: Seq<ExpansionView>, name: Seq<char>) -> bool {
    exists|i: int| 0 <= i < exps.len() && (#[trigger] exps[i]).name == name
}

/// The lines of one expansion that name `item`, each as a source: the
/// expansion's SKU and the count on the line, in the order of the lines.
pub open spec fn lines_for(sku: Seq<char>, contents: Seq<(ItemId, u32)>, item: ItemId) -> Seq<
    (Seq<char>, u32),
>
    decreases contents.len(),
{
    if contents.len() == 0 {
        Seq::empty()
    } else {
        let rest = lines_for(sku, contents.drop_last(), item);
        if contents.last().0 == item {
            rest.push((sku, contents.last().1))
        } else {
            rest
        }
    }
}

/// Where `item` comes from: for each expansion in listing order, and for each
/// of its lines that names `item`, the SKU and the count on that line.
pub open spec fn sources_in(exps: Seq<ExpansionView>, item: ItemId) -> Seq<(Seq<char>, u32)>
    decreases exps.len(),
{
    if exps.len() == 0 {
        Seq::empty()
    } else {
        sources_in(exps.drop_last(), item) + lines_for(
            exps.last().sku,
            exps.last().contents,
            item,
        )
    }
}

/// Whether at most one line of `contents` names `item`.
pub open spec fn names_once(contents: Seq<(ItemId, u32)>, item: ItemId) -> bool {
    forall|i: int, j: int|
        0 <= i < j < contents.len() ==> !((#[trigger] contents[i]).0 == item && (
        #[trigger] contents[j]).0 == item)
}

/// The count on a line of `contents` that names `item`.
pub open spec fn count_in(contents: Seq<(ItemId, u32)>, item: ItemId) -> u32 {
    contents[choose|j: int| 0 <= j < contents.len() && (#[trigger] contents[j]).0 == item].1
}

/// The expansions of `exps` that hold `item`, in listing order.
pub open spec fn holders(exps: Seq<ExpansionView>, item: ItemId) -> Seq<ExpansionView>
    decreases exps.len(),
{
    if exps.len() == 0 {
        Seq::empty()
    } else {
        let rest = holders(exps.drop_last(), item);
        if mentions(exps.last().contents, item) {
            rest.push(exps.last())
        } else {
            rest
        }
    }
}

/// An expansion that names `item` on one line is one source of it, with the
/// count on that line; an expansion that does not name it is none.
pub proof fn lemma_lines_of_one(sku: Seq<char>, contents: Seq<(ItemId, u32)>, item: ItemId)
    requires
        names_once(contents, item),
    ensures
        lines_for(sku, contents, item) == if mentions(contents, item) {
            seq![(sku, count_in(contents, item))]
        } else {
            Seq::empty()
        },
    decreases contents.len(),
{
    if contents.len() > 0 {
        let rest = contents.drop_last();
        let last = contents.len() - 1;
        assert forall|i: int, j: int| 0 <= i < j < rest.len() implies !((#[trigger] rest[i]).0
            == item && (#[trigger] rest[j]).0 == item) by {
            assert(rest[i] == contents[i] && rest[j] == contents[j]);
        }
        lemma_lines_of_one(sku, rest, item);
        if mentions(rest, item) {
            let w = choose|w: int| 0 <= w < rest.len() && (#[trigger] rest[w]).0 == item;
            assert(contents[w].0 == item);
        }
        if contents[last].0 == item {
            let c = choose|j: int| 0 <= j < contents.len() && (#[trigger] contents[j]).0 == item;
            assert(c == last);
            assert(Seq::<(Seq<char>, u32)>::empty().push((sku, contents[last].1)) =~= seq![
                (sku, count_in(contents, item)),
            ]);
        } else if mentions(contents, item) {
            let c = choose|j: int| 0 <= j < contents.len() && (#[trigger] contents[j]).0 == item;
            assert(rest[c].0 == item);
            let d = choose|j: int| 0 <= j < rest.len() && (#[trigger] rest[j]).0 == item;
            assert(contents[d].0 == item);
            assert(c == d);
        }
    }
}

/// The sources of a component are its holders, one source for each: the
/// holder's SKU with the count that the holder itself gives the component.
/// This is stated of listings in which no expansion names the component on
/// two lines.
pub proof fn lemma_sources_are_holders(exps: Seq<ExpansionView>, item: ItemId)
    requires
        forall|i: int| 0 <= i < exps.len() ==> names_once((#[trigger] exps[i]).contents, item),
    ensures
        sources_in(exps, item).len() == holders(exps, item).len(),
        forall|k: int|
            0 <= k < holders(exps, item).len() ==> (#[trigger] sources_in(exps, item)[k]) == (
                holders(exps, item)[k].sku,
                count_in(holders(exps, item)[k].contents, item),
            ),
    decreases exps.len(),
{
    if exps.len() > 0 {
        let rest = exps.drop_last();
        assert forall|i: int| 0 <= i < rest.len() implies names_once(
            (#[trigger] rest[i]).contents,
            item,
        ) by {
            assert(rest[i] == exps[i]);
        }
        lemma_sources_are_holders(rest, item);
        assert(names_once(exps[exps.len() - 1].contents, item));
        lemma_lines_of_one(exps.last().sku, exps.last().contents, item);
    }
}

/// An expansion has lines for a component exactly when it names it.
pub proof fn lemma_lines_iff_mentioned(sku: Seq<char>, contents: Seq<(ItemId, u32)>, item: ItemId)
    ensures
        lines_for(sku, contents, item).len() > 0 <==> mentions(contents, item),
    decreases contents.len(),
{
    if contents.len() > 0 {
        let rest = contents.drop_last();
        lemma_lines_iff_mentioned(sku, rest, item);
        if mentions(rest, item) {
            let w = choose|w: int| 0 <= w < rest.len() && (#[trigger] rest[w]).0 == item;
            assert(contents[w].0 == item);
        }
        if mentions(contents, item) && contents.last().0 != item {
            let w = choose|w: int| 0 <= w < contents.len() && (#[trigger] contents[w]).0 == item;
            assert(rest[w].0 == item);
        }
        if contents.last().0 == item {
            assert(contents[contents.len() - 1].0 == item);
        }
    }
}

/// A component has sources exactly when some expansion holds it.
pub proof fn lemma_sourced_iff_held(exps: Seq<ExpansionView>, item: ItemId)
    ensures
        sources_in(exps, item).len() > 0 <==> holds_item(exps, item),
    decreases exps.len(),
{
    if exps.len() > 0 {
        let rest = exps.drop_last();
        let last = exps.len() - 1;
        lemma_sourced_iff_held(rest, item);
        lemma_lines_iff_mentioned(exps.last().sku, exps.last().contents, item);
        if holds_item(rest, item) {
            let w = choose|w: int| 0 <= w < rest.len() && mentions((#[trigger] rest[w]).contents, item);
            assert(mentions(exps[w].contents, item));
        }
        if holds_item(exps, item) && !mentions(exps.last().contents, item) {
            let w = choose|w: int| 0 <= w < exps.len() && mentions((#[trigger] exps[w]).contents, item);
            assert(mentions(rest[w].contents, item));
        }
        if mentions(exps.last().contents, item) {
            assert(mentions(exps[last].contents, item));
        }
    }
}

/// Whether any expansion of the list holds `item`.
pub fn has_item(expansions: &Vec<Expansion>, item: &Item) -> (r: bool)
    ensures
        r == holds_item(listing(expansions@), item@),
{
    let ghost exps = listing(expansions@);
    let mut i: usize = 0;
    while i < expansions.len()
        invariant
            i <= expansions.len(),
            exps == listing(expansions@),
            forall|k: int| 0 <= k < i ==> !mentions((#[trigger] exps[k]).contents, item@),
        decreases expansions.len() - i,
    {
        let contents = &expansions[i].contents;
        let mut j: usize = 0;
        while j < contents.len()
            invariant
                j <= contents.len(),
                i < expansions.len(),
                exps == listing(expansions@),
                contents == &expansions[i as int].contents,
                forall|k: int| 0 <= k < j ==> (#[trigger] exps[i as int].contents[k]).0 != item@,
            decreases contents.len() - j,
        {
            if contents[j].item == *item {
                assert(exps[i as int].contents[j as int].0 == item@);
                return true;
            }
            j += 1;
        }
        i += 1;
    }
    false
}

/// The SKUs of a listing, in its order.
pub open spec fn skus_of(exps: Seq<ExpansionView>) -> Seq<Seq<char>> {
    Seq::new(exps.len(), |i: int| exps[i].sku)
}

/// Whether `j` is the first place of `exps` whose SKU has occurred before.
pub open spec fn first_repeat(exps: Seq<ExpansionView>, j: int) -> bool {
    &&& 0 <= j < exps.len()
    &&& repeats_sku(exps, j)
    &&& forall|k: int| 0 <= k < j ==> !repeats_sku(exps, k)
}

/// What the index from components to sources holds, each entry by its view.
spec fn index_view(index: Seq<(Item, Vec<SourceRef>)>) -> Seq<(ItemId, Seq<(Seq<char>, u32)>)> {
    index.map_values(|e: (Item, Vec<SourceRef>)| (e.0@, refs(e.1@)))
}

/// Whether no component has two entries in the index, and no entry is empty.
spec fn index_ok(index: Seq<(ItemId, Seq<(Seq<char>, u32)>)>) -> bool {
    &&& forall|i: int, j: int|
        0 <= i < j < index.len() ==> (#[trigger] index[i]).0 != (#[trigger] index[j]).0
    &&& forall|i: int| 0 <= i < index.len() ==> (#[trigger] index[i]).1.len() > 0
}

/// Whether the index has an entry for `item`.
spec fn indexed(index: Seq<(ItemId, Seq<(Seq<char>, u32)>)>, item: ItemId) -> bool {
    exists|i: int| 0 <= i < index.len() && (#[trigger] index[i]).0 == item
}

/// The sources that the index keeps for `item`; none where it has no entry.
spec fn group_of(index: Seq<(ItemId, Seq<(Seq<char>, u32)>)>, item: ItemId) -> Seq<
    (Seq<char>, u32),
> {
    if indexed(index, item) {
        index[choose|i: int| 0 <= i < index.len() && (#[trigger] index[i]).0 == item].1
    } else {
        Seq::empty()
    }
}

/// Appends `source` to the sources that the index keeps for `item`.
fn add_source(index: &mut Vec<(Item, Vec<SourceRef>)>, item: &Item, source: SourceRef)
    requires
        index_ok(index_view(old(index)@)),
    ensures
        index_ok(index_view(final(index)@)),
        forall|k: ItemId|
            #[trigger] group_of(index_view(final(index)@), k) == if k == item@ {
                group_of(index_view(old(index)@), k).push(source@)
            } else {
                group_of(index_view(old(index)@), k)
            },
{
    let ghost before = index_view(index@);
    let mut p: usize = 0;
    while p < index.len() && !(index[p].0 == *item)
        invariant
            p <= index.len(),
            before == index_view(index@),
            forall|k: int| 0 <= k < p ==> (#[trigger] before[k]).0 != item@,
        decreases index.len() - p,
    {
        p += 1;
    }
    if p < index.len() {
        let mut entry = index.remove(p);
        let ghost held = refs(entry.1@);
        entry.1.push(source);
        assert(refs(entry.1@) =~= held.push(source@));
        index.insert(p, entry);
        let ghost after = index_view(index@);
        proof {
            assert(held == before[p as int].1);
            assert(after =~= before.update(p as int, (item@, held.push(source@))));
            assert forall|k: ItemId| #[trigger]
                group_of(after, k) == if k == item@ {
                    group_of(before, k).push(source@)
                } else {
                    group_of(before, k)
                } by {
                if indexed(before, k) {
                    let i = choose|i: int| 0 <= i < before.len() && (#[trigger] before[i]).0 == k;
                    assert(after[i].0 == k);
                }
                if indexed(after, k) {
                    let i = choose|i: int| 0 <= i < after.len() && (#[trigger] after[i]).0 == k;
                    assert(before[i].0 == k);
                }
                if k == item@ {
                    assert(before[p as int].0 == k);
                }
            }
        }
    } else {
        let mut list: Vec<SourceRef> = Vec::new();
        list.push(source);
        assert(refs(list@) =~= seq![source@]);
        index.push((item.duplicate(), list));
        let ghost after = index_view(index@);
        proof {
            assert(after =~= before.push((item@, seq![source@])));
            assert forall|k: ItemId| #[trigger]
                group_of(after, k) == if k == item@ {
                    group_of(before, k).push(source@)
                } else {
                    group_of(before, k)
                } by {
                if indexed(before, k) {
                    let i = choose|i: int| 0 <= i < before.len() && (#[trigger] before[i]).0 == k;
                    assert(after[i].0 == k);
                }
                if indexed(after, k) {
                    let i = choose|i: int| 0 <= i < after.len() && (#[trigger] after[i]).0 == k;
                    if i < before.len() {
                        assert(before[i].0 == k);
                    }
                }
                if k == item@ {
                    assert(after[p as int].0 == k);
                    assert(group_of(before, k) =~= Seq::empty());
                    assert(seq![source@] =~= Seq::<(Seq<char>, u32)>::empty().push(source@));
                }
            }
        }
    }
}

/// The known expansions, looked up by SKU, by display name and by component.
#[derive(Debug)]
pub struct Catalog {
    expansions: Vec<Expansion>,
    index: Vec<(Item, Vec<SourceRef>)>,
}

impl View for Catalog {
    type V = Seq<ExpansionView>;

    /// The expansions in the order in which they were listed.
    closed spec fn view(&self) -> Seq<ExpansionView> {
        listing(self.expansions@)
    }
}

impl Default for Catalog {
    /// A catalog without expansions.
    fn default() -> (r: Self)
        ensures
            r@ == Seq::<ExpansionView>::empty(),
    {
        let r = Catalog { expansions: Vec::new(), index: Vec::new() };
        assert(r@ =~= Seq::<ExpansionView>::empty());
        assert(index_view(r.index@) =~= Seq::empty());
        r
    }
}

impl Catalog {
    /// No SKU occurs twice, and the index holds for each component exactly
    /// its sources.
    #[verifier::type_invariant]
    closed spec fn wf(&self) -> bool {
        &&& distinct_skus(self@)
        &&& index_ok(index_view(self.index@))
        &&& forall|k: ItemId| #[trigger]
            group_of(index_view(self.index@), k) == sources_in(self@, k)
    }

    /// Builds the catalog of a listing, unless two of its expansions share a
    /// SKU; the error names the first SKU that repeats an earlier one.
    pub fn load(raw: Vec<Expansion>) -> (r: Result<Catalog, ErrorKind>)
        ensures
            match r {
                Ok(c) => distinct_skus(listing(raw@)) && c@ == listing(raw@),
                Err(ErrorKind::DuplicateSku(s)) => exists|j: int|
                    first_repeat(listing(raw@), j) && s@ == (#[trigger] listing(raw@)[j]).sku,
                Err(_) => false,
            },
    {
        let ghost exps = listing(raw@);
        let mut index: Vec<(Item, Vec<SourceRef>)> = Vec::new();
        let mut j: usize = 0;
        assert(exps.take(0) =~= Seq::<ExpansionView>::empty());
        assert(index_view(index@) =~= Seq::empty());
        while j < raw.len()
            invariant
                j <= raw.len(),
                exps == listing(raw@),
                forall|k: int| 0 <= k < j ==> !repeats_sku(exps, k),
                index_ok(index_view(index@)),
                forall|k: ItemId| #[trigger]
                    group_of(index_view(index@), k) == sources_in(exps.take(j as int), k),
            decreases raw.len() - j,
        {
            let mut i: usize = 0;
            while i < j
                invariant
                    i <= j,
                    j < raw.len(),
                    exps == listing(raw@),
                    forall|k: int| 0 <= k < j ==> !repeats_sku(exps, k),
                    forall|k: int| 0 <= k < i ==> (#[trigger] exps[k]).sku != exps[j as int].sku,
                decreases j - i,
            {
                if same_text(raw[i].sku.as_str(), raw[j].sku.as_str()) {
                    assert(exps[i as int].sku == exps[j as int].sku);
                    assert(first_repeat(exps, j as int));
                    return Err(ErrorKind::DuplicateSku(raw[j].sku.clone()));
                }
                i += 1;
            }
            let expansion = &raw[j];
            let ghost done = exps.take(j as int);
            let ghost sku = exps[j as int].sku;
            let ghost contents = exps[j as int].contents;
            let mut m: usize = 0;
            assert(contents.take(0) =~= Seq::<(ItemId, u32)>::empty());
            assert forall|k: ItemId| #[trigger]
                group_of(index_view(index@), k) == sources_in(done, k) + lines_for(
                    sku,
                    contents.take(0),
                    k,
                ) by {
                assert(sources_in(done, k) + Seq::<(Seq<char>, u32)>::empty() =~= sources_in(
                    done,
                    k,
                ));
            }
            while m < expansion.contents.len()
                invariant
                    m <= expansion.contents.len(),
                    j < raw.len(),
                    expansion == &raw[j as int],
                    exps == listing(raw@),
                    sku == exps[j as int].sku,
                    contents == exps[j as int].contents,
                    done == exps.take(j as int),
                    index_ok(index_view(index@)),
                    forall|k: ItemId| #[trigger]
                        group_of(index_view(index@), k) == sources_in(done, k) + lines_for(
                            sku,
                            contents.take(m as int),
                            k,
                        ),
                decreases expansion.contents.len() - m,
            {
                let line = &expansion.contents[m];
                let source = SourceRef { sku: expansion.sku.clone(), per_copy_count: line.count };
                let ghost old_index = index_view(index@);
                add_source(&mut index, &line.item, source);
                proof {
                    let next = contents.take(m + 1);
                    assert(next.drop_last() =~= contents.take(m as int));
                    assert(next.last() == (line.item@, line.count));
                    assert forall|k: ItemId| #[trigger]
                        group_of(index_view(index@), k) == sources_in(done, k) + lines_for(
                            sku,
                            next,
                            k,
                        ) by {
                        let base = sources_in(done, k);
                        let part = lines_for(sku, contents.take(m as int), k);
                        assert(group_of(old_index, k) == base + part);
                        if k == line.item@ {
                            assert((base + part).push((sku, line.count)) =~= base + part.push(
                                (sku, line.count),
                            ));
                        }
                    }
                }
                m += 1;
            }
            proof {
                assert(contents.take(contents.len() as int) =~= contents);
                assert(exps.take(j + 1).drop_last() =~= done);
                assert(exps.take(j + 1).last() == exps[j as int]);
            }
            j += 1;
        }
        proof {
            assert(exps.take(exps.len() as int) =~= exps);
            assert forall|a: int, b: int| 0 <= a < b < exps.len() implies (#[trigger] exps[a]).sku
                != (#[trigger] exps[b]).sku by {
                assert(!repeats_sku(exps, b));
            }
        }
        Ok(Catalog { expansions: raw, index })
    }

    /// The expansions, in the order in which they were listed.
    pub fn expansions(&self) -> (r: &Vec<Expansion>)
        ensures
            listing(r@) == self@,
            distinct_skus(self@),
    {
        proof {
            use_type_invariant(self);
        }
        &self.expansions
    }

    /// The expansion with the SKU `sku`, if the catalog knows it.
    pub fn lookup(&self, sku: &str) -> (r: Option<&Expansion>)
        ensures
            match r {
                Some(e) => find_sku(self@, sku@) == Some(e@),
                None => find_sku(self@, sku@) is None,
            },
    {
        let mut i: usize = 0;
        assert(self@.skip(0) =~= self@);
        while i < self.expansions.len()
            invariant
                i <= self.expansions.len(),
                self@ == listing(self.expansions@),
                find_sku(self@, sku@) == find_sku(self@.skip(i as int), sku@),
            decreases self.expansions.len() - i,
        {
            assert(self@.skip(i as int)[0] == self@[i as int]);
            if same_text(self.expansions[i].sku.as_str(), sku) {
                return Some(&self.expansions[i]);
            }
            assert(self@.skip(i as int).drop_first() =~= self@.skip(i + 1));
            i += 1;
        }
        None
    }

    /// Where `item` comes from, with the count per copy of each source;
    /// `None` where no expansion holds it.
    pub fn sources_of(&self, item: &Item) -> (r: Option<&Vec<SourceRef>>)
        ensures
            match r {
                Some(v) => refs(v@) == sources_in(self@, item@) && v@.len() > 0,
                None => sources_in(self@, item@).len() == 0,
            },
    {
        proof {
            use_type_invariant(self);
        }
        let ghost index = index_view(self.index@);
        let mut p: usize = 0;
        while p < self.index.len()
            invariant
                p <= self.index.len(),
                index == index_view(self.index@),
                index_ok(index),
                group_of(index, item@) == sources_in(self@, item@),
                forall|k: int| 0 <= k < p ==> (#[trigger] index[k]).0 != item@,
            decreases self.index.len() - p,
        {
            if self.index[p].0 == *item {
                assert(index[p as int].0 == item@);
                return Some(&self.index[p].1);
            }
            p += 1;
        }
        None
    }

    /// The expansion whose display name is exactly `name`; where several
    /// have that name, the one with the least SKU.
    pub fn find_by_name(&self, name: &str) -> (r: Option<&Expansion>)
        ensures
            match r {
                Some(e) => named(self@, name@) == Some(e@),
                None => named(self@, name@) is None,
            },
            r is Some <==> has_name(self@, name@),
    {
        proof {
            use_type_invariant(self);
        }
        let ghost exps = self@;
        let mut best: Option<usize> = None;
        let mut i: usize = 0;
        while i < self.expansions.len()
            invariant
                i <= self.expansions.len(),
                exps == listing(self.expansions@),
                distinct_skus(exps),
                match best {
                    Some(b) => b < i && exps[b as int].name == name@ && forall|j: int|
                        0 <= j < i && (#[trigger] exps[j]).name == name@ && j != b ==> text_before(
                            exps[b as int].sku,
                            exps[j].sku,
                        ),
                    None => forall|j: int| 0 <= j < i ==> (#[trigger] exps[j]).name != name@,
                },
            decreases self.expansions.len() - i,
        {
            if same_text(self.expansions[i].name.as_str(), name) {
                match best {
                    Some(b) => {
                        proof {
                            lemma_text_order(exps[i as int].sku, exps[b as int].sku, exps[b as int].sku);
                        }
                        if text_precedes(
                            self.expansions[i].sku.as_str(),
                            self.expansions[b].sku.as_str(),
                        ) {
                            proof {
                                assert forall|j: int|
                                    0 <= j < i + 1 && (#[trigger] exps[j]).name == name@ && j
                                        != i implies text_before(exps[i as int].sku, exps[j].sku) by {
                                    lemma_text_order(
                                        exps[i as int].sku,
                                        exps[b as int].sku,
                                        exps[j].sku,
                                    );
                                }
                            }
                            best = Some(i);
                        }
                    },
                    None => {
                        best = Some(i);
                    },
                }
            }
            i += 1;
        }
        match best {
            Some(b) => {
                proof {
                    assert(found_by_name(exps, name@, b as int));
                    let c = choose|i: int| found_by_name(exps, name@, i);
                    if c != b {
                        lemma_text_order(exps[c].sku, exps[b as int].sku, exps[c].sku);
                    }
                }
                Some(&self.expansions[b])
            },
            None => None,
        }
    }

    /// Whether any expansion of the catalog holds `item`.
    pub fn has_item(&self, item: &Item) -> (r: bool)
        ensures
            r == holds_item(self@, item@),
    {
        has_item(&self.expansions, item)
    }

    /// The SKU of every expansion, in the order in which they were listed.
    pub fn list_all_skus(&self) -> (r: Vec<SKU>)
        ensures
            texts(r@) == skus_of(self@),
    {
        let mut r: Vec<SKU> = Vec::new();
        let mut i: usize = 0;
        assert(texts(r@) =~= skus_of(self@.take(0)));
        while i < self.expansions.len()
            invariant
                i <= self.expansions.len(),
                self@ == listing(self.expansions@),
                texts(r@) == skus_of(self@.take(i as int)),
            decreases self.expansions.len() - i,
        {
            let ghost held = texts(r@);
            r.push(self.expansions[i].sku.clone());
            assert(texts(r@) =~= held.push(self@[i as int].sku));
            assert(texts(r@) =~= skus_of(self@.take(i + 1)));
            i += 1;
        }
        assert(self@.take(self@.len() as int) =~= self@);
        r
    }
}

} // verus!
