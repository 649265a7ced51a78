//! Collections as the squad builder exports them.
//!
//! Such a collection names expansions and cards by their display names and
//! gives every count as a decimal string. This module turns the names into
//! SKUs and xws ids and the strings into numbers; what it cannot place it
//! hands back as a list of names.

use crate::expansions::{
    distinct_skus, found_by_name, lemma_find_sku_finds, named, Catalog, ExpansionView, Inventory,
    Item, ItemId, ItemType, SkuCounts,
};
use crate::text::{
    alphanumeric, ascii_lower, count_of, is_alphanumeric, parse_count, push_char, same_text,
    texts, to_ascii_lower,
};
use crate::sorted::{lemma_increasing_distinct, listing_of, position, Counts};
use crate::{aggregate, copies, fits, from_skus, held, total, ErrorKind};
use vstd::prelude::*;

verus! {

/// What becomes of one character of a display name, given whether it is a
/// letter or a number: an opening parenthesis becomes a hyphen, a letter or a
/// number stays, an upper-case ASCII letter in lower case, and any other
/// character is dropped.
pub open spec fn kept(c: char, letter_or_number: bool) -> Option<char> {
    if c == '(' {
        Some('-')
    } else if letter_or_number {
        Some(ascii_lower(c))
    } else {
        None
    }
}

/// A display name reduced to the characters that an xws id is made of:
/// every character as [`kept`] has it, in order.
pub open spec fn canonical(name: Seq<char>) -> Seq<char>
    decreases name.len(),
{
    if name.len() == 0 {
        Seq::empty()
    } else {
        let rest = canonical(name.drop_last());
        match kept(name.last(), alphanumeric(name.last())) {
            Some(c) => rest.push(c),
            None => rest,
        }
    }
}

/// What becomes of one character of a display name, given whether it is a
/// letter or a number.
pub fn canonical_char(c: char, letter_or_number: bool) -> (r: Option<char>)
    ensures
        r == kept(c, letter_or_number),
{
    if c == '(' {
        Some('-')
    } else if letter_or_number {
        Some(to_ascii_lower(c))
    } else {
        None
    }
}

/// Reduces a display name to the characters that an xws id is made of.
pub fn to_canonical(name: &str) -> (r: String)
    ensures
        r@ == canonical(name@),
{
    let mut r = String::new();
    assert(name@.take(0) =~= Seq::<char>::empty());
    for c in it: name.chars()
        invariant
            it.seq() == name@,
            r@ == canonical(name@.take(it.index())),
    {
        let ghost done = name@.take(it.index());
        let ghost next = name@.take(it.index() + 1);
        assert(next.drop_last() =~= done);
        assert(next.last() == c);
        match canonical_char(c, is_alphanumeric(c)) {
            Some(k) => push_char(&mut r, k),
            None => {},
        }
    }
    assert(name@.take(name@.len() as int) =~= name@);
    r
}

/// The display names whose id is fixed outright: written this way they belong to
/// first-edition records, while their canonical form names a current ship.
pub open spec fn literal_id(id: Seq<char>) -> Option<Seq<char>> {
    if id == "TIE/FO Fighter"@ {
        Some("tiefofighter-legacyyasb"@)
    } else if id == "E-Wing"@ {
        Some("ewing-legacyyasb"@)
    } else if id == "T-70 X-Wing"@ {
        Some("t70xwing-legacyyasb"@)
    } else if id == "TIE/SF Fighter"@ {
        Some("tiesffighter-legacyyasb"@)
    } else {
        None
    }
}

/// The pilots whose canonical name is not their xws id, with the id.
pub open spec fn pilot_alias(id: Seq<char>) -> Option<Seq<char>> {
    if id == "adigallia-delta7b"@ {
        Some("adigallia-delta7baethersprite"@)
    } else if id == "ahsokatano-awing"@ {
        Some("ahsokatano-rz1awing"@)
    } else if id == "blacksquadronace-t70"@ {
        Some("blacksquadronace-t70xwing"@)
    } else if id == "bossk-z95headhunter"@ {
        Some("bossk-z95af4headhunter"@)
    } else if id == "chewbacca-resistance"@ {
        Some("chewbacca-scavengedyt1300"@)
    } else if id == "corranhorn-xwing"@ {
        Some("corranhorn-t65xwing"@)
    } else if id == "dalanoberos-starviper"@ {
        Some("dalanoberos-starviperclassattackplatform"@)
    } else if id == "darthvader-tiedefender"@ {
        Some("darthvader-tieddefender"@)
    } else if id == "durge-separatist"@ {
        Some("durge-separatistalliance"@)
    } else if id == "ezrabridger-sheathipede"@ {
        Some("ezrabridger-sheathipedeclassshuttle"@)
    } else if id == "ezrabridger-tiefighter"@ {
        Some("ezrabridger-tielnfighter"@)
    } else if id == "fennrau-sheathipede"@ {
        Some("fennrau-sheathipedeclassshuttle"@)
    } else if id == "garvendreis-xwing"@ {
        Some("garvendreis-t65xwing"@)
    } else if id == "gideonhask-tieinterceptor"@ {
        Some("gideonhask-tieininterceptor"@)
    } else if id == "hansolo-resistance"@ {
        Some("hansolo-scavengedyt1300"@)
    } else if id == "herasyndulla-awing"@ {
        Some("herasyndulla-rz1awing"@)
    } else if id == "herasyndulla-bwing"@ {
        Some("herasyndulla-asf01bwing"@)
    } else if id == "herasyndulla-vcx100"@ {
        Some("herasyndulla-vcx100lightfreighter"@)
    } else if id == "landocalrissian-resistance"@ {
        Some("landocalrissian-scavengedyt1300"@)
    } else if id == "norrawexley-ywing"@ {
        Some("norrawexley-btla4ywing"@)
    } else if id == "poedameron-yt1300"@ {
        Some("poedameron-scavengedyt1300"@)
    } else if id == "sabinewren-awing"@ {
        Some("sabinewren-rz1awing"@)
    } else if id == "sabinewren-scum"@ {
        Some("sabinewren-lancerclasspursuitcraft"@)
    } else if id == "sabinewren-tiefighter"@ {
        Some("sabinewren-tielnfighter"@)
    } else if id == "sharabey-awing"@ {
        Some("sharabey-rz1awing"@)
    } else if id == "vultskerris-tieinterceptor"@ {
        Some("vultskerris-tieininterceptor"@)
    } else if id == "wedgeantilles-awing"@ {
        Some("wedgeantilles-rz1awing"@)
    } else if id == "zeborrelios-sheathipede"@ {
        Some("zeborrelios-sheathipedeclassshuttle"@)
    } else if id == "zeborrelios-tiefighter"@ {
        Some("zeborrelios-tielnfighter"@)
    } else {
        None
    }
}

/// The upgrades whose canonical name is not their xws id, with the id.
pub open spec fn upgrade_alias(id: Seq<char>) -> Option<Seq<char>> {
    if id == "b6bladewingprototype-epic"@ {
        Some("b6bladewingprototype-command"@)
    } else if id == "c3po-resistance"@ {
        Some("c3po-crew"@)
    } else if id == "chewbacca-resistance"@ {
        Some("chewbacca-crew"@)
    } else if id == "chopper-astromech"@ {
        Some("chopper"@)
    } else if id == "hansolo-resistance"@ {
        Some("hansolo-crew"@)
    } else if id == "rey"@ {
        Some("rey-gunner"@)
    } else if id == "vectoredcannons-rz1"@ {
        Some("vectoredcannonsrz1"@)
    } else {
        None
    }
}

/// The canonical names of first-edition ships that a current ship has taken
/// over.
pub open spec fn legacy_ship(id: Seq<char>) -> bool {
    ||| id == "arc170"@
    ||| id == "awing"@
    ||| id == "bsf17bomber"@
    ||| id == "bwing"@
    ||| id == "firespray31"@
    ||| id == "hwk290"@
    ||| id == "kwing"@
    ||| id == "lambdaclassshuttle"@
    ||| id == "quadjumper"@
    ||| id == "starviper"@
    ||| id == "tieadvanced"@
    ||| id == "tieadvancedprototype"@
    ||| id == "tieaggressor"@
    ||| id == "tiebomber"@
    ||| id == "tiedefender"@
    ||| id == "tiefighter"@
    ||| id == "tieinterceptor"@
    ||| id == "tiesilencer"@
    ||| id == "tiestriker"@
    ||| id == "upsilonclasscommandshuttle"@
    ||| id == "uwing"@
    ||| id == "vcx100"@
    ||| id == "xwing"@
    ||| id == "yt1300-resistance"@
    ||| id == "yt1300"@
    ||| id == "yt2400"@
    ||| id == "ywing"@
    ||| id == "z95headhunter"@
}

/// The mark that sets a first-edition record apart from the current card of
/// the same name.
pub open spec fn legacy_mark() -> Seq<char> {
    "-legacyyasb"@
}

/// The id that the known aliases give a canonical name of the given kind.
pub open spec fn alias(kind: ItemType, id: Seq<char>) -> Option<Seq<char>> {
    match kind {
        ItemType::Pilot => pilot_alias(id),
        ItemType::Upgrade => upgrade_alias(id),
        _ => None,
    }
}

/// The xws id that stands for a display name of the given kind.
///
/// A name with a fixed id gets it. Otherwise the name is reduced to its
/// canonical form; an alias of its kind replaces that form, a first-edition
/// ship gets the legacy mark, and any other name keeps the form as it is.
pub open spec fn resolved(name: Seq<char>, kind: ItemType) -> Seq<char> {
    match literal_id(name) {
        Some(id) => id,
        None => {
            let id = canonical(name);
            match alias(kind, id) {
                Some(known) => known,
                None => if kind == ItemType::Ship && legacy_ship(id) {
                    id + legacy_mark()
                } else {
                    id
                },
            }
        },
    }
}

/// The id fixed for a display name, if it has one.
fn fixed_id(id: &str) -> (r: Option<&'static str>)
    ensures
        match r {
            Some(s) => literal_id(id@) == Some(s@),
            None => literal_id(id@) is None,
        },
{
    if same_text(id, "TIE/FO Fighter") {
        Some("tiefofighter-legacyyasb")
    } else if same_text(id, "E-Wing") {
        Some("ewing-legacyyasb")
    } else if same_text(id, "T-70 X-Wing") {
        Some("t70xwing-legacyyasb")
    } else if same_text(id, "TIE/SF Fighter") {
        Some("tiesffighter-legacyyasb")
    } else {
        None
    }
}

/// The id that the aliases give a pilot, if they know it.
fn known_pilot(id: &str) -> (r: Option<&'static str>)
    ensures
        match r {
            Some(s) => pilot_alias(id@) == Some(s@),
            None => pilot_alias(id@) is None,
        },
{
    if same_text(id, "adigallia-delta7b") {
        Some("adigallia-delta7baethersprite")
    } else if same_text(id, "ahsokatano-awing") {
        Some("ahsokatano-rz1awing")
    } else if same_text(id, "blacksquadronace-t70") {
        Some("blacksquadronace-t70xwing")
    } else if same_text(id, "bossk-z95headhunter") {
        Some("bossk-z95af4headhunter")
    } else if same_text(id, "chewbacca-resistance") {
        Some("chewbacca-scavengedyt1300")
    } else if same_text(id, "corranhorn-xwing") {
        Some("corranhorn-t65xwing")
    } else if same_text(id, "dalanoberos-starviper") {
        Some("dalanoberos-starviperclassattackplatform")
    } else if same_text(id, "darthvader-tiedefender") {
        Some("darthvader-tieddefender")
    } else if same_text(id, "durge-separatist") {
        Some("durge-separatistalliance")
    } else if same_text(id, "ezrabridger-sheathipede") {
        Some("ezrabridger-sheathipedeclassshuttle")
    } else if same_text(id, "ezrabridger-tiefighter") {
        Some("ezrabridger-tielnfighter")
    } else if same_text(id, "fennrau-sheathipede") {
        Some("fennrau-sheathipedeclassshuttle")
    } else if same_text(id, "garvendreis-xwing") {
        Some("garvendreis-t65xwing")
    } else if same_text(id, "gideonhask-tieinterceptor") {
        Some("gideonhask-tieininterceptor")
    } else if same_text(id, "hansolo-resistance") {
        Some("hansolo-scavengedyt1300")
    } else if same_text(id, "herasyndulla-awing") {
        Some("herasyndulla-rz1awing")
    } else if same_text(id, "herasyndulla-bwing") {
        Some("herasyndulla-asf01bwing")
    } else if same_text(id, "herasyndulla-vcx100") {
        Some("herasyndulla-vcx100lightfreighter")
    } else if same_text(id, "landocalrissian-resistance") {
        Some("landocalrissian-scavengedyt1300")
    } else if same_text(id, "norrawexley-ywing") {
        Some("norrawexley-btla4ywing")
    } else if same_text(id, "poedameron-yt1300") {
        Some("poedameron-scavengedyt1300")
    } else if same_text(id, "sabinewren-awing") {
        Some("sabinewren-rz1awing")
    } else if same_text(id, "sabinewren-scum") {
        Some("sabinewren-lancerclasspursuitcraft")
    } else if same_text(id, "sabinewren-tiefighter") {
        Some("sabinewren-tielnfighter")
    } else if same_text(id, "sharabey-awing") {
        Some("sharabey-rz1awing")
    } else if same_text(id, "vultskerris-tieinterceptor") {
        Some("vultskerris-tieininterceptor")
    } else if same_text(id, "wedgeantilles-awing") {
        Some("wedgeantilles-rz1awing")
    } else if same_text(id, "zeborrelios-sheathipede") {
        Some("zeborrelios-sheathipedeclassshuttle")
    } else if same_text(id, "zeborrelios-tiefighter") {
        Some("zeborrelios-tielnfighter")
    } else {
        None
    }
}

/// The id that the aliases give an upgrade, if they know it.
fn known_upgrade(id: &str) -> (r: Option<&'static str>)
    ensures
        match r {
            Some(s) => upgrade_alias(id@) == Some(s@),
            None => upgrade_alias(id@) is None,
        },
{
    if same_text(id, "b6bladewingprototype-epic") {
        Some("b6bladewingprototype-command")
    } else if same_text(id, "c3po-resistance") {
        Some("c3po-crew")
    } else if same_text(id, "chewbacca-resistance") {
        Some("chewbacca-crew")
    } else if same_text(id, "chopper-astromech") {
        Some("chopper")
    } else if same_text(id, "hansolo-resistance") {
        Some("hansolo-crew")
    } else if same_text(id, "rey") {
        Some("rey-gunner")
    } else if same_text(id, "vectoredcannons-rz1") {
        Some("vectoredcannonsrz1")
    } else {
        None
    }
}

/// Whether a canonical name is that of a first-edition ship.
fn is_legacy_ship(id: &str) -> (r: bool)
    ensures
        r == legacy_ship(id@),
{
    same_text(id, "arc170")
        || same_text(id, "awing")
        || same_text(id, "bsf17bomber")
        || same_text(id, "bwing")
        || same_text(id, "firespray31")
        || same_text(id, "hwk290")
        || same_text(id, "kwing")
        || same_text(id, "lambdaclassshuttle")
        || same_text(id, "quadjumper")
        || same_text(id, "starviper")
        || same_text(id, "tieadvanced")
        || same_text(id, "tieadvancedprototype")
        || same_text(id, "tieaggressor")
        || same_text(id, "tiebomber")
        || same_text(id, "tiedefender")
        || same_text(id, "tiefighter")
        || same_text(id, "tieinterceptor")
        || same_text(id, "tiesilencer")
        || same_text(id, "tiestriker")
        || same_text(id, "upsilonclasscommandshuttle")
        || same_text(id, "uwing")
        || same_text(id, "vcx100")
        || same_text(id, "xwing")
        || same_text(id, "yt1300-resistance")
        || same_text(id, "yt1300")
        || same_text(id, "yt2400")
        || same_text(id, "ywing")
        || same_text(id, "z95headhunter")
}

/// The xws id that stands for a display name of the given kind. It depends on
/// the name and the kind alone, and is not checked against any card data.
pub fn to_xws(name: &str, typ: ItemType) -> (r: String)
    ensures
        r@ == resolved(name@, typ),
{
    match fixed_id(name) {
        Some(id) => {
            return id.to_owned();
        },
        None => {},
    }
    let mut id = to_canonical(name);
    let known = match typ {
        ItemType::Pilot => known_pilot(id.as_str()),
        ItemType::Upgrade => known_upgrade(id.as_str()),
        _ => None,
    };
    match known {
        Some(other) => other.to_owned(),
        None => {
            if typ == ItemType::Ship && is_legacy_ship(id.as_str()) {
                id.append("-legacyyasb");
            }
            id
        },
    }
}

/// The names and counts of one list of a declaration: the display name and
/// the count as the declaration spells it, in the order of the list.
pub open spec fn declared(v: Seq<(String, String)>) -> Seq<(Seq<char>, Seq<char>)> {
    v.map_values(|e: (String, String)| (e.0@, e.1@))
}

/// The entries of a list that a declaration may leave out.
pub open spec fn declared_or_none(v: Option<Vec<(String, String)>>) -> Seq<
    (Seq<char>, Seq<char>),
> {
    match v {
        Some(list) => declared(list@),
        None => Seq::empty(),
    }
}

/// Whether every count of the list is a number.
pub open spec fn counts_valid(entries: Seq<(Seq<char>, Seq<char>)>) -> bool {
    forall|i: int| 0 <= i < entries.len() ==> count_of((#[trigger] entries[i]).1) is Some
}

/// Whether the entry at `i` is the first of the list whose count is no number.
pub open spec fn first_invalid(entries: Seq<(Seq<char>, Seq<char>)>, i: int) -> bool {
    &&& 0 <= i < entries.len()
    &&& count_of(entries[i].1) is None
    &&& forall|k: int| 0 <= k < i ==> count_of((#[trigger] entries[k]).1) is Some
}

/// The owned count by SKU that a list of declared expansions comes to: every
/// entry with a count above zero whose name the catalog knows gives its
/// expansion that count, a later entry replacing an earlier one.
pub open spec fn owned_skus(entries: Seq<(Seq<char>, Seq<char>)>, cat: Seq<ExpansionView>) -> Map<
    Seq<char>,
    u32,
>
    decreases entries.len(),
{
    if entries.len() == 0 {
        Map::empty()
    } else {
        let rest = owned_skus(entries.drop_last(), cat);
        let e = entries.last();
        match (count_of(e.1), named(cat, e.0)) {
            (Some(n), Some(x)) => if n > 0 {
                rest.insert(x.sku, n)
            } else {
                rest
            },
            _ => rest,
        }
    }
}

/// The declared expansions that the catalog cannot place: the names, in the
/// order of the list, of the entries with a count above zero that no
/// expansion of the catalog is called by.
pub open spec fn unplaced(entries: Seq<(Seq<char>, Seq<char>)>, cat: Seq<ExpansionView>) -> Seq<
    Seq<char>,
>
    decreases entries.len(),
{
    if entries.len() == 0 {
        Seq::empty()
    } else {
        let rest = unplaced(entries.drop_last(), cat);
        let e = entries.last();
        match (count_of(e.1), named(cat, e.0)) {
            (Some(n), None) => if n > 0 {
                rest.push(e.0)
            } else {
                rest
            },
            _ => rest,
        }
    }
}

/// The component that a declared single of the given kind stands for.
pub open spec fn item_of(name: Seq<char>, kind: ItemType) -> ItemId {
    ItemId { kind, xws: resolved(name, kind) }
}

/// The owned singles after one list of a declaration, starting from `start`:
/// every entry with a count above zero gives its component that count,
/// unless the component has a count already; then the entry is dropped.
pub open spec fn owned_singles(
    entries: Seq<(Seq<char>, Seq<char>)>,
    kind: ItemType,
    start: Map<ItemId, u32>,
) -> Map<ItemId, u32>
    decreases entries.len(),
{
    if entries.len() == 0 {
        start
    } else {
        let rest = owned_singles(entries.drop_last(), kind, start);
        let e = entries.last();
        match count_of(e.1) {
            Some(n) => if n > 0 && !rest.contains_key(item_of(e.0, kind)) {
                rest.insert(item_of(e.0, kind), n)
            } else {
                rest
            },
            None => rest,
        }
    }
}

/// The names of the entries that [`owned_singles`] drops, in the order of the
/// list.
pub open spec fn dropped_singles(
    entries: Seq<(Seq<char>, Seq<char>)>,
    kind: ItemType,
    start: Map<ItemId, u32>,
) -> Seq<Seq<char>>
    decreases entries.len(),
{
    if entries.len() == 0 {
        Seq::empty()
    } else {
        let rest = dropped_singles(entries.drop_last(), kind, start);
        let e = entries.last();
        match count_of(e.1) {
            Some(n) => if n > 0 && owned_singles(entries.drop_last(), kind, start).contains_key(
                item_of(e.0, kind),
            ) {
                rest.push(e.0)
            } else {
                rest
            },
            None => rest,
        }
    }
}

/// No owned count by SKU is zero.
pub proof fn lemma_owned_skus_positive(
    entries: Seq<(Seq<char>, Seq<char>)>,
    cat: Seq<ExpansionView>,
)
    ensures
        forall|sku: Seq<char>| #[trigger]
            owned_skus(entries, cat).contains_key(sku) ==> owned_skus(entries, cat)[sku] > 0,
    decreases entries.len(),
{
    if entries.len() > 0 {
        let rest = owned_skus(entries.drop_last(), cat);
        lemma_owned_skus_positive(entries.drop_last(), cat);
        assert forall|sku: Seq<char>| #[trigger]
            owned_skus(entries, cat).contains_key(sku) implies owned_skus(entries, cat)[sku]
            > 0 by {
            if rest.contains_key(sku) {
                assert(rest[sku] > 0);
            }
        }
    }
}

/// No owned count of a single is zero, where none was zero to start with.
pub proof fn lemma_owned_singles_positive(
    entries: Seq<(Seq<char>, Seq<char>)>,
    kind: ItemType,
    start: Map<ItemId, u32>,
)
    requires
        forall|item: ItemId| #[trigger] start.contains_key(item) ==> start[item] > 0,
    ensures
        forall|item: ItemId| #[trigger]
            owned_singles(entries, kind, start).contains_key(item) ==> owned_singles(
                entries,
                kind,
                start,
            )[item] > 0,
    decreases entries.len(),
{
    if entries.len() > 0 {
        let rest = owned_singles(entries.drop_last(), kind, start);
        lemma_owned_singles_positive(entries.drop_last(), kind, start);
        assert forall|item: ItemId| #[trigger]
            owned_singles(entries, kind, start).contains_key(item) implies owned_singles(
            entries,
            kind,
            start,
        )[item] > 0 by {
            if rest.contains_key(item) {
                assert(rest[item] > 0);
            }
        }
    }
}

/// A declared expansion with the count zero leaves no trace: without the
/// entry, the owned counts and the unplaced names are what they are with it.
pub proof fn lemma_zero_expansion_skipped(
    entries: Seq<(Seq<char>, Seq<char>)>,
    cat: Seq<ExpansionView>,
    k: int,
)
    requires
        0 <= k < entries.len(),
        count_of(entries[k].1) == Some(0u32),
    ensures
        owned_skus(entries, cat) == owned_skus(entries.remove(k), cat),
        unplaced(entries, cat) == unplaced(entries.remove(k), cat),
    decreases entries.len(),
{
    if k == entries.len() - 1 {
        assert(entries.remove(k) =~= entries.drop_last());
    } else {
        lemma_zero_expansion_skipped(entries.drop_last(), cat, k);
        assert(entries.remove(k).drop_last() =~= entries.drop_last().remove(k));
        assert(entries.remove(k).last() == entries.last());
    }
}

/// A declared single with the count zero leaves no trace: without the entry,
/// the owned singles and the dropped names are what they are with it.
pub proof fn lemma_zero_single_skipped(
    entries: Seq<(Seq<char>, Seq<char>)>,
    kind: ItemType,
    start: Map<ItemId, u32>,
    k: int,
)
    requires
        0 <= k < entries.len(),
        count_of(entries[k].1) == Some(0u32),
    ensures
        owned_singles(entries, kind, start) == owned_singles(entries.remove(k), kind, start),
        dropped_singles(entries, kind, start) == dropped_singles(entries.remove(k), kind, start),
    decreases entries.len(),
{
    if k == entries.len() - 1 {
        assert(entries.remove(k) =~= entries.drop_last());
    } else {
        lemma_zero_single_skipped(entries.drop_last(), kind, start, k);
        assert(entries.remove(k).drop_last() =~= entries.drop_last().remove(k));
        assert(entries.remove(k).last() == entries.last());
    }
}

/// A declared expansion that the catalog does not know changes nothing but
/// the list of unplaced names: the owned counts are what they are without the
/// entry, and the unplaced names are those of the other entries with this
/// entry's name put in at its place.
pub proof fn lemma_unknown_expansion_set_aside(
    entries: Seq<(Seq<char>, Seq<char>)>,
    cat: Seq<ExpansionView>,
    k: int,
)
    requires
        0 <= k < entries.len(),
        named(cat, entries[k].0) is None,
        count_of(entries[k].1) is Some,
        count_of(entries[k].1).unwrap() > 0,
    ensures
        owned_skus(entries, cat) == owned_skus(entries.remove(k), cat),
        unplaced(entries.take(k), cat).len() <= unplaced(entries.remove(k), cat).len(),
        unplaced(entries, cat) == unplaced(entries.remove(k), cat).insert(
            unplaced(entries.take(k), cat).len() as int,
            entries[k].0,
        ),
    decreases entries.len(),
{
    let without = entries.remove(k);
    let place = unplaced(entries.take(k), cat).len() as int;
    if k == entries.len() - 1 {
        assert(without =~= entries.drop_last());
        assert(entries.take(k) =~= entries.drop_last());
        assert(unplaced(without, cat).push(entries[k].0) =~= unplaced(without, cat).insert(
            place,
            entries[k].0,
        ));
    } else {
        let front = entries.drop_last();
        lemma_unknown_expansion_set_aside(front, cat, k);
        assert(without.drop_last() =~= front.remove(k));
        assert(without.last() == entries.last());
        assert(front.take(k) =~= entries.take(k));
        let rest = unplaced(front.remove(k), cat);
        let name = entries.last().0;
        assert(rest.insert(place, entries[k].0).push(name) =~= rest.push(name).insert(
            place,
            entries[k].0,
        ));
    }
}

/// Of two declared expansions, one that the catalog knows and one that it
/// does not, in either order: the first is owned with its count and adds its
/// contents, times that count, to what the singles hold; the second is
/// listed as unplaced and adds nothing.
pub proof fn lemma_one_known_one_unknown(
    known: (Seq<char>, Seq<char>),
    unknown: (Seq<char>, Seq<char>),
    cat: Seq<ExpansionView>,
    singles: Map<ItemId, u32>,
    item: ItemId,
)
    requires
        distinct_skus(cat),
        named(cat, known.0) is Some,
        named(cat, unknown.0) is None,
        count_of(known.1) is Some && count_of(known.1).unwrap() > 0,
        count_of(unknown.1) is Some && count_of(unknown.1).unwrap() > 0,
    ensures
        owned_skus(seq![known, unknown], cat) == Map::<Seq<char>, u32>::empty().insert(
            named(cat, known.0).unwrap().sku,
            count_of(known.1).unwrap(),
        ),
        owned_skus(seq![unknown, known], cat) == owned_skus(seq![known, unknown], cat),
        unplaced(seq![known, unknown], cat) == seq![unknown.0],
        unplaced(seq![unknown, known], cat) == seq![unknown.0],
        total(
            singles,
            seq![(named(cat, known.0).unwrap().sku, count_of(known.1).unwrap())],
            cat,
            item,
        ) == held(singles, item) + copies(
            count_of(known.1).unwrap(),
            named(cat, known.0).unwrap().contents,
            item,
        ),
{
    let a = seq![known, unknown];
    let b = seq![unknown, known];
    let none = Seq::<(Seq<char>, Seq<char>)>::empty();
    assert(a.drop_last() =~= seq![known] && seq![known].drop_last() =~= none);
    assert(b.drop_last() =~= seq![unknown] && seq![unknown].drop_last() =~= none);
    assert(a.last() == unknown && b.last() == known);
    assert(seq![known].last() == known && seq![unknown].last() == unknown);
    reveal_with_fuel(owned_skus, 3);
    reveal_with_fuel(unplaced, 3);
    assert(unplaced(a, cat) =~= seq![unknown.0]);
    assert(unplaced(b, cat) =~= seq![unknown.0]);
    let found = named(cat, known.0).unwrap();
    let c = choose|i: int| found_by_name(cat, known.0, i);
    lemma_find_sku_finds(cat, c);
    let owned = seq![(found.sku, count_of(known.1).unwrap())];
    assert(owned.drop_last() =~= Seq::<(Seq<char>, u32)>::empty());
    reveal_with_fuel(from_skus, 2);
}

/// The singles of a declaration, one list of names and counts by kind; a
/// kind that the declaration leaves out has no list.
#[derive(Debug)]
pub struct Singletons {
    pub ship: Option<Vec<(String, String)>>,
    pub upgrade: Option<Vec<(String, String)>>,
    pub pilot: Option<Vec<(String, String)>>,
}

/// A declared collection: expansions by display name with their counts, and
/// the singles. The lists are in the order in which the declaration was read.
#[derive(Debug)]
pub struct Collection {
    pub expansions: Vec<(String, String)>,
    pub singletons: Option<Singletons>,
}

/// A collection as the file wraps it.
#[derive(Debug)]
pub struct CollectionFile {
    pub collection: Collection,
}

impl Default for Collection {
    /// A collection that declares nothing.
    fn default() -> (r: Self)
        ensures
            r.expansions@.len() == 0,
            r.singletons is None,
    {
        Collection { expansions: Vec::new(), singletons: None }
    }
}

/// Adds the singles of one list to `owned` and the names of the entries that
/// it drops to `dropped`; stops at the first count that is no number.
fn add_singles(
    entries: &Vec<(String, String)>,
    kind: ItemType,
    owned: &mut Inventory,
    dropped: &mut Vec<String>,
) -> (r: Result<(), ErrorKind>)
    ensures
        match r {
            Ok(_) => {
                &&& counts_valid(declared(entries@))
                &&& final(owned)@ == owned_singles(declared(entries@), kind, old(owned)@)
                &&& texts(final(dropped)@) == texts(old(dropped)@) + dropped_singles(
                    declared(entries@),
                    kind,
                    old(owned)@,
                )
            },
            Err(ErrorKind::InvalidCount(s)) => exists|i: int|
                first_invalid(declared(entries@), i) && s@ == (#[trigger] declared(entries@)[i]).0,
            Err(_) => false,
        },
{
    let ghost list = declared(entries@);
    let ghost start = owned@;
    let ghost noted = texts(dropped@);
    let mut i: usize = 0;
    proof {
        assert(list.take(0) =~= Seq::<(Seq<char>, Seq<char>)>::empty());
        assert(noted + Seq::<Seq<char>>::empty() =~= noted);
    }
    while i < entries.len()
        invariant
            i <= entries.len(),
            list == declared(entries@),
            counts_valid(list.take(i as int)),
            owned@ == owned_singles(list.take(i as int), kind, start),
            texts(dropped@) == noted + dropped_singles(list.take(i as int), kind, start),
        decreases entries.len() - i,
    {
        let ghost done = list.take(i as int);
        let ghost next = list.take(i + 1);
        proof {
            assert(next.drop_last() =~= done);
            assert(next.last() == list[i as int]);
        }
        let entry = &entries[i];
        match parse_count(entry.1.as_str()) {
            None => {
                proof {
                    assert forall|k: int| 0 <= k < i implies count_of((#[trigger] list[k]).1)
                        is Some by {
                        assert(done[k] == list[k]);
                    }
                    assert(first_invalid(list, i as int));
                }
                return Err(ErrorKind::InvalidCount(entry.0.clone()));
            },
            Some(n) => {
                if n > 0 {
                    let item = Item { kind, xws: to_xws(entry.0.as_str(), kind) };
                    assert(item@ == item_of(list[i as int].0, kind));
                    if owned.get(&item).is_some() {
                        let ghost held = texts(dropped@);
                        dropped.push(entry.0.clone());
                        assert(texts(dropped@) =~= held.push(list[i as int].0));
                        assert(texts(dropped@) =~= noted + dropped_singles(next, kind, start));
                    } else {
                        owned.insert(item, n);
                    }
                }
                proof {
                    assert forall|k: int| 0 <= k < i + 1 implies count_of((#[trigger] next[k]).1)
                        is Some by {
                        if k < i {
                            assert(done[k] == next[k]);
                        }
                    }
                }
            },
        }
        i += 1;
    }
    assert(list.take(list.len() as int) =~= list);
    Ok(())
}

impl Collection {
    /// The declared upgrades, none where the declaration has no such list.
    pub open spec fn upgrades(&self) -> Seq<(Seq<char>, Seq<char>)> {
        match self.singletons {
            Some(s) => declared_or_none(s.upgrade),
            None => Seq::empty(),
        }
    }

    /// The declared pilots, none where the declaration has no such list.
    pub open spec fn pilots(&self) -> Seq<(Seq<char>, Seq<char>)> {
        match self.singletons {
            Some(s) => declared_or_none(s.pilot),
            None => Seq::empty(),
        }
    }

    /// The declared ships, none where the declaration has no such list.
    pub open spec fn ships(&self) -> Seq<(Seq<char>, Seq<char>)> {
        match self.singletons {
            Some(s) => declared_or_none(s.ship),
            None => Seq::empty(),
        }
    }

    /// The singles owned after the upgrades of the declaration.
    pub open spec fn singles_after_upgrades(&self) -> Map<ItemId, u32> {
        owned_singles(self.upgrades(), ItemType::Upgrade, Map::empty())
    }

    /// The singles owned after the upgrades and the pilots.
    pub open spec fn singles_after_pilots(&self) -> Map<ItemId, u32> {
        owned_singles(self.pilots(), ItemType::Pilot, self.singles_after_upgrades())
    }

    /// The singles that the declaration comes to: its upgrades, then its
    /// pilots, then its ships.
    pub open spec fn singles(&self) -> Map<ItemId, u32> {
        owned_singles(self.ships(), ItemType::Ship, self.singles_after_pilots())
    }

    /// The names that the declaration repeats: the entries dropped because
    /// their component had a count already, in the order in which the
    /// declaration is read.
    pub open spec fn repeated_singles(&self) -> Seq<Seq<char>> {
        dropped_singles(self.upgrades(), ItemType::Upgrade, Map::empty()) + dropped_singles(
            self.pilots(),
            ItemType::Pilot,
            self.singles_after_upgrades(),
        ) + dropped_singles(self.ships(), ItemType::Ship, self.singles_after_pilots())
    }

    /// Whether every count of the declared singles is a number.
    pub open spec fn singles_valid(&self) -> bool {
        counts_valid(self.upgrades()) && counts_valid(self.pilots()) && counts_valid(self.ships())
    }

    /// Whether the entry whose name is `name` is the first of the declared
    /// singles whose count is no number.
    pub open spec fn first_invalid_single(&self, name: Seq<char>) -> bool {
        ||| exists|i: int|
            first_invalid(self.upgrades(), i) && name == (#[trigger] self.upgrades()[i]).0
        ||| counts_valid(self.upgrades()) && exists|i: int|
            first_invalid(self.pilots(), i) && name == (#[trigger] self.pilots()[i]).0
        ||| counts_valid(self.upgrades()) && counts_valid(self.pilots()) && exists|i: int|
            first_invalid(self.ships(), i) && name == (#[trigger] self.ships()[i]).0
    }

    /// Turns the declared expansions into owned counts by SKU, and lists the
    /// names that the catalog does not know. A count that is no number fails
    /// the whole call; the error holds the name of the first such entry.
    pub fn expansion_skus(&self, catalog: &Catalog) -> (r: Result<
        (SkuCounts, Vec<String>),
        ErrorKind,
    >)
        ensures
            match r {
                Ok((skus, missing)) => {
                    &&& counts_valid(declared(self.expansions@))
                    &&& skus@ == owned_skus(declared(self.expansions@), catalog@)
                    &&& texts(missing@) == unplaced(declared(self.expansions@), catalog@)
                },
                Err(ErrorKind::InvalidCount(s)) => exists|i: int|
                    first_invalid(declared(self.expansions@), i) && s@ == (#[trigger] declared(
                        self.expansions@,
                    )[i]).0,
                Err(_) => false,
            },
    {
        let ghost list = declared(self.expansions@);
        let mut skus: SkuCounts = SkuCounts::new();
        let mut missing: Vec<String> = Vec::new();
        let mut i: usize = 0;
        proof {
            assert(list.take(0) =~= Seq::<(Seq<char>, Seq<char>)>::empty());
            assert(texts(missing@) =~= Seq::<Seq<char>>::empty());
        }
        while i < self.expansions.len()
            invariant
                i <= self.expansions.len(),
                list == declared(self.expansions@),
                counts_valid(list.take(i as int)),
                skus@ == owned_skus(list.take(i as int), catalog@),
                texts(missing@) == unplaced(list.take(i as int), catalog@),
            decreases self.expansions.len() - i,
        {
            let ghost done = list.take(i as int);
            let ghost next = list.take(i + 1);
            proof {
                assert(next.drop_last() =~= done);
                assert(next.last() == list[i as int]);
            }
            let entry = &self.expansions[i];
            match parse_count(entry.1.as_str()) {
                None => {
                    proof {
                        assert forall|k: int| 0 <= k < i implies count_of((#[trigger] list[k]).1)
                            is Some by {
                            assert(done[k] == list[k]);
                        }
                        assert(first_invalid(list, i as int));
                    }
                    return Err(ErrorKind::InvalidCount(entry.0.clone()));
                },
                Some(n) => {
                    if n > 0 {
                        match catalog.find_by_name(entry.0.as_str()) {
                            Some(expansion) => {
                                skus.insert(expansion.sku.clone(), n);
                            },
                            None => {
                                let ghost held = texts(missing@);
                                missing.push(entry.0.clone());
                                assert(texts(missing@) =~= held.push(list[i as int].0));
                            },
                        }
                    }
                    proof {
                        assert forall|k: int| 0 <= k < i + 1 implies count_of(
                            (#[trigger] next[k]).1,
                        ) is Some by {
                            if k < i {
                                assert(done[k] == next[k]);
                            }
                        }
                    }
                },
            }
            i += 1;
        }
        assert(list.take(list.len() as int) =~= list);
        Ok((skus, missing))
    }

    /// Turns the declared singles into owned counts by component, and lists
    /// the names that were dropped because an earlier entry stands for the
    /// same component. A count that is no number fails the whole call; the
    /// error holds the name of the first such entry.
    pub fn singles_as_xws(&self) -> (r: Result<(Inventory, Vec<String>), ErrorKind>)
        ensures
            match r {
                Ok((owned, dropped)) => {
                    &&& self.singles_valid()
                    &&& owned@ == self.singles()
                    &&& texts(dropped@) == self.repeated_singles()
                },
                Err(ErrorKind::InvalidCount(s)) => self.first_invalid_single(s@),
                Err(_) => false,
            },
    {
        let mut owned: Inventory = Inventory::new();
        let mut dropped: Vec<String> = Vec::new();
        assert(texts(dropped@) =~= Seq::<Seq<char>>::empty());
        if let Some(singles) = &self.singletons {
            if let Some(list) = &singles.upgrade {
                assert(self.upgrades() == declared(list@));
                match add_singles(list, ItemType::Upgrade, &mut owned, &mut dropped) {
                    Ok(_) => {},
                    Err(e) => {
                        return Err(e);
                    },
                }
            }
            assert(texts(dropped@) =~= dropped_singles(
                self.upgrades(),
                ItemType::Upgrade,
                Map::empty(),
            ));
            if let Some(list) = &singles.pilot {
                assert(self.pilots() == declared(list@));
                match add_singles(list, ItemType::Pilot, &mut owned, &mut dropped) {
                    Ok(_) => {},
                    Err(e) => {
                        return Err(e);
                    },
                }
            }
            assert(counts_valid(self.upgrades()) && counts_valid(self.pilots()));
            let ghost noted = texts(dropped@);
            assert(noted =~= dropped_singles(self.upgrades(), ItemType::Upgrade, Map::empty())
                + dropped_singles(self.pilots(), ItemType::Pilot, self.singles_after_upgrades()));
            if let Some(list) = &singles.ship {
                assert(self.ships() == declared(list@));
                match add_singles(list, ItemType::Ship, &mut owned, &mut dropped) {
                    Ok(_) => {},
                    Err(e) => {
                        return Err(e);
                    },
                }
            }
            assert(texts(dropped@) =~= self.repeated_singles());
        } else {
            assert(texts(dropped@) =~= self.repeated_singles());
        }
        Ok((owned, dropped))
    }
}

/// The counts of `inventory` for the components of one kind, by xws id.
pub open spec fn counts_of_kind(inventory: Map<ItemId, u32>, kind: ItemType) -> Map<
    Seq<char>,
    u32,
> {
    Map::new(
        |xws: Seq<char>| inventory.contains_key(ItemId { kind, xws }),
        |xws: Seq<char>| inventory[ItemId { kind, xws }],
    )
}

/// The counts of an inventory for the components of one kind, by xws id.
pub fn of_kind(inventory: &Inventory, kind: ItemType) -> (r: Counts<String>)
    ensures
        r@ == counts_of_kind(inventory@, kind),
{
    let ghost entries = inventory.entries();
    let mut r: Counts<String> = Counts::new();
    let count = inventory.len();
    let mut i: usize = 0;
    proof {
        use_type_invariant(inventory);
        lemma_increasing_distinct::<Item>(entries);
    }
    while i < count
        invariant
            i <= count,
            count == entries.len(),
            entries == inventory.entries(),
            forall|k: int| 0 <= k < entries.len() ==> inventory@.contains_key(
                (#[trigger] entries[k]).0,
            ) && inventory@[entries[k].0] == entries[k].1,
            forall|xws: Seq<char>| #[trigger]
                r@.contains_key(xws) <==> exists|k: int|
                    0 <= k < i && (#[trigger] entries[k]).0 == (ItemId { kind, xws }),
            forall|xws: Seq<char>| #[trigger]
                r@.contains_key(xws) ==> r@[xws] == inventory@[ItemId { kind, xws }],
        decreases count - i,
    {
        let item = inventory.key(i);
        let n = inventory.count(i);
        let ghost before = r@;
        if item.kind == kind {
            r.insert(item.xws.clone(), n);
            proof {
                assert(entries[i as int].0 == (ItemId { kind, xws: item.xws@ }));
                assert forall|xws: Seq<char>| #[trigger]
                    r@.contains_key(xws) <==> exists|k: int|
                        0 <= k < i + 1 && (#[trigger] entries[k]).0 == (ItemId { kind, xws }) by {
                    if before.contains_key(xws) {
                        let k = choose|k: int|
                            0 <= k < i && (#[trigger] entries[k]).0 == (ItemId { kind, xws });
                        assert(entries[k].0 == (ItemId { kind, xws }));
                    }
                    if exists|k: int|
                        0 <= k < i + 1 && (#[trigger] entries[k]).0 == (ItemId { kind, xws }) {
                        let k = choose|k: int|
                            0 <= k < i + 1 && (#[trigger] entries[k]).0 == (ItemId { kind, xws });
                        if k < i {
                            assert(before.contains_key(xws));
                        }
                    }
                }
            }
        } else {
            proof {
                assert forall|xws: Seq<char>| #[trigger]
                    r@.contains_key(xws) <==> exists|k: int|
                        0 <= k < i + 1 && (#[trigger] entries[k]).0 == (ItemId { kind, xws }) by {
                    if before.contains_key(xws) {
                        let k = choose|k: int|
                            0 <= k < i && (#[trigger] entries[k]).0 == (ItemId { kind, xws });
                        assert(entries[k].0 == (ItemId { kind, xws }));
                    }
                    if exists|k: int|
                        0 <= k < i + 1 && (#[trigger] entries[k]).0 == (ItemId { kind, xws }) {
                        let k = choose|k: int|
                            0 <= k < i + 1 && (#[trigger] entries[k]).0 == (ItemId { kind, xws });
                        assert(k < i);
                        assert(before.contains_key(xws));
                    }
                }
            }
        }
        i += 1;
    }
    proof {
        assert forall|xws: Seq<char>| r@.contains_key(xws) <==> inventory@.contains_key(
            ItemId { kind, xws },
        ) by {
            let id = ItemId { kind, xws };
            if inventory@.contains_key(id) {
                let k = position(entries, id);
                assert(entries[k].0 == id);
            }
            if r@.contains_key(xws) {
                let k = choose|k: int| 0 <= k < i && (#[trigger] entries[k]).0 == id;
                assert(inventory@.contains_key(entries[k].0));
            }
        }
        assert(r@ =~= counts_of_kind(inventory@, kind));
    }
    r
}

/// The owned pilots and upgrades of a declared collection, by xws id, with
/// the declared expansions that the catalog cannot place and the declared
/// singles that were dropped as repeats.
///
/// The declaration is resolved as [`Collection::singles_as_xws`] and
/// [`Collection::expansion_skus`] resolve it, and what the owned expansions
/// hold is added to the singles. A count that is no number fails the call,
/// one among the singles before one among the expansions; where all counts
/// are numbers, a total that does not fit in 32 bits fails it.
pub fn collection_to_xws_count(collection: &Collection, catalog: &Catalog) -> (r: Result<
    (Counts<String>, Counts<String>, Vec<String>, Vec<String>),
    ErrorKind,
>)
    ensures
        match r {
            Ok((pilots, upgrades, not_found, dropped)) => {
                let owned = listing_of::<String>(
                    owned_skus(declared(collection.expansions@), catalog@),
                );
                let inventory = aggregate(collection.singles(), owned, catalog@);
                &&& collection.singles_valid()
                &&& counts_valid(declared(collection.expansions@))
                &&& fits(collection.singles(), owned, catalog@)
                &&& pilots@ == counts_of_kind(inventory, ItemType::Pilot)
                &&& upgrades@ == counts_of_kind(inventory, ItemType::Upgrade)
                &&& texts(not_found@) == unplaced(declared(collection.expansions@), catalog@)
                &&& texts(dropped@) == collection.repeated_singles()
            },
            Err(ErrorKind::InvalidCount(s)) => {
                ||| collection.first_invalid_single(s@)
                ||| collection.singles_valid() && exists|i: int|
                    first_invalid(declared(collection.expansions@), i) && s@ == (
                    #[trigger] declared(collection.expansions@)[i]).0
            },
            Err(ErrorKind::Overflow) => {
                &&& collection.singles_valid()
                &&& counts_valid(declared(collection.expansions@))
                &&& !fits(
                    collection.singles(),
                    listing_of::<String>(owned_skus(declared(collection.expansions@), catalog@)),
                    catalog@,
                )
            },
            Err(_) => false,
        },
{
    let (singles, dropped) = match collection.singles_as_xws() {
        Ok(found) => found,
        Err(e) => {
            return Err(e);
        },
    };
    let (skus, not_found) = match collection.expansion_skus(catalog) {
        Ok(found) => found,
        Err(e) => {
            return Err(e);
        },
    };
    let owned = crate::Collection { skus, singles };
    proof {
        use_type_invariant(&owned.skus);
        owned.skus.lemma_entries_are_listing();
    }
    match owned.checked_inventory(catalog) {
        None => Err(ErrorKind::Overflow),
        Some((inventory, _)) => {
            let pilots = of_kind(&inventory, ItemType::Pilot);
            let upgrades = of_kind(&inventory, ItemType::Upgrade);
            Ok((pilots, upgrades, not_found, dropped))
        },
    }
}

} // verus!
