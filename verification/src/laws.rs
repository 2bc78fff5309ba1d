use crate::card::CardView;
use crate::catalog::{named, CatalogView, LinkView};
use crate::deck::copies;
use crate::error::LogError;
use crate::log::{
    cards_marker, cards_on, inventory_marker, inventory_on, latest_cards, latest_inventory,
    later_or,
};
use crate::reconcile::{first_fault, gathered, reconciled, resolved, selected, Resolution};
use crate::record::{cards_in_text, inventory_in_text};
use crate::text::payload_after;
use vstd::prelude::*;
use vstd::seq_lib::{to_multiset_contains, to_multiset_len, to_multiset_remove};

verus! {

/// The latest cards record of two runs of lines, one behind the other, is
/// that of the second run where it has one, and else that of the first.
pub proof fn latest_cards_of_two_runs(first: Seq<Seq<char>>, second: Seq<Seq<char>>)
    ensures
        latest_cards(first + second) == later_or(latest_cards(second), latest_cards(first)),
    decreases first.len(),
{
    if first.len() == 0 {
        assert(first + second =~= second);
    } else {
        assert((first + second).drop_first() =~= first.drop_first() + second);
        latest_cards_of_two_runs(first.drop_first(), second);
    }
}

/// The latest inventory record of two runs of lines, one behind the other,
/// is that of the second run where it has one, and else that of the first.
pub proof fn latest_inventory_of_two_runs(first: Seq<Seq<char>>, second: Seq<Seq<char>>)
    ensures
        latest_inventory(first + second) == later_or(
            latest_inventory(second),
            latest_inventory(first),
        ),
    decreases first.len(),
{
    if first.len() == 0 {
        assert(first + second =~= second);
    } else {
        assert((first + second).drop_first() =~= first.drop_first() + second);
        latest_inventory_of_two_runs(first.drop_first(), second);
    }
}

/// The cards record that is kept is the one of the last line that carries a
/// cards record, however many lines carry one. None is kept only where no
/// line carries one. `Log::from_str` keeps `latest_cards` of the lines of
/// its text.
pub proof fn latest_cards_is_last_carried(lines: Seq<Seq<char>>)
    ensures
        match latest_cards(lines) {
            Some(record) => exists|i: int|
                0 <= i < lines.len() && cards_on(#[trigger] lines[i]) == Some(record) && forall|
                    j: int,
                | i < j < lines.len() ==> cards_on(#[trigger] lines[j]) is None,
            None => forall|i: int| 0 <= i < lines.len() ==> cards_on(#[trigger] lines[i]) is None,
        },
    decreases lines.len(),
{
    if lines.len() > 0 {
        let rest = lines.drop_first();
        latest_cards_is_last_carried(rest);
        assert forall|j: int| 0 <= j < rest.len() implies rest[j] == lines[j + 1] by {}
        match latest_cards(rest) {
            Some(record) => {
                let i = choose|i: int|
                    0 <= i < rest.len() && cards_on(#[trigger] rest[i]) == Some(record) && forall|
                        j: int,
                    | i < j < rest.len() ==> cards_on(#[trigger] rest[j]) is None;
                assert(lines[i + 1] == rest[i]);
                assert forall|j: int| i + 1 < j < lines.len() implies cards_on(
                    #[trigger] lines[j],
                ) is None by {
                    assert(lines[j] == rest[j - 1]);
                }
            },
            None => {
                assert forall|j: int| 0 < j < lines.len() implies cards_on(
                    #[trigger] lines[j],
                ) is None by {
                    assert(lines[j] == rest[j - 1]);
                }
                if cards_on(lines[0]) is Some {
                    assert(cards_on(lines[0]) == latest_cards(lines));
                }
            },
        }
    }
}

/// The inventory record that is kept is the one of the last line that
/// carries an inventory record, however many lines carry one. None is kept
/// only where no line carries one. `Log::from_str` keeps `latest_inventory`
/// of the lines of its text.
pub proof fn latest_inventory_is_last_carried(lines: Seq<Seq<char>>)
    ensures
        match latest_inventory(lines) {
            Some(record) => exists|i: int|
                0 <= i < lines.len() && inventory_on(#[trigger] lines[i]) == Some(record)
                    && forall|j: int|
                    i < j < lines.len() ==> inventory_on(#[trigger] lines[j]) is None,
            None => forall|i: int|
                0 <= i < lines.len() ==> inventory_on(#[trigger] lines[i]) is None,
        },
    decreases lines.len(),
{
    if lines.len() > 0 {
        let rest = lines.drop_first();
        latest_inventory_is_last_carried(rest);
        assert forall|j: int| 0 <= j < rest.len() implies rest[j] == lines[j + 1] by {}
        match latest_inventory(rest) {
            Some(record) => {
                let i = choose|i: int|
                    0 <= i < rest.len() && inventory_on(#[trigger] rest[i]) == Some(record)
                        && forall|j: int|
                        i < j < rest.len() ==> inventory_on(#[trigger] rest[j]) is None;
                assert(lines[i + 1] == rest[i]);
                assert forall|j: int| i + 1 < j < lines.len() implies inventory_on(
                    #[trigger] lines[j],
                ) is None by {
                    assert(lines[j] == rest[j - 1]);
                }
            },
            None => {
                assert forall|j: int| 0 < j < lines.len() implies inventory_on(
                    #[trigger] lines[j],
                ) is None by {
                    assert(lines[j] == rest[j - 1]);
                }
                if inventory_on(lines[0]) is Some {
                    assert(inventory_on(lines[0]) == latest_inventory(lines));
                }
            },
        }
    }
}

/// A line that carries no record, such as one with a malformed payload
/// behind its marker, changes nothing: the records kept are those of the
/// lines around it.
pub proof fn line_without_record_changes_nothing(lines: Seq<Seq<char>>, i: int)
    requires
        0 <= i < lines.len(),
    ensures
        cards_on(lines[i]) is None ==> latest_cards(lines) == latest_cards(lines.remove(i)),
        inventory_on(lines[i]) is None ==> latest_inventory(lines) == latest_inventory(
            lines.remove(i),
        ),
{
    let before = lines.take(i);
    let line = seq![lines[i]];
    let after = lines.skip(i + 1);
    assert(lines =~= before + (line + after));
    assert(lines.remove(i) =~= before + after);
    assert((line + after).drop_first() =~= after);
    latest_cards_of_two_runs(before, line + after);
    latest_cards_of_two_runs(before, after);
    latest_inventory_of_two_runs(before, line + after);
    latest_inventory_of_two_runs(before, after);
}

/// A line is passed over where the payload behind its marker is malformed,
/// and where it has neither marker: the records kept are those of the lines
/// before it and behind it.
pub proof fn malformed_payload_is_passed_over(lines: Seq<Seq<char>>, i: int)
    requires
        0 <= i < lines.len(),
        match payload_after(lines[i], cards_marker()) {
            Some(payload) => cards_in_text(payload) is None,
            None => match payload_after(lines[i], inventory_marker()) {
                Some(payload) => inventory_in_text(payload) is None,
                None => true,
            },
        },
    ensures
        cards_on(lines[i]) is None,
        inventory_on(lines[i]) is None,
        latest_cards(lines) == latest_cards(lines.remove(i)),
        latest_inventory(lines) == latest_inventory(lines.remove(i)),
{
    reveal(cards_on);
    reveal(inventory_on);
    line_without_record_changes_nothing(lines, i);
}

/// What one pair adds to the copies of `card`: its count where its arena id
/// is found to be `card`, else nothing.
pub open spec fn share(catalog: CatalogView, pair: (u64, usize), card: CardView) -> nat {
    if resolved(catalog, pair.0) == Resolution::Found(card) {
        pair.1 as nat
    } else {
        0
    }
}

/// What `pairs` add to the copies of `card`, all together.
pub open spec fn total(catalog: CatalogView, pairs: Seq<(u64, usize)>, card: CardView) -> nat
    decreases pairs.len(),
{
    if pairs.len() == 0 {
        0
    } else {
        total(catalog, pairs.drop_last(), card) + share(catalog, pairs.last(), card)
    }
}

/// Whether the arena id of one of `pairs` is found to be `card`.
pub open spec fn finds(catalog: CatalogView, pairs: Seq<(u64, usize)>, card: CardView) -> bool {
    exists|i: int|
        0 <= i < pairs.len() && resolved(catalog, (#[trigger] pairs[i]).0) == Resolution::Found(
            card,
        )
}

/// Whether the catalog contradicts itself on the arena id of one of `pairs`.
pub open spec fn faulty(catalog: CatalogView, pairs: Seq<(u64, usize)>) -> bool {
    exists|i: int| 0 <= i < pairs.len() && resolved(catalog, (#[trigger] pairs[i]).0) is Broken
}

/// The collection holds exactly the cards that some pair finds, each with
/// the sum of the counts of the pairs that find it.
pub proof fn gathered_sums_by_card(catalog: CatalogView, pairs: Seq<(u64, usize)>, card: CardView)
    ensures
        gathered(catalog, pairs).contains_key(card) == finds(catalog, pairs, card),
        copies(gathered(catalog, pairs), card) == total(catalog, pairs, card),
    decreases pairs.len(),
{
    if pairs.len() > 0 {
        let fewer = pairs.drop_last();
        gathered_sums_by_card(catalog, fewer, card);
        if finds(catalog, fewer, card) {
            let i = choose|i: int|
                0 <= i < fewer.len() && resolved(catalog, (#[trigger] fewer[i]).0)
                    == Resolution::Found(card);
            assert(pairs[i] == fewer[i]);
        }
        if finds(catalog, pairs, card) {
            let i = choose|i: int|
                0 <= i < pairs.len() && resolved(catalog, (#[trigger] pairs[i]).0)
                    == Resolution::Found(card);
            if i < fewer.len() {
                assert(pairs[i] == fewer[i]);
            }
        }
        if resolved(catalog, pairs.last().0) == Resolution::Found(card) {
            assert(pairs[pairs.len() - 1] == pairs.last());
        }
    }
}

/// A reconciliation fails exactly where the catalog contradicts itself on
/// the arena id of some pair.
pub proof fn fails_where_faulty(catalog: CatalogView, pairs: Seq<(u64, usize)>)
    ensures
        reconciled(catalog, pairs) is Err == faulty(catalog, pairs),
    decreases pairs.len(),
{
    if pairs.len() > 0 {
        let fewer = pairs.drop_last();
        fails_where_faulty(catalog, fewer);
        if faulty(catalog, fewer) {
            let i = choose|i: int|
                0 <= i < fewer.len() && resolved(catalog, (#[trigger] fewer[i]).0) is Broken;
            assert(pairs[i] == fewer[i]);
        }
        if faulty(catalog, pairs) {
            let i = choose|i: int|
                0 <= i < pairs.len() && resolved(catalog, (#[trigger] pairs[i]).0) is Broken;
            if i < fewer.len() {
                assert(pairs[i] == fewer[i]);
            }
        }
        if resolved(catalog, pairs.last().0) is Broken {
            assert(pairs[pairs.len() - 1] == pairs.last());
        }
    }
}

proof fn lemma_total_without(catalog: CatalogView, pairs: Seq<(u64, usize)>, i: int, card: CardView)
    requires
        0 <= i < pairs.len(),
    ensures
        total(catalog, pairs, card) == total(catalog, pairs.remove(i), card) + share(
            catalog,
            pairs[i],
            card,
        ),
    decreases pairs.len(),
{
    if i == pairs.len() - 1 {
        assert(pairs.remove(i) =~= pairs.drop_last());
    } else {
        assert(pairs.remove(i).drop_last() =~= pairs.drop_last().remove(i));
        assert(pairs.remove(i).last() == pairs.last());
        lemma_total_without(catalog, pairs.drop_last(), i, card);
    }
}

proof fn lemma_total_permuted(
    catalog: CatalogView,
    pairs: Seq<(u64, usize)>,
    permuted: Seq<(u64, usize)>,
    card: CardView,
)
    requires
        pairs.to_multiset() == permuted.to_multiset(),
    ensures
        total(catalog, pairs, card) == total(catalog, permuted, card),
    decreases pairs.len(),
{
    to_multiset_len(pairs);
    to_multiset_len(permuted);
    if pairs.len() > 0 {
        let last = pairs.last();
        assert(pairs[pairs.len() - 1] == last);
        assert(pairs.contains(last));
        to_multiset_contains(pairs, last);
        to_multiset_contains(permuted, last);
        let j = choose|j: int| 0 <= j < permuted.len() && permuted[j] == last;
        to_multiset_remove(pairs, pairs.len() - 1);
        to_multiset_remove(permuted, j);
        assert(pairs.remove(pairs.len() - 1) =~= pairs.drop_last());
        lemma_total_permuted(catalog, pairs.drop_last(), permuted.remove(j), card);
        lemma_total_without(catalog, permuted, j, card);
    }
}

proof fn lemma_finds_permuted(
    catalog: CatalogView,
    pairs: Seq<(u64, usize)>,
    permuted: Seq<(u64, usize)>,
    card: CardView,
)
    requires
        pairs.to_multiset() == permuted.to_multiset(),
        finds(catalog, pairs, card),
    ensures
        finds(catalog, permuted, card),
{
    let i = choose|i: int|
        0 <= i < pairs.len() && resolved(catalog, (#[trigger] pairs[i]).0) == Resolution::Found(
            card,
        );
    assert(pairs.contains(pairs[i]));
    to_multiset_contains(pairs, pairs[i]);
    to_multiset_contains(permuted, pairs[i]);
    let j = choose|j: int| 0 <= j < permuted.len() && permuted[j] == pairs[i];
    assert(resolved(catalog, permuted[j].0) == Resolution::Found(card));
}

proof fn lemma_faulty_permuted(
    catalog: CatalogView,
    pairs: Seq<(u64, usize)>,
    permuted: Seq<(u64, usize)>,
)
    requires
        pairs.to_multiset() == permuted.to_multiset(),
        faulty(catalog, pairs),
    ensures
        faulty(catalog, permuted),
{
    let i = choose|i: int|
        0 <= i < pairs.len() && resolved(catalog, (#[trigger] pairs[i]).0) is Broken;
    assert(pairs.contains(pairs[i]));
    to_multiset_contains(pairs, pairs[i]);
    to_multiset_contains(permuted, pairs[i]);
    let j = choose|j: int| 0 <= j < permuted.len() && permuted[j] == pairs[i];
    assert(resolved(catalog, permuted[j].0) is Broken);
}

/// The order of the pairs does not matter: the same pairs in another order
/// add up to the same collection, and their reconciliation fails if and only
/// if it failed in the first order.
pub proof fn reconciliation_ignores_order(
    catalog: CatalogView,
    pairs: Seq<(u64, usize)>,
    permuted: Seq<(u64, usize)>,
)
    requires
        pairs.to_multiset() == permuted.to_multiset(),
    ensures
        gathered(catalog, pairs) == gathered(catalog, permuted),
        reconciled(catalog, pairs) is Ok == reconciled(catalog, permuted) is Ok,
        reconciled(catalog, pairs) is Ok ==> reconciled(catalog, pairs) == reconciled(
            catalog,
            permuted,
        ),
{
    let one = gathered(catalog, pairs);
    let other = gathered(catalog, permuted);
    assert forall|card: CardView| one.contains_key(card) == other.contains_key(card) by {
        gathered_sums_by_card(catalog, pairs, card);
        gathered_sums_by_card(catalog, permuted, card);
        if finds(catalog, pairs, card) {
            lemma_finds_permuted(catalog, pairs, permuted, card);
        }
        if finds(catalog, permuted, card) {
            lemma_finds_permuted(catalog, permuted, pairs, card);
        }
    }
    assert forall|card: CardView| one.contains_key(card) implies one[card] == other[card] by {
        gathered_sums_by_card(catalog, pairs, card);
        gathered_sums_by_card(catalog, permuted, card);
        lemma_total_permuted(catalog, pairs, permuted, card);
    }
    assert(one =~= other);
    fails_where_faulty(catalog, pairs);
    fails_where_faulty(catalog, permuted);
    if faulty(catalog, pairs) {
        lemma_faulty_permuted(catalog, pairs, permuted);
    }
    if faulty(catalog, permuted) {
        lemma_faulty_permuted(catalog, permuted, pairs);
    }
}

/// A pair whose arena id is skipped changes nothing, wherever it stands
/// among the pairs.
pub proof fn skipped_pair_changes_nothing(
    catalog: CatalogView,
    pairs: Seq<(u64, usize)>,
    i: int,
    pair: (u64, usize),
)
    requires
        0 <= i <= pairs.len(),
        resolved(catalog, pair.0) == Resolution::Skipped,
    ensures
        reconciled(catalog, pairs.insert(i, pair)) == reconciled(catalog, pairs),
        gathered(catalog, pairs.insert(i, pair)) == gathered(catalog, pairs),
        first_fault(catalog, pairs.insert(i, pair)) == first_fault(catalog, pairs),
    decreases pairs.len() - i,
{
    let more = pairs.insert(i, pair);
    if i == pairs.len() {
        assert(more.drop_last() =~= pairs);
        assert(more.last() == pair);
    } else {
        assert(more.drop_last() =~= pairs.drop_last().insert(i, pair));
        assert(more.last() == pairs.last());
        skipped_pair_changes_nothing(catalog, pairs.drop_last(), i, pair);
    }
}

/// An arena id that the arena mapping does not record is skipped: a pair
/// with it changes neither the collection nor whether the reconciliation
/// succeeds, and the collection does not hold a card on its account.
pub proof fn unknown_arena_id_is_skipped(
    catalog: CatalogView,
    pairs: Seq<(u64, usize)>,
    i: int,
    arena_id: u64,
    count: usize,
)
    requires
        0 <= i <= pairs.len(),
        catalog.link(arena_id) is None,
    ensures
        resolved(catalog, arena_id) == Resolution::Skipped,
        reconciled(catalog, pairs.insert(i, (arena_id, count))) == reconciled(catalog, pairs),
        forall|card: CardView| share(catalog, (arena_id, count), card) == 0,
{
    skipped_pair_changes_nothing(catalog, pairs, i, (arena_id, count));
}

/// An arena id that the arena mapping records with an empty catalog id is
/// skipped in the same way.
pub proof fn unmapped_arena_id_is_skipped(
    catalog: CatalogView,
    pairs: Seq<(u64, usize)>,
    i: int,
    arena_id: u64,
    count: usize,
)
    requires
        0 <= i <= pairs.len(),
        catalog.link(arena_id) matches Some(link) && link.catalog_id.len() == 0,
    ensures
        resolved(catalog, arena_id) == Resolution::Skipped,
        reconciled(catalog, pairs.insert(i, (arena_id, count))) == reconciled(catalog, pairs),
{
    skipped_pair_changes_nothing(catalog, pairs, i, (arena_id, count));
}

/// Where the card under the catalog id has the expected name, it is the card
/// selected, whatever the catalog holds under that name: a second catalog
/// that agrees with the first on the arena id and on the catalog id comes to
/// the same outcome.
pub proof fn matching_name_selects_by_id(
    catalog: CatalogView,
    other: CatalogView,
    arena_id: u64,
    link: LinkView,
    card: CardView,
)
    requires
        catalog.link(arena_id) == Some(link),
        link.catalog_id.len() > 0,
        catalog.by_id(link.catalog_id) == Some(card),
        card.name == link.name,
        other.link(arena_id) == Some(link),
        other.by_id(link.catalog_id) == Some(card),
    ensures
        selected(catalog, arena_id, link) == Ok::<CardView, LogError>(card),
        resolved(catalog, arena_id) == if card.arena_id != 0 && card.arena_id != arena_id {
            Resolution::Broken(LogError::ArenaIdConflict { arena_id, bound_to: card.arena_id })
        } else {
            Resolution::Found(card)
        },
        resolved(other, arena_id) == resolved(catalog, arena_id),
{
}

/// The first of the cards under a name is the first card of that name in
/// the order of the cards.
pub proof fn first_named_is_first_in_order(cards: Seq<CardView>, name: Seq<char>)
    ensures
        named(cards, name).len() > 0 <==> exists|i: int|
            0 <= i < cards.len() && (#[trigger] cards[i]).name == name,
        named(cards, name).len() > 0 ==> exists|i: int|
            0 <= i < cards.len() && #[trigger] cards[i] == named(cards, name)[0] && cards[i].name
                == name && forall|j: int| 0 <= j < i ==> (#[trigger] cards[j]).name != name,
    decreases cards.len(),
{
    if cards.len() > 0 {
        let fewer = cards.drop_last();
        first_named_is_first_in_order(fewer, name);
        assert forall|j: int| 0 <= j < fewer.len() implies fewer[j] == cards[j] by {}
        if named(fewer, name).len() > 0 {
            let i = choose|i: int|
                0 <= i < fewer.len() && #[trigger] fewer[i] == named(fewer, name)[0]
                    && fewer[i].name == name && forall|j: int|
                    0 <= j < i ==> (#[trigger] fewer[j]).name != name;
            assert(cards[i] == fewer[i]);
            assert forall|j: int| 0 <= j < i implies (#[trigger] cards[j]).name != name by {
                assert(cards[j] == fewer[j]);
            }
            assert(named(cards, name)[0] == named(fewer, name)[0]);
        } else {
            assert forall|j: int| 0 <= j < fewer.len() implies (#[trigger] cards[j]).name
                != name by {
                assert(cards[j] == fewer[j]);
            }
            if cards.last().name == name {
                assert(cards[cards.len() - 1] == cards.last());
                assert(named(cards, name)[0] == cards.last());
            }
        }
        if exists|i: int| 0 <= i < cards.len() && (#[trigger] cards[i]).name == name {
            let i = choose|i: int| 0 <= i < cards.len() && (#[trigger] cards[i]).name == name;
            if i < fewer.len() {
                assert(fewer[i] == cards[i]);
            }
        }
    }
}

/// Where the card under the catalog id has another name than the expected
/// one, the card selected is the first that the catalog holds under the
/// expected name: the first card of that name in the catalog's order.
pub proof fn differing_name_selects_first_by_name(
    catalog: CatalogView,
    arena_id: u64,
    link: LinkView,
    card: CardView,
)
    requires
        catalog.link(arena_id) == Some(link),
        link.catalog_id.len() > 0,
        catalog.by_id(link.catalog_id) == Some(card),
        card.name != link.name,
        catalog.by_name(link.name).len() > 0,
    ensures
        selected(catalog, arena_id, link) == Ok::<CardView, LogError>(
            catalog.by_name(link.name)[0],
        ),
        exists|i: int|
            0 <= i < catalog.cards.len() && #[trigger] catalog.cards[i] == catalog.by_name(
                link.name,
            )[0] && catalog.cards[i].name == link.name && forall|j: int|
                0 <= j < i ==> (#[trigger] catalog.cards[j]).name != link.name,
{
    first_named_is_first_in_order(catalog.cards, link.name);
}

} // verus!
