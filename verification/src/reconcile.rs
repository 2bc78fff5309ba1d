use crate::card::{Card, CardView};
use crate::catalog::{Catalog, CatalogView, LinkView};
use crate::deck::{copies, with_copies, Deck};
use crate::error::LogError;
use vstd::prelude::*;

verus! {

/// Why an arena id is left out of a collection.
#[derive(Debug, Clone, Copy, PartialEq, Eq, Structural)]
pub enum Skip {
    /// The arena mapping does not record the arena id.
    UnknownArenaId,
    /// The arena mapping records the arena id with an empty catalog id.
    NoCatalogId,
}

/// What becomes of one arena id when it is held against the catalog.
pub enum Resolution {
    /// The catalog knows no card for the arena id: the id is left out.
    Skipped,
    /// The card that stands for the arena id.
    Found(CardView),
    /// The catalog contradicts itself on the arena id.
    Broken(LogError),
}

/// The card that the two lookups select for `arena_id`, where `link` is what
/// the arena mapping records for it. The card under the catalog id is taken
/// if it has the expected name. If it has another name, the first card under
/// the expected name is taken in its place.
pub open spec fn selected(catalog: CatalogView, arena_id: u64, link: LinkView) -> Result<
    CardView,
    LogError,
> {
    match catalog.by_id(link.catalog_id) {
        Some(card) => {
            if card.name == link.name {
                Ok(card)
            } else if catalog.by_name(link.name).len() > 0 {
                Ok(catalog.by_name(link.name)[0])
            } else {
                Err(LogError::UnknownName { arena_id })
            }
        },
        None => Err(LogError::UnknownCatalogId { arena_id }),
    }
}

/// Why `arena_id` is left out, where it is: the arena mapping does not
/// record it, or records it with an empty catalog id.
pub open spec fn skip_of(catalog: CatalogView, arena_id: u64) -> Option<Skip> {
    match catalog.link(arena_id) {
        Some(link) => {
            if link.catalog_id.len() == 0 {
                Some(Skip::NoCatalogId)
            } else {
                None
            }
        },
        None => Some(Skip::UnknownArenaId),
    }
}

/// What becomes of `arena_id`. Where it is not left out, the card selected
/// for it is found, unless that card is bound to another arena id.
pub open spec fn resolved(catalog: CatalogView, arena_id: u64) -> Resolution {
    match skip_of(catalog, arena_id) {
        Some(_) => Resolution::Skipped,
        None => match selected(catalog, arena_id, catalog.links[arena_id]) {
            Ok(card) => {
                if card.arena_id != 0 && card.arena_id != arena_id {
                    Resolution::Broken(
                        LogError::ArenaIdConflict { arena_id, bound_to: card.arena_id },
                    )
                } else {
                    Resolution::Found(card)
                }
            },
            Err(e) => Resolution::Broken(e),
        },
    }
}

/// The arena ids of `pairs` that are left out, each with the reason, in the
/// order of the pairs.
pub open spec fn skips(catalog: CatalogView, pairs: Seq<(u64, usize)>) -> Seq<(u64, Skip)>
    decreases pairs.len(),
{
    if pairs.len() == 0 {
        Seq::empty()
    } else {
        match skip_of(catalog, pairs.last().0) {
            Some(why) => skips(catalog, pairs.drop_last()).push((pairs.last().0, why)),
            None => skips(catalog, pairs.drop_last()),
        }
    }
}

/// The collection that `pairs` of arena id and count add up to: each pair
/// whose arena id is found adds its count to the copies of the card found.
pub open spec fn gathered(catalog: CatalogView, pairs: Seq<(u64, usize)>) -> Map<CardView, nat>
    decreases pairs.len(),
{
    if pairs.len() == 0 {
        Map::empty()
    } else {
        let before = gathered(catalog, pairs.drop_last());
        match resolved(catalog, pairs.last().0) {
            Resolution::Found(card) => with_copies(before, card, pairs.last().1 as nat),
            _ => before,
        }
    }
}

/// The error of the first of `pairs` on whose arena id the catalog
/// contradicts itself.
pub open spec fn first_fault(catalog: CatalogView, pairs: Seq<(u64, usize)>) -> Option<LogError>
    decreases pairs.len(),
{
    if pairs.len() == 0 {
        None
    } else {
        match first_fault(catalog, pairs.drop_last()) {
            Some(e) => Some(e),
            None => match resolved(catalog, pairs.last().0) {
                Resolution::Broken(e) => Some(e),
                _ => None,
            },
        }
    }
}

/// The collection that `pairs` reconcile to, or the first fault where there
/// is one.
pub open spec fn reconciled(catalog: CatalogView, pairs: Seq<(u64, usize)>) -> Result<
    Map<CardView, nat>,
    LogError,
> {
    match first_fault(catalog, pairs) {
        Some(e) => Err(e),
        None => Ok(gathered(catalog, pairs)),
    }
}

/// Holds one arena id against the catalog: `Ok(None)` where it is skipped.
pub fn resolve(catalog: &Catalog, arena_id: u64) -> (outcome: Result<Option<Card>, LogError>)
    ensures
        match outcome {
            Ok(Some(card)) => resolved(catalog@, arena_id) == Resolution::Found(card@),
            Ok(None) => resolved(catalog@, arena_id) == Resolution::Skipped,
            Err(e) => resolved(catalog@, arena_id) == Resolution::Broken(e),
        },
{
    let link = match catalog.lookup_arena_id(arena_id) {
        Some(link) => link,
        None => { return Ok(None); },
    };
    if link.catalog_id.as_str().is_empty() {
        return Ok(None);
    }
    let primary = match catalog.lookup_by_id(&link.catalog_id) {
        Some(card) => card,
        None => { return Err(LogError::UnknownCatalogId { arena_id }); },
    };
    let card = if primary.name == link.name {
        primary.clone()
    } else {
        let candidates = catalog.lookup_by_name(&link.name);
        if candidates.len() == 0 {
            return Err(LogError::UnknownName { arena_id });
        }
        candidates[0].clone()
    };
    if card.arena_id != 0 && card.arena_id != arena_id {
        return Err(LogError::ArenaIdConflict { arena_id, bound_to: card.arena_id });
    }
    Ok(Some(card))
}

/// Lists the arena ids of `pairs` that a reconciliation leaves out, for a
/// caller that wants to warn of them.
pub fn skipped(catalog: &Catalog, pairs: &Vec<(u64, usize)>) -> (left_out: Vec<(u64, Skip)>)
    ensures
        left_out@ == skips(catalog@, pairs@),
{
    let mut left_out: Vec<(u64, Skip)> = Vec::new();
    let mut i: usize = 0;
    while i < pairs.len()
        invariant
            i <= pairs@.len(),
            left_out@ == skips(catalog@, pairs@.take(i as int)),
        decreases pairs@.len() - i,
    {
        assert(pairs@.take(i + 1).drop_last() =~= pairs@.take(i as int));
        let arena_id = pairs[i].0;
        match catalog.lookup_arena_id(arena_id) {
            Some(link) => {
                if link.catalog_id.as_str().is_empty() {
                    left_out.push((arena_id, Skip::NoCatalogId));
                }
            },
            None => {
                left_out.push((arena_id, Skip::UnknownArenaId));
            },
        }
        i += 1;
    }
    assert(pairs@.take(i as int) =~= pairs@);
    left_out
}

/// Reconciles pairs of arena id and count with the catalog.
pub fn reconcile(catalog: &Catalog, pairs: &Vec<(u64, usize)>) -> (outcome: Result<Deck, LogError>)
    ensures
        match outcome {
            Ok(deck) => reconciled(catalog@, pairs@) == Ok::<Map<CardView, nat>, LogError>(deck@),
            Err(e) => reconciled(catalog@, pairs@) == Err::<Map<CardView, nat>, LogError>(e),
        },
{
    let mut deck = Deck::new();
    let mut i: usize = 0;
    while i < pairs.len()
        invariant
            i <= pairs@.len(),
            first_fault(catalog@, pairs@.take(i as int)) is None,
            deck@ == gathered(catalog@, pairs@.take(i as int)),
            forall|card: CardView| copies(deck@, card) <= i * usize::MAX,
        decreases pairs@.len() - i,
    {
        let ghost seen = pairs@.take(i as int);
        let ghost more = pairs@.take(i + 1);
        assert(more.drop_last() =~= seen);
        assert(more.last() == pairs@[i as int]);
        let (arena_id, count) = pairs[i];
        match resolve(catalog, arena_id) {
            Ok(Some(card)) => {
                assert(copies(deck@, card@) + count <= u128::MAX) by (nonlinear_arith)
                    requires
                        copies(deck@, card@) <= i * usize::MAX,
                        count <= usize::MAX,
                        i < usize::MAX,
                        usize::MAX <= 0xffff_ffff_ffff_ffff,
                        u128::MAX == 0xffff_ffff_ffff_ffff_ffff_ffff_ffff_ffff,
                ;
                let ghost before = deck@;
                deck = deck.insert_count(card, count);
                assert forall|other: CardView| copies(deck@, other) <= (i + 1) * usize::MAX by {
                    assert(copies(before, other) <= i * usize::MAX);
                    assert((i + 1) * usize::MAX == i * usize::MAX + usize::MAX)
                        by (nonlinear_arith);
                }
            },
            Ok(None) => {
                assert forall|other: CardView| copies(deck@, other) <= (i + 1) * usize::MAX by {
                    assert(copies(deck@, other) <= i * usize::MAX);
                    assert((i + 1) * usize::MAX == i * usize::MAX + usize::MAX)
                        by (nonlinear_arith);
                }
            },
            Err(e) => {
                proof {
                    lemma_fault_stays(catalog@, pairs@, i + 1);
                }
                return Err(e);
            },
        }
        i += 1;
    }
    assert(pairs@.take(i as int) =~= pairs@);
    Ok(deck)
}

/// The first fault among the first `k` pairs is the first fault among them all.
proof fn lemma_fault_stays(catalog: CatalogView, pairs: Seq<(u64, usize)>, k: int)
    requires
        0 <= k <= pairs.len(),
        first_fault(catalog, pairs.take(k)) is Some,
    ensures
        first_fault(catalog, pairs) == first_fault(catalog, pairs.take(k)),
    decreases pairs.len(),
{
    if k == pairs.len() {
        assert(pairs.take(k) =~= pairs);
    } else {
        assert(pairs.drop_last().take(k) =~= pairs.take(k));
        lemma_fault_stays(catalog, pairs.drop_last(), k);
    }
}

} // verus!
