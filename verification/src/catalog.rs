use crate::card::{Card, CardView};
use std::collections::HashMap;
use vstd::prelude::*;

verus! {

/// What the arena mapping records for an arena id: the catalog id of the
/// card, which is empty where none is known, and the name that the card is
/// expected to have.
#[derive(Debug)]
pub struct ArenaLink {
    pub catalog_id: String,
    pub name: String,
}

/// What an `ArenaLink` holds.
pub struct LinkView {
    pub catalog_id: Seq<char>,
    pub name: Seq<char>,
}

impl View for ArenaLink {
    type V = LinkView;

    open spec fn view(&self) -> LinkView {
        LinkView { catalog_id: self.catalog_id@, name: self.name@ }
    }
}

/// The card catalog: its cards in their native order, and the arena mapping.
#[derive(Debug)]
pub struct Catalog {
    pub cards: Vec<Card>,
    pub links: HashMap<u64, ArenaLink>,
}

/// What a `Catalog` holds.
pub struct CatalogView {
    pub cards: Seq<CardView>,
    pub links: Map<u64, LinkView>,
}

impl View for Catalog {
    type V = CatalogView;

    open spec fn view(&self) -> CatalogView {
        CatalogView {
            cards: Seq::new(self.cards@.len(), |i: int| self.cards@[i]@),
            links: Map::new(|k: u64| self.links@.contains_key(k), |k: u64| self.links@[k]@),
        }
    }
}

/// The first of `cards` that has the catalog id `id`.
pub open spec fn first_with_id(cards: Seq<CardView>, id: Seq<char>) -> Option<CardView>
    decreases cards.len(),
{
    if cards.len() == 0 {
        None
    } else if cards[0].id == id {
        Some(cards[0])
    } else {
        first_with_id(cards.drop_first(), id)
    }
}

/// Those of `cards` that have the name `name`, in their order.
pub open spec fn named(cards: Seq<CardView>, name: Seq<char>) -> Seq<CardView>
    decreases cards.len(),
{
    if cards.len() == 0 {
        Seq::empty()
    } else if cards.last().name == name {
        named(cards.drop_last(), name).push(cards.last())
    } else {
        named(cards.drop_last(), name)
    }
}

impl CatalogView {
    /// The card that the catalog holds under the catalog id `id`.
    pub open spec fn by_id(self, id: Seq<char>) -> Option<CardView> {
        first_with_id(self.cards, id)
    }

    /// The cards that the catalog holds under the name `name`, in the
    /// catalog's order.
    pub open spec fn by_name(self, name: Seq<char>) -> Seq<CardView> {
        named(self.cards, name)
    }

    /// What the arena mapping records for `arena_id`.
    pub open spec fn link(self, arena_id: u64) -> Option<LinkView> {
        if self.links.contains_key(arena_id) {
            Some(self.links[arena_id])
        } else {
            None
        }
    }
}

impl Catalog {
    /// A catalog without cards and without arena ids.
    pub fn new() -> (catalog: Catalog)
        ensures
            catalog@.cards == Seq::<CardView>::empty(),
            catalog@.links == Map::<u64, LinkView>::empty(),
    {
        let catalog = Catalog { cards: Vec::new(), links: HashMap::new() };
        assert(catalog@.cards =~= Seq::<CardView>::empty());
        assert(catalog@.links =~= Map::<u64, LinkView>::empty());
        catalog
    }

    /// Adds a card behind the cards that the catalog holds.
    pub fn add_card(&mut self, card: Card)
        ensures
            final(self)@.cards == old(self)@.cards.push(card@),
            final(self)@.links == old(self)@.links,
    {
        self.cards.push(card);
        assert(self@.cards =~= old(self)@.cards.push(card@));
    }

    /// Records for `arena_id` a catalog id and an expected name, in place of
    /// what was recorded for it before.
    pub fn link_arena_id(&mut self, arena_id: u64, catalog_id: &str, name: &str)
        ensures
            final(self)@.cards == old(self)@.cards,
            final(self)@.links == old(self)@.links.insert(
                arena_id,
                LinkView { catalog_id: catalog_id@, name: name@ },
            ),
    {
        let link = ArenaLink { catalog_id: catalog_id.to_owned(), name: name.to_owned() };
        self.links.insert(arena_id, link);
        assert(self@.links =~= old(self)@.links.insert(
            arena_id,
            LinkView { catalog_id: catalog_id@, name: name@ },
        ));
    }

    /// Looks up a card by its catalog id.
    pub fn lookup_by_id(&self, id: &String) -> (found: Option<&Card>)
        ensures
            match found {
                Some(card) => self@.by_id(id@) == Some(card@),
                None => self@.by_id(id@) is None,
            },
    {
        let ghost cards = self@.cards;
        let mut i: usize = 0;
        assert(cards.skip(0) =~= cards);
        while i < self.cards.len()
            invariant
                cards == self@.cards,
                i <= cards.len(),
                first_with_id(cards, id@) == first_with_id(cards.skip(i as int), id@),
            decreases cards.len() - i,
        {
            assert(cards.skip(i as int).drop_first() =~= cards.skip(i + 1));
            if self.cards[i].id == *id {
                return Some(&self.cards[i]);
            }
            i += 1;
        }
        None
    }

    /// Looks up the cards that have a name, in the catalog's order.
    pub fn lookup_by_name(&self, name: &String) -> (found: Vec<&Card>)
        ensures
            found@.len() == self@.by_name(name@).len(),
            forall|k: int| 0 <= k < found@.len() ==> (#[trigger] found@[k])@ == self@.by_name(name@)[k],
    {
        let ghost cards = self@.cards;
        let mut found: Vec<&Card> = Vec::new();
        let mut i: usize = 0;
        while i < self.cards.len()
            invariant
                cards == self@.cards,
                i <= cards.len(),
                found@.len() == named(cards.take(i as int), name@).len(),
                forall|k: int|
                    0 <= k < found@.len() ==> (#[trigger] found@[k])@ == named(
                        cards.take(i as int),
                        name@,
                    )[k],
            decreases cards.len() - i,
        {
            assert(cards.take(i + 1).drop_last() =~= cards.take(i as int));
            if self.cards[i].name == *name {
                found.push(&self.cards[i]);
            }
            i += 1;
        }
        assert(cards.take(i as int) =~= cards);
        found
    }

    /// Looks up what the arena mapping records for an arena id.
    pub fn lookup_arena_id(&self, arena_id: u64) -> (found: Option<&ArenaLink>)
        ensures
            match found {
                Some(link) => self@.link(arena_id) == Some(link@),
                None => self@.link(arena_id) is None,
            },
    {
        self.links.get(&arena_id)
    }
}

} // verus!
