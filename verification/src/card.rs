use vstd::prelude::*;

verus! {

/// A card of the catalog.
#[derive(Debug)]
pub struct Card {
    /// The catalog id: the key under which the catalog holds the card.
    pub id: String,
    /// The name that the card is shown under.
    pub name: String,
    /// The arena id that the card is bound to; 0 where it is bound to none.
    pub arena_id: u64,
}

/// What a `Card` holds.
pub struct CardView {
    pub id: Seq<char>,
    pub name: Seq<char>,
    pub arena_id: u64,
}

impl View for Card {
    type V = CardView;

    open spec fn view(&self) -> CardView {
        CardView { id: self.id@, name: self.name@, arena_id: self.arena_id }
    }
}

impl Clone for Card {
    fn clone(&self) -> (copy: Card)
        ensures
            copy@ == self@,
    {
        Card { id: self.id.clone(), name: self.name.clone(), arena_id: self.arena_id }
    }
}

impl Card {
    /// A card with the given catalog id, name and arena id.
    pub fn new(id: &str, name: &str, arena_id: u64) -> (card: Card)
        ensures
            card@ == (CardView { id: id@, name: name@, arena_id }),
    {
        Card { id: id.to_owned(), name: name.to_owned(), arena_id }
    }

    /// Tells whether two cards hold the same.
    pub fn same(&self, other: &Card) -> (same: bool)
        ensures
            same == (self@ == other@),
    {
        self.id == other.id && self.name == other.name && self.arena_id == other.arena_id
    }
}

} // verus!
