use crate::card::{Card, CardView};
use vstd::prelude::*;

verus! {

/// How many copies of `card` a collection holds: 0 where it does not hold the
/// card.
pub open spec fn copies(held: Map<CardView, nat>, card: CardView) -> nat {
    if held.contains_key(card) {
        held[card]
    } else {
        0
    }
}

/// A collection with `count` more copies of `card`.
pub open spec fn with_copies(held: Map<CardView, nat>, card: CardView, count: nat) -> Map<
    CardView,
    nat,
> {
    held.insert(card, copies(held, card) + count)
}

/// A collection of cards: for each card that it holds, the number of copies.
#[derive(Debug)]
pub struct Deck {
    entries: Vec<(Card, u128)>,
}

spec fn held_at(entries: Seq<(Card, u128)>, card: CardView, i: int) -> bool {
    0 <= i < entries.len() && entries[i].0@ == card
}

spec fn distinct(entries: Seq<(Card, u128)>) -> bool {
    forall|i: int, j: int|
        0 <= i < j < entries.len() ==> (#[trigger] entries[i]).0@ != (#[trigger] entries[j]).0@
}

spec fn held(entries: Seq<(Card, u128)>) -> Map<CardView, nat> {
    Map::new(
        |card: CardView| exists|i: int| held_at(entries, card, i),
        |card: CardView| entries[choose|i: int| held_at(entries, card, i)].1 as nat,
    )
}

proof fn lemma_held_entry(entries: Seq<(Card, u128)>, i: int)
    requires
        distinct(entries),
        0 <= i < entries.len(),
    ensures
        held(entries).contains_key(entries[i].0@),
        held(entries)[entries[i].0@] == entries[i].1,
{
    let card = entries[i].0@;
    assert(held_at(entries, card, i));
    let j = choose|j: int| held_at(entries, card, j);
    assert(j == i);
}

proof fn lemma_held_push(entries: Seq<(Card, u128)>, entry: (Card, u128))
    requires
        distinct(entries),
        !held(entries).contains_key(entry.0@),
    ensures
        distinct(entries.push(entry)),
        held(entries.push(entry)) == held(entries).insert(entry.0@, entry.1 as nat),
{
    let more = entries.push(entry);
    assert forall|i: int, j: int| 0 <= i < j < more.len() implies (#[trigger] more[i]).0@ != (
    #[trigger] more[j]).0@ by {
        if j == entries.len() {
            assert(held_at(entries, more[i].0@, i));
        }
    }
    let wanted = held(entries).insert(entry.0@, entry.1 as nat);
    assert forall|card: CardView| held(more).contains_key(card) == wanted.contains_key(
        card,
    ) by {
        if held(more).contains_key(card) {
            let i = choose|i: int| held_at(more, card, i);
            if i < entries.len() {
                assert(held_at(entries, card, i));
            }
        }
        if wanted.contains_key(card) {
            if card == entry.0@ {
                assert(held_at(more, card, entries.len() as int));
            } else {
                let i = choose|i: int| held_at(entries, card, i);
                assert(held_at(more, card, i));
            }
        }
    }
    assert forall|card: CardView| held(more).contains_key(card) implies held(more)[card]
        == wanted[card] by {
        let i = choose|i: int| held_at(more, card, i);
        lemma_held_entry(more, i);
        if i < entries.len() {
            lemma_held_entry(entries, i);
        }
    }
    assert(held(more) =~= wanted);
}

proof fn lemma_held_update(entries: Seq<(Card, u128)>, i: int, entry: (Card, u128))
    requires
        distinct(entries),
        0 <= i < entries.len(),
        entry.0@ == entries[i].0@,
    ensures
        distinct(entries.update(i, entry)),
        held(entries.update(i, entry)) == held(entries).insert(entry.0@, entry.1 as nat),
{
    let changed = entries.update(i, entry);
    assert forall|a: int, b: int| 0 <= a < b < changed.len() implies (#[trigger] changed[a]).0@
        != (#[trigger] changed[b]).0@ by {
        assert(changed[a].0@ == entries[a].0@);
        assert(changed[b].0@ == entries[b].0@);
    }
    let wanted = held(entries).insert(entry.0@, entry.1 as nat);
    assert forall|card: CardView| held(changed).contains_key(card) == wanted.contains_key(
        card,
    ) by {
        if held(changed).contains_key(card) {
            let k = choose|k: int| held_at(changed, card, k);
            assert(changed[k].0@ == entries[k].0@);
            assert(held_at(entries, card, k));
        }
        if wanted.contains_key(card) {
            if card == entry.0@ {
                assert(held_at(changed, card, i));
            } else {
                let k = choose|k: int| held_at(entries, card, k);
                assert(changed[k].0@ == entries[k].0@);
                assert(held_at(changed, card, k));
            }
        }
    }
    assert forall|card: CardView| held(changed).contains_key(card) implies held(changed)[card]
        == wanted[card] by {
        let k = choose|k: int| held_at(changed, card, k);
        lemma_held_entry(changed, k);
        if k != i {
            lemma_held_entry(entries, k);
        }
    }
    assert(held(changed) =~= wanted);
}

proof fn lemma_held_size(entries: Seq<(Card, u128)>)
    requires
        distinct(entries),
    ensures
        held(entries).dom().finite(),
        held(entries).dom().len() == entries.len(),
    decreases entries.len(),
{
    if entries.len() == 0 {
        assert(held(entries).dom() =~= Set::<CardView>::empty());
    } else {
        let fewer = entries.drop_last();
        let last = entries.last();
        assert forall|i: int, j: int| 0 <= i < j < fewer.len() implies (#[trigger] fewer[i]).0@ != (
        #[trigger] fewer[j]).0@ by {
            assert(fewer[i] == entries[i]);
            assert(fewer[j] == entries[j]);
        }
        lemma_held_size(fewer);
        if held(fewer).contains_key(last.0@) {
            let i = choose|i: int| held_at(fewer, last.0@, i);
            assert(fewer[i] == entries[i]);
            assert(entries[i].0@ != entries[entries.len() - 1].0@);
        }
        lemma_held_push(fewer, last);
        assert(fewer.push(last) =~= entries);
        assert(held(entries).dom() =~= held(fewer).dom().insert(last.0@));
    }
}

impl View for Deck {
    type V = Map<CardView, nat>;

    closed spec fn view(&self) -> Map<CardView, nat> {
        held(self.entries@)
    }
}

impl Deck {
    #[verifier::type_invariant]
    spec fn well_formed(&self) -> bool {
        distinct(self.entries@)
    }

    /// A collection that holds no card.
    pub fn new() -> (deck: Deck)
        ensures
            deck@ == Map::<CardView, nat>::empty(),
    {
        let deck = Deck { entries: Vec::new() };
        assert(deck@ =~= Map::<CardView, nat>::empty());
        deck
    }

    fn position(&self, card: &Card) -> (at: Option<usize>)
        ensures
            match at {
                Some(i) => held_at(self.entries@, card@, i as int),
                None => !self@.contains_key(card@),
            },
    {
        let mut i: usize = 0;
        while i < self.entries.len()
            invariant
                i <= self.entries@.len(),
                forall|k: int| 0 <= k < i ==> !held_at(self.entries@, card@, k),
            decreases self.entries@.len() - i,
        {
            if self.entries[i].0.same(card) {
                return Some(i);
            }
            i += 1;
        }
        None
    }

    /// The number of copies of `card`; 0 where the collection does not hold it.
    pub fn count_of(&self, card: &Card) -> (count: u128)
        ensures
            count == copies(self@, card@),
    {
        proof {
            use_type_invariant(self);
        }
        match self.position(card) {
            Some(i) => {
                proof {
                    lemma_held_entry(self.entries@, i as int);
                }
                self.entries[i].1
            },
            None => 0,
        }
    }

    /// Whether the collection holds `card`.
    pub fn contains(&self, card: &Card) -> (held: bool)
        ensures
            held == self@.contains_key(card@),
    {
        self.position(card).is_some()
    }

    /// The number of cards that differ from each other.
    pub fn len(&self) -> (len: usize)
        ensures
            self@.dom().finite(),
            len == self@.dom().len(),
    {
        proof {
            use_type_invariant(self);
            lemma_held_size(self.entries@);
        }
        self.entries.len()
    }

    /// The cards of the collection with their counts, each card once.
    pub fn entries(&self) -> (listed: Vec<(Card, u128)>)
        ensures
            self@.dom().finite(),
            listed@.len() == self@.dom().len(),
            forall|i: int|
                0 <= i < listed@.len() ==> self@.contains_key((#[trigger] listed@[i]).0@)
                    && self@[listed@[i].0@] == listed@[i].1,
            forall|i: int, j: int|
                0 <= i < j < listed@.len() ==> (#[trigger] listed@[i]).0@ != (
                #[trigger] listed@[j]).0@,
            forall|card: CardView|
                self@.contains_key(card) ==> exists|i: int|
                    0 <= i < listed@.len() && (#[trigger] listed@[i]).0@ == card,
    {
        proof {
            use_type_invariant(self);
            lemma_held_size(self.entries@);
        }
        let mut listed: Vec<(Card, u128)> = Vec::new();
        let mut i: usize = 0;
        while i < self.entries.len()
            invariant
                i <= self.entries@.len(),
                listed@.len() == i,
                forall|k: int|
                    0 <= k < i ==> (#[trigger] listed@[k]).0@ == self.entries@[k].0@ && listed@[k].1
                        == self.entries@[k].1,
            decreases self.entries@.len() - i,
        {
            listed.push((self.entries[i].0.clone(), self.entries[i].1));
            i += 1;
        }
        proof {
            assert forall|k: int| 0 <= k < listed@.len() implies self@.contains_key(
                (#[trigger] listed@[k]).0@,
            ) && self@[listed@[k].0@] == listed@[k].1 by {
                lemma_held_entry(self.entries@, k);
            }
            assert forall|card: CardView| self@.contains_key(card) implies exists|k: int|
                0 <= k < listed@.len() && (#[trigger] listed@[k]).0@ == card by {
                let k = choose|k: int| held_at(self.entries@, card, k);
                assert(listed@[k].0@ == card);
            }
        }
        listed
    }

    /// The collection with `count` more copies of `card`.
    pub fn insert_count(self, card: Card, count: usize) -> (deck: Deck)
        requires
            copies(self@, card@) + count <= u128::MAX,
        ensures
            deck@ == with_copies(self@, card@, count as nat),
    {
        proof {
            use_type_invariant(&self);
        }
        let at = self.position(&card);
        let mut entries = self.entries;
        match at {
            Some(i) => {
                proof {
                    lemma_held_entry(entries@, i as int);
                }
                let total: u128 = entries[i].1 + count as u128;
                proof {
                    lemma_held_update(entries@, i as int, (card, total));
                }
                entries.set(i, (card, total));
            },
            None => {
                proof {
                    lemma_held_push(entries@, (card, count as u128));
                }
                entries.push((card, count as u128));
            },
        }
        Deck { entries }
    }
}

} // verus!
