use crate::card::CardView;
use crate::catalog::Catalog;
use crate::deck::Deck;
use crate::error::LogError;
use crate::reconcile::{reconcile, reconciled};
use crate::record::{
    cards_in_text, inventory_in_text, GetPlayerCardsV3, GetPlayerInventory, PlayerCards,
};
use crate::text::{chars_of, lines_of, next_line, payload_after, payload_of};
use vstd::prelude::*;
use vstd::slice::slice_subrange;

verus! {

/// The marker of a line that carries a cards record.
pub const CARDS_MARKER: &'static str = "<== PlayerInventory.GetPlayerCardsV3";

/// The marker of a line that carries an inventory record.
pub const INVENTORY_MARKER: &'static str = "<== PlayerInventory.GetPlayerInventory";

/// The characters of the cards marker.
pub open spec fn cards_marker() -> Seq<char> {
    CARDS_MARKER@
}

/// The characters of the inventory marker.
pub open spec fn inventory_marker() -> Seq<char> {
    INVENTORY_MARKER@
}

/// The cards record that `line` carries: the one that its payload spells
/// behind the cards marker.
#[verifier::opaque]
pub open spec fn cards_on(line: Seq<char>) -> Option<PlayerCards> {
    match payload_after(line, cards_marker()) {
        Some(payload) => cards_in_text(payload),
        None => None,
    }
}

/// The inventory record that `line` carries: the one that its payload spells
/// behind the inventory marker. A line with a cards marker carries none.
#[verifier::opaque]
pub open spec fn inventory_on(line: Seq<char>) -> Option<GetPlayerInventory> {
    match payload_after(line, cards_marker()) {
        Some(_) => None,
        None => match payload_after(line, inventory_marker()) {
            Some(payload) => inventory_in_text(payload),
            None => None,
        },
    }
}

/// `later` where there is one, else `earlier`.
pub open spec fn later_or<T>(later: Option<T>, earlier: Option<T>) -> Option<T> {
    match later {
        Some(_) => later,
        None => earlier,
    }
}

/// The cards record of the last of `lines` that carries one.
pub open spec fn latest_cards(lines: Seq<Seq<char>>) -> Option<PlayerCards>
    decreases lines.len(),
{
    if lines.len() == 0 {
        None
    } else {
        later_or(latest_cards(lines.drop_first()), cards_on(lines[0]))
    }
}

/// The inventory record of the last of `lines` that carries one.
pub open spec fn latest_inventory(lines: Seq<Seq<char>>) -> Option<GetPlayerInventory>
    decreases lines.len(),
{
    if lines.len() == 0 {
        None
    } else {
        later_or(latest_inventory(lines.drop_first()), inventory_on(lines[0]))
    }
}

/// What a log says of a player: the latest cards record and the latest
/// inventory record in it.
#[derive(Debug)]
pub struct Log {
    pub player_cards: Option<GetPlayerCardsV3>,
    pub player_inventory: Option<GetPlayerInventory>,
}

/// What a cards record holds, where there is one.
pub open spec fn held(cards: Option<GetPlayerCardsV3>) -> Option<PlayerCards> {
    match cards {
        Some(cards) => Some(cards@),
        None => None,
    }
}

/// Reads the records that `line` carries.
fn read_line(line: &[char], cards_mark: &[char], inventory_mark: &[char]) -> (carried: (
    Option<GetPlayerCardsV3>,
    Option<GetPlayerInventory>,
))
    requires
        cards_mark@ == cards_marker(),
        inventory_mark@ == inventory_marker(),
    ensures
        held(carried.0) == cards_on(line@),
        carried.1 == inventory_on(line@),
{
    proof {
        reveal(cards_on);
        reveal(inventory_on);
    }
    match payload_of(line, cards_mark) {
        Some(payload) => match GetPlayerCardsV3::from_chars(payload) {
            Ok(cards) => (Some(cards), None),
            Err(_) => (None, None),
        },
        None => match payload_of(line, inventory_mark) {
            Some(payload) => match GetPlayerInventory::from_chars(payload) {
                Ok(inventory) => (None, Some(inventory)),
                Err(_) => (None, None),
            },
            None => (None, None),
        },
    }
}

impl Clone for Log {
    fn clone(&self) -> (copy: Log)
        ensures
            copy.cards() == self.cards(),
            copy.player_inventory == self.player_inventory,
    {
        Log {
            player_cards: match &self.player_cards {
                Some(cards) => Some(cards.clone()),
                None => None,
            },
            player_inventory: self.player_inventory,
        }
    }
}

impl Default for Log {
    fn default() -> (empty: Log)
        ensures
            empty.player_cards is None,
            empty.player_inventory is None,
    {
        Log { player_cards: None, player_inventory: None }
    }
}

impl Log {
    /// What the cards record holds, where there is one.
    pub open spec fn cards(&self) -> Option<PlayerCards> {
        held(self.player_cards)
    }

    /// The pairs of arena id and count of the cards record; none where there
    /// is no cards record.
    pub open spec fn pairs(&self) -> Seq<(u64, usize)> {
        match self.player_cards {
            Some(cards) => cards.payload@,
            None => Seq::empty(),
        }
    }

    /// Reads a log: keeps of each kind of record the last one that a line of
    /// the log carries.
    pub fn from_str(log: &str) -> (snapshot: Result<Log, LogError>)
        ensures
            match snapshot {
                Ok(found) => {
                    &&& found.cards() == latest_cards(lines_of(log@))
                    &&& found.player_inventory == latest_inventory(lines_of(log@))
                },
                Err(_) => false,
            },
    {
        let chars = chars_of(log);
        let cards_mark = chars_of(CARDS_MARKER);
        let inventory_mark = chars_of(INVENTORY_MARKER);
        let n = chars.len();
        let mut found = Log { player_cards: None, player_inventory: None };
        let mut pos: usize = 0;
        assert(log@.skip(0) =~= log@);
        while pos < n
            invariant
                chars@ == log@,
                n == chars@.len(),
                cards_mark@ == cards_marker(),
                inventory_mark@ == inventory_marker(),
                pos <= n,
                latest_cards(lines_of(log@)) == later_or(
                    latest_cards(lines_of(log@.skip(pos as int))),
                    found.cards(),
                ),
                latest_inventory(lines_of(log@)) == later_or(
                    latest_inventory(lines_of(log@.skip(pos as int))),
                    found.player_inventory,
                ),
            decreases n - pos,
        {
            let (stop, next) = next_line(chars.as_slice(), pos);
            proof {
                let line = log@.subrange(pos as int, stop as int);
                let rest = lines_of(log@.skip(next as int));
                assert((seq![line] + rest).drop_first() =~= rest);
                assert((seq![line] + rest)[0] == line);
            }
            let line = slice_subrange(chars.as_slice(), pos, stop);
            let (cards, inventory) = read_line(
                line,
                cards_mark.as_slice(),
                inventory_mark.as_slice(),
            );
            if cards.is_some() {
                found.player_cards = cards;
            }
            if inventory.is_some() {
                found.player_inventory = inventory;
            }
            pos = next;
        }
        Ok(found)
    }

    /// The number of common wildcards; 0 without an inventory record.
    pub fn wc_common_count(&self) -> (count: usize)
        ensures
            count == match self.player_inventory {
                Some(inventory) => inventory.payload.wc_common_count,
                None => 0,
            },
    {
        match &self.player_inventory {
            Some(inventory) => inventory.payload.wc_common_count,
            None => 0,
        }
    }

    /// The number of uncommon wildcards; 0 without an inventory record.
    pub fn wc_uncommon_count(&self) -> (count: usize)
        ensures
            count == match self.player_inventory {
                Some(inventory) => inventory.payload.wc_uncommon_count,
                None => 0,
            },
    {
        match &self.player_inventory {
            Some(inventory) => inventory.payload.wc_uncommon_count,
            None => 0,
        }
    }

    /// The number of rare wildcards; 0 without an inventory record.
    pub fn wc_rare_count(&self) -> (count: usize)
        ensures
            count == match self.player_inventory {
                Some(inventory) => inventory.payload.wc_rare_count,
                None => 0,
            },
    {
        match &self.player_inventory {
            Some(inventory) => inventory.payload.wc_rare_count,
            None => 0,
        }
    }

    /// The number of mythic wildcards; 0 without an inventory record.
    pub fn wc_mythic_count(&self) -> (count: usize)
        ensures
            count == match self.player_inventory {
                Some(inventory) => inventory.payload.wc_mythic_count,
                None => 0,
            },
    {
        match &self.player_inventory {
            Some(inventory) => inventory.payload.wc_mythic_count,
            None => 0,
        }
    }

    /// The gems; 0 without an inventory record.
    pub fn gems(&self) -> (amount: usize)
        ensures
            amount == match self.player_inventory {
                Some(inventory) => inventory.payload.gems,
                None => 0,
            },
    {
        match &self.player_inventory {
            Some(inventory) => inventory.payload.gems,
            None => 0,
        }
    }

    /// The gold; 0 without an inventory record.
    pub fn gold(&self) -> (amount: usize)
        ensures
            amount == match self.player_inventory {
                Some(inventory) => inventory.payload.gold,
                None => 0,
            },
    {
        match &self.player_inventory {
            Some(inventory) => inventory.payload.gold,
            None => 0,
        }
    }

    /// The player's collection: the cards record reconciled with the
    /// catalog. Without a cards record the collection is empty.
    pub fn collection(&self, catalog: &Catalog) -> (outcome: Result<Deck, LogError>)
        ensures
            match outcome {
                Ok(deck) => reconciled(catalog@, self.pairs()) == Ok::<Map<CardView, nat>, LogError>(
                    deck@,
                ),
                Err(e) => reconciled(catalog@, self.pairs()) == Err::<Map<CardView, nat>, LogError>(
                    e,
                ),
            },
    {
        match &self.player_cards {
            Some(cards) => reconcile(catalog, &cards.payload),
            None => Ok(Deck::new()),
        }
    }
}

} // verus!
