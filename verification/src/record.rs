use crate::decimal::{decimal_u64, parse_u64};
use crate::error::LogError;
use crate::json::{find_member, json_document, member, parse_json, Json};
use crate::text::chars_of;
use vstd::prelude::*;

verus! {

/// The cards that a player owns, as the client reported them: for each arena
/// id a count.
#[derive(Debug)]
pub struct GetPlayerCardsV3 {
    pub id: u64,
    pub payload: Vec<(u64, usize)>,
}

/// What a `GetPlayerCardsV3` holds.
pub struct PlayerCards {
    pub id: u64,
    pub payload: Seq<(u64, usize)>,
}

impl View for GetPlayerCardsV3 {
    type V = PlayerCards;

    open spec fn view(&self) -> PlayerCards {
        PlayerCards { id: self.id, payload: self.payload@ }
    }
}

/// A player's wildcards and currencies.
#[derive(Debug, Clone, Copy, PartialEq, Eq, Structural)]
pub struct GetPlayerInventoryPayload {
    pub wc_common_count: usize,
    pub wc_uncommon_count: usize,
    pub wc_rare_count: usize,
    pub wc_mythic_count: usize,
    pub gems: usize,
    pub gold: usize,
}

/// A player's inventory, as the client reported it.
#[derive(Debug, Clone, Copy, PartialEq, Eq, Structural)]
pub struct GetPlayerInventory {
    pub id: u64,
    pub payload: GetPlayerInventoryPayload,
}

impl Clone for GetPlayerCardsV3 {
    fn clone(&self) -> (copy: GetPlayerCardsV3)
        ensures
            copy@ == self@,
    {
        let mut payload: Vec<(u64, usize)> = Vec::new();
        let mut i: usize = 0;
        while i < self.payload.len()
            invariant
                i <= self.payload@.len(),
                payload@ =~= self.payload@.take(i as int),
            decreases self.payload@.len() - i,
        {
            payload.push(self.payload[i]);
            i += 1;
        }
        assert(self.payload@.take(i as int) =~= self.payload@);
        GetPlayerCardsV3 { id: self.id, payload }
    }
}

impl Default for GetPlayerCardsV3 {
    fn default() -> (record: GetPlayerCardsV3)
        ensures
            record.id == 0,
            record.payload@.len() == 0,
    {
        GetPlayerCardsV3 { id: 0, payload: Vec::new() }
    }
}

impl Default for GetPlayerInventoryPayload {
    fn default() -> (payload: GetPlayerInventoryPayload)
        ensures
            payload == (GetPlayerInventoryPayload {
                wc_common_count: 0,
                wc_uncommon_count: 0,
                wc_rare_count: 0,
                wc_mythic_count: 0,
                gems: 0,
                gold: 0,
            }),
    {
        GetPlayerInventoryPayload {
            wc_common_count: 0,
            wc_uncommon_count: 0,
            wc_rare_count: 0,
            wc_mythic_count: 0,
            gems: 0,
            gold: 0,
        }
    }
}

impl Default for GetPlayerInventory {
    fn default() -> (record: GetPlayerInventory)
        ensures
            record.id == 0,
            record.payload == (GetPlayerInventoryPayload {
                wc_common_count: 0,
                wc_uncommon_count: 0,
                wc_rare_count: 0,
                wc_mythic_count: 0,
                gems: 0,
                gold: 0,
            }),
    {
        GetPlayerInventory { id: 0, payload: GetPlayerInventoryPayload::default() }
    }
}

/// The number that `value` is, where it is an integer from 0 to `u64::MAX`.
pub open spec fn unsigned_of(value: Json) -> Option<u64> {
    match value {
        Json::Number(Some(n)) => Some(n),
        _ => None,
    }
}

/// The count that `value` is, where it is an integer from 0 to `usize::MAX`.
pub open spec fn count_of(value: Json) -> Option<usize> {
    match unsigned_of(value) {
        Some(n) => if n <= usize::MAX {
            Some(n as usize)
        } else {
            None
        },
        None => None,
    }
}

/// What one member of a cards payload holds: the arena id that its key
/// spells, and the count that its value is.
pub open spec fn holding(entry: (String, Json)) -> Option<(u64, usize)> {
    match (decimal_u64(entry.0@), count_of(entry.1)) {
        (Some(arena_id), Some(count)) => Some((arena_id, count)),
        _ => None,
    }
}

/// What each of `members` holds, in their order.
pub open spec fn holdings(members: Seq<(String, Json)>) -> Seq<(u64, usize)> {
    Seq::new(members.len(), |i: int| holding(members[i]).unwrap())
}

/// The cards record that `doc` is: an object with a number `id` and an object
/// `payload`, each member of which holds an arena id and a count. Other
/// members of `doc` do not matter.
pub open spec fn cards_in(doc: Json) -> Option<PlayerCards> {
    match doc {
        Json::Object(top) => match (member(top@, "id"@), member(top@, "payload"@)) {
            (Some(id), Some(Json::Object(members))) => {
                if unsigned_of(id) is Some && forall|i: int|
                    0 <= i < members@.len() ==> holding(#[trigger] members@[i]) is Some {
                    Some(PlayerCards { id: unsigned_of(id).unwrap(), payload: holdings(members@) })
                } else {
                    None
                }
            },
            _ => None,
        },
        _ => None,
    }
}

/// The amount under `key` in an inventory payload: 0 where the payload has no
/// such member, `None` where it has one that is no count.
pub open spec fn amount(fields: Seq<(String, Json)>, key: Seq<char>) -> Option<usize> {
    match member(fields, key) {
        Some(value) => count_of(value),
        None => Some(0usize),
    }
}

/// The wildcards and currencies that `fields` hold.
pub open spec fn amounts_in(fields: Seq<(String, Json)>) -> Option<GetPlayerInventoryPayload> {
    match (
        amount(fields, "wcCommon"@),
        amount(fields, "wcUncommon"@),
        amount(fields, "wcRare"@),
        amount(fields, "wcMythic"@),
        amount(fields, "gems"@),
        amount(fields, "gold"@),
    ) {
        (Some(common), Some(uncommon), Some(rare), Some(mythic), Some(gems), Some(gold)) => Some(
            GetPlayerInventoryPayload {
                wc_common_count: common,
                wc_uncommon_count: uncommon,
                wc_rare_count: rare,
                wc_mythic_count: mythic,
                gems,
                gold,
            },
        ),
        _ => None,
    }
}

/// The inventory record that `doc` is: an object with a number `id` and an
/// object `payload` that holds the amounts. Other members of either object do
/// not matter.
pub open spec fn inventory_in(doc: Json) -> Option<GetPlayerInventory> {
    match doc {
        Json::Object(top) => match (member(top@, "id"@), member(top@, "payload"@)) {
            (Some(id), Some(Json::Object(fields))) => match (
                unsigned_of(id),
                amounts_in(fields@),
            ) {
                (Some(id), Some(payload)) => Some(GetPlayerInventory { id, payload }),
                _ => None,
            },
            _ => None,
        },
        _ => None,
    }
}

/// The cards record that the JSON `text` spells.
pub open spec fn cards_in_text(text: Seq<char>) -> Option<PlayerCards> {
    match json_document(text) {
        Some(doc) => cards_in(doc),
        None => None,
    }
}

/// The inventory record that the JSON `text` spells.
pub open spec fn inventory_in_text(text: Seq<char>) -> Option<GetPlayerInventory> {
    match json_document(text) {
        Some(doc) => inventory_in(doc),
        None => None,
    }
}

fn read_unsigned(value: &Json) -> (number: Option<u64>)
    ensures
        number == unsigned_of(*value),
{
    match value {
        Json::Number(Some(n)) => Some(*n),
        _ => None,
    }
}

fn read_count(value: &Json) -> (count: Option<usize>)
    ensures
        count == count_of(*value),
{
    match read_unsigned(value) {
        Some(n) => {
            if n <= usize::MAX as u64 {
                Some(n as usize)
            } else {
                None
            }
        },
        None => None,
    }
}

fn read_amount(fields: &Vec<(String, Json)>, key: &str) -> (count: Option<usize>)
    ensures
        count == amount(fields@, key@),
{
    let key = key.to_owned();
    match find_member(fields, &key) {
        Some(value) => read_count(value),
        None => Some(0),
    }
}

fn read_holding(entry: &(String, Json)) -> (held: Option<(u64, usize)>)
    ensures
        held == holding(*entry),
{
    let key = chars_of(entry.0.as_str());
    match parse_u64(key.as_slice()) {
        Some(arena_id) => match read_count(&entry.1) {
            Some(count) => Some((arena_id, count)),
            None => None,
        },
        None => None,
    }
}

impl GetPlayerCardsV3 {
    /// Decodes a cards record from a JSON document.
    #[verifier::loop_isolation(false)]
    pub fn from_document(doc: &Json) -> (record: Result<GetPlayerCardsV3, LogError>)
        ensures
            match record {
                Ok(cards) => cards_in(*doc) == Some(cards@),
                Err(e) => e == LogError::BadPayload && cards_in(*doc) is None,
            },
    {
        let top = match doc {
            Json::Object(top) => top,
            _ => { return Err(LogError::BadPayload); },
        };
        let id_key = "id".to_owned();
        let payload_key = "payload".to_owned();
        let id = match find_member(top, &id_key) {
            Some(value) => match read_unsigned(value) {
                Some(id) => id,
                None => { return Err(LogError::BadPayload); },
            },
            None => { return Err(LogError::BadPayload); },
        };
        let members = match find_member(top, &payload_key) {
            Some(Json::Object(members)) => members,
            _ => { return Err(LogError::BadPayload); },
        };
        let mut payload: Vec<(u64, usize)> = Vec::new();
        let mut i: usize = 0;
        while i < members.len()
            invariant
                i <= members@.len(),
                forall|k: int| 0 <= k < i ==> holding(#[trigger] members@[k]) is Some,
                payload@ =~= holdings(members@.take(i as int)),
            decreases members@.len() - i,
        {
            match read_holding(&members[i]) {
                Some(held) => {
                    payload.push(held);
                },
                None => {
                    return Err(LogError::BadPayload);
                },
            }
            i += 1;
        }
        assert(members@.take(i as int) =~= members@);
        Ok(GetPlayerCardsV3 { id, payload })
    }

    /// Decodes a cards record from the characters of a JSON text.
    pub fn from_chars(text: &[char]) -> (record: Result<GetPlayerCardsV3, LogError>)
        ensures
            match record {
                Ok(cards) => cards_in_text(text@) == Some(cards@),
                Err(e) => e == LogError::BadPayload && cards_in_text(text@) is None,
            },
    {
        match parse_json(text) {
            Some(doc) => GetPlayerCardsV3::from_document(&doc),
            None => Err(LogError::BadPayload),
        }
    }

    /// Decodes a cards record from JSON text.
    pub fn from_json(text: &str) -> (record: Result<GetPlayerCardsV3, LogError>)
        ensures
            match record {
                Ok(cards) => cards_in_text(text@) == Some(cards@),
                Err(e) => e == LogError::BadPayload && cards_in_text(text@) is None,
            },
    {
        let chars = chars_of(text);
        GetPlayerCardsV3::from_chars(chars.as_slice())
    }
}

impl GetPlayerInventory {
    /// Decodes an inventory record from a JSON document.
    pub fn from_document(doc: &Json) -> (record: Result<GetPlayerInventory, LogError>)
        ensures
            match record {
                Ok(inventory) => inventory_in(*doc) == Some(inventory),
                Err(e) => e == LogError::BadPayload && inventory_in(*doc) is None,
            },
    {
        let top = match doc {
            Json::Object(top) => top,
            _ => { return Err(LogError::BadPayload); },
        };
        let id_key = "id".to_owned();
        let payload_key = "payload".to_owned();
        let id = match find_member(top, &id_key) {
            Some(value) => match read_unsigned(value) {
                Some(id) => id,
                None => { return Err(LogError::BadPayload); },
            },
            None => { return Err(LogError::BadPayload); },
        };
        let fields = match find_member(top, &payload_key) {
            Some(Json::Object(fields)) => fields,
            _ => { return Err(LogError::BadPayload); },
        };
        match (
            read_amount(fields, "wcCommon"),
            read_amount(fields, "wcUncommon"),
            read_amount(fields, "wcRare"),
            read_amount(fields, "wcMythic"),
            read_amount(fields, "gems"),
            read_amount(fields, "gold"),
        ) {
            (Some(common), Some(uncommon), Some(rare), Some(mythic), Some(gems), Some(gold)) => Ok(
                GetPlayerInventory {
                    id,
                    payload: GetPlayerInventoryPayload {
                        wc_common_count: common,
                        wc_uncommon_count: uncommon,
                        wc_rare_count: rare,
                        wc_mythic_count: mythic,
                        gems,
                        gold,
                    },
                },
            ),
            _ => Err(LogError::BadPayload),
        }
    }

    /// Decodes an inventory record from the characters of a JSON text.
    pub fn from_chars(text: &[char]) -> (record: Result<GetPlayerInventory, LogError>)
        ensures
            match record {
                Ok(inventory) => inventory_in_text(text@) == Some(inventory),
                Err(e) => e == LogError::BadPayload && inventory_in_text(text@) is None,
            },
    {
        match parse_json(text) {
            Some(doc) => GetPlayerInventory::from_document(&doc),
            None => Err(LogError::BadPayload),
        }
    }

    /// Decodes an inventory record from JSON text.
    pub fn from_json(text: &str) -> (record: Result<GetPlayerInventory, LogError>)
        ensures
            match record {
                Ok(inventory) => inventory_in_text(text@) == Some(inventory),
                Err(e) => e == LogError::BadPayload && inventory_in_text(text@) is None,
            },
    {
        let chars = chars_of(text);
        GetPlayerInventory::from_chars(chars.as_slice())
    }
}

} // verus!
