//! The tables that the bindings hand out: one row per chat line, player or
//! skin, every number written as decimal text.
use vstd::prelude::*;
use crate::netmessages::Parser;
use crate::records::{opt_text, ChatMessageRecord, ChatMessageView, EconItemView, PlayerEndView};
use crate::text::{decimal, signed_decimal, signed_text, unsigned_text};

verus! {

/// A player: steam id, team number and name.
pub struct PlayerInfoRow {
    pub steamid: Option<String>,
    pub team_number: Option<String>,
    pub name: Option<String>,
}

/// A skin.
pub struct SkinRow {
    pub def_index: String,
    pub item_id: String,
    pub paint_index: String,
    pub paint_seed: String,
    pub paint_wear: String,
    pub steamid: String,
    pub custom_name: Option<String>,
}

/// An optional number as decimal text, or nothing.
pub open spec fn opt_decimal(o: Option<u64>) -> Option<Seq<char>> {
    match o {
        Some(v) => Some(decimal(v as nat)),
        None => None,
    }
}

pub open spec fn opt_signed_decimal(o: Option<i32>) -> Option<Seq<char>> {
    match o {
        Some(v) => Some(signed_decimal(v as int)),
        None => None,
    }
}

/// A number that may be missing, 0 where it is.
pub open spec fn or_zero_u32(o: Option<u32>) -> nat {
    match o {
        Some(v) => v as nat,
        None => 0,
    }
}

pub open spec fn or_zero_u64(o: Option<u64>) -> nat {
    match o {
        Some(v) => v as nat,
        None => 0,
    }
}

pub open spec fn or_zero_i32(o: Option<i32>) -> int {
    match o {
        Some(v) => v as int,
        None => 0,
    }
}

/// The row of a player.
pub open spec fn player_row_matches(r: PlayerInfoRow, p: PlayerEndView) -> bool {
    &&& opt_text(r.steamid) == opt_decimal(p.steamid)
    &&& opt_text(r.team_number) == opt_signed_decimal(p.team_number)
    &&& opt_text(r.name) == p.name
}

/// The row of the skin `s`, whose definition index column carries the
/// entity index of the chat line `c` at the same position.
pub open spec fn skin_row_matches(r: SkinRow, s: EconItemView, c: ChatMessageView) -> bool {
    &&& r.def_index@ == signed_decimal(or_zero_i32(c.entity_idx))
    &&& r.item_id@ == decimal(or_zero_u64(s.item_id))
    &&& r.paint_index@ == decimal(or_zero_u32(s.paint_index))
    &&& r.paint_seed@ == decimal(or_zero_u32(s.paint_seed))
    &&& r.paint_wear@ == decimal(or_zero_u32(s.paint_wear))
    &&& r.steamid@ == decimal(or_zero_u64(s.steamid))
    &&& opt_text(r.custom_name) == s.custom_name
}

fn copy_text(o: &Option<String>) -> (r: Option<String>)
    ensures
        opt_text(r) == opt_text(*o),
{
    match o {
        Some(t) => Some(t.clone()),
        None => None,
    }
}

fn entid_text(e: Option<i32>) -> (r: String)
    ensures
        r@ == signed_decimal(or_zero_i32(e)),
{
    match e {
        Some(x) => signed_text(x as i64),
        None => signed_text(0),
    }
}

fn u32_or_zero_text(o: Option<u32>) -> (r: String)
    ensures
        r@ == decimal(or_zero_u32(o)),
{
    match o {
        Some(x) => unsigned_text(x as u64),
        None => unsigned_text(0),
    }
}

fn u64_or_zero_text(o: Option<u64>) -> (r: String)
    ensures
        r@ == decimal(or_zero_u64(o)),
{
    match o {
        Some(x) => unsigned_text(x),
        None => unsigned_text(0),
    }
}

/// One row per skin: the row at position `i` describes the `i`-th player
/// of the end-of-match data.
pub fn player_info_rows(parser: &Parser) -> (r: Vec<PlayerInfoRow>)
    requires
        parser.skins@.len() <= parser.player_end_data@.len(),
    ensures
        r@.len() == parser.skins@.len(),
        forall|i: int| 0 <= i < r@.len() ==> player_row_matches(#[trigger] r@[i], parser.player_end_data@[i]@),
{
    let mut rows: Vec<PlayerInfoRow> = Vec::new();
    let mut i: usize = 0;
    while i < parser.skins.len()
        invariant
            parser.skins@.len() <= parser.player_end_data@.len(),
            i <= parser.skins@.len(),
            rows@.len() == i,
            forall|k: int| 0 <= k < i ==> player_row_matches(#[trigger] rows@[k], parser.player_end_data@[k]@),
        decreases parser.skins@.len() - i,
    {
        let p = &parser.player_end_data[i];
        let steamid = match p.steamid {
            Some(v) => Some(unsigned_text(v)),
            None => None,
        };
        let team_number = match p.team_number {
            Some(t) => Some(signed_text(t as i64)),
            None => None,
        };
        rows.push(PlayerInfoRow { steamid, team_number, name: copy_text(&p.name) });
        i = i + 1;
    }
    rows
}

/// One row per skin, in order.
pub fn skin_rows(parser: &Parser) -> (r: Vec<SkinRow>)
    requires
        parser.skins@.len() <= parser.chat_messages@.len(),
    ensures
        r@.len() == parser.skins@.len(),
        forall|i: int|
            0 <= i < r@.len() ==> skin_row_matches(#[trigger] r@[i], parser.skins@[i]@, parser.chat_messages@[i]@),
{
    let mut rows: Vec<SkinRow> = Vec::new();
    let mut i: usize = 0;
    while i < parser.skins.len()
        invariant
            parser.skins@.len() <= parser.chat_messages@.len(),
            i <= parser.skins@.len(),
            rows@.len() == i,
            forall|k: int|
                0 <= k < i ==> skin_row_matches(#[trigger] rows@[k], parser.skins@[k]@, parser.chat_messages@[k]@),
        decreases parser.skins@.len() - i,
    {
        let s = &parser.skins[i];
        let c = &parser.chat_messages[i];
        rows.push(SkinRow {
            def_index: entid_text(c.entity_idx),
            item_id: u64_or_zero_text(s.item_id),
            paint_index: u32_or_zero_text(s.paint_index),
            paint_seed: u32_or_zero_text(s.paint_seed),
            paint_wear: u32_or_zero_text(s.paint_wear),
            steamid: u64_or_zero_text(s.steamid),
            custom_name: copy_text(&s.custom_name),
        });
        i = i + 1;
    }
    rows
}

/// A named cell of a row handed to a binding: the column's name and its text.
pub struct Entry {
    pub key: String,
    pub value: Option<String>,
}

/// The column names of a chat row for Node.
pub open spec fn node_chat_keys() -> Seq<Seq<char>> {
    seq!["entid"@, "player_name"@, "message"@, "location"@, "param4"@]
}

/// The column names of a chat row for the browser.
pub open spec fn wasm_chat_keys() -> Seq<Seq<char>> {
    seq!["entid"@, "param1"@, "param2"@, "param3"@, "param4"@]
}

/// The texts of a chat line's row, column by column: the entity index (0
/// where there is none) and the four parameters.
pub open spec fn chat_values(c: ChatMessageView) -> Seq<Option<Seq<char>>> {
    seq![Some(signed_decimal(or_zero_i32(c.entity_idx))), c.param1, c.param2, c.param3, c.param4]
}

/// The row `r` holds the texts of the chat line `c` under the names `keys`,
/// in column order.
pub open spec fn keyed_row_matches(r: Seq<Entry>, keys: Seq<Seq<char>>, c: ChatMessageView) -> bool {
    &&& r.len() == 5
    &&& forall|j: int| 0 <= j < 5 ==> (#[trigger] r[j]).key@ == keys[j] && opt_text(r[j].value) == chat_values(c)[j]
}

fn entry(key: &str, value: Option<String>) -> (r: Entry)
    ensures
        r.key@ == key@,
        r.value == value,
{
    Entry { key: key.to_owned(), value }
}

fn keyed_chat_rows(msgs: &Vec<ChatMessageRecord>, k0: &str, k1: &str, k2: &str, k3: &str, k4: &str) -> (r: Vec<Vec<Entry>>)
    ensures
        r@.len() == msgs@.len(),
        forall|i: int| 0 <= i < msgs@.len() ==> keyed_row_matches((#[trigger] r@[i])@, seq![k0@, k1@, k2@, k3@, k4@], msgs@[i]@),
{
    let ghost keys = seq![k0@, k1@, k2@, k3@, k4@];
    let mut rows: Vec<Vec<Entry>> = Vec::new();
    let mut i: usize = 0;
    while i < msgs.len()
        invariant
            i <= msgs@.len(),
            rows@.len() == i,
            keys == seq![k0@, k1@, k2@, k3@, k4@],
            forall|k: int| 0 <= k < i ==> keyed_row_matches((#[trigger] rows@[k])@, keys, msgs@[k]@),
        decreases msgs@.len() - i,
    {
        let c = &msgs[i];
        let mut row: Vec<Entry> = Vec::new();
        row.push(entry(k0, Some(entid_text(c.entity_idx))));
        row.push(entry(k1, copy_text(&c.param1)));
        row.push(entry(k2, copy_text(&c.param2)));
        row.push(entry(k3, copy_text(&c.param3)));
        row.push(entry(k4, copy_text(&c.param4)));
        assert(keyed_row_matches(row@, keys, msgs@[i as int]@));
        rows.push(row);
        i = i + 1;
    }
    rows
}

/// The chat rows for Node: per chat line, in order, the entity index, the
/// player's name, the message, the location and the fourth parameter.
pub fn node_chat_rows(msgs: &Vec<ChatMessageRecord>) -> (r: Vec<Vec<Entry>>)
    ensures
        r@.len() == msgs@.len(),
        forall|i: int| 0 <= i < msgs@.len() ==> keyed_row_matches((#[trigger] r@[i])@, node_chat_keys(), msgs@[i]@),
{
    keyed_chat_rows(msgs, "entid", "player_name", "message", "location", "param4")
}

/// The chat rows for the browser: per chat line, in order, the entity index
/// and the four parameters.
pub fn wasm_chat_rows(msgs: &Vec<ChatMessageRecord>) -> (r: Vec<Vec<Entry>>)
    ensures
        r@.len() == msgs@.len(),
        forall|i: int| 0 <= i < msgs@.len() ==> keyed_row_matches((#[trigger] r@[i])@, wasm_chat_keys(), msgs@[i]@),
{
    keyed_chat_rows(msgs, "entid", "param1", "param2", "param3", "param4")
}

/// Node and the browser are handed the same chat rows: row for row and
/// column for column the same texts, under the browser's names `param1`,
/// `param2` and `param3` where Node says `player_name`, `message` and
/// `location`.
pub proof fn lemma_bindings_share_chat_rows(msgs: Seq<ChatMessageView>, node: Seq<Seq<Entry>>, browser: Seq<Seq<Entry>>)
    requires
        node.len() == msgs.len(),
        browser.len() == msgs.len(),
        forall|i: int| 0 <= i < msgs.len() ==> keyed_row_matches(#[trigger] node[i], node_chat_keys(), msgs[i]),
        forall|i: int| 0 <= i < msgs.len() ==> keyed_row_matches(#[trigger] browser[i], wasm_chat_keys(), msgs[i]),
    ensures
        node.len() == browser.len(),
        forall|i: int, j: int| 0 <= i < node.len() && 0 <= j < 5 ==> {
            &&& node[i].len() == 5 && browser[i].len() == 5
            &&& opt_text((#[trigger] node[i][j]).value) == opt_text((#[trigger] browser[i][j]).value)
            &&& node[i][j].key@ == node_chat_keys()[j]
            &&& browser[i][j].key@ == wasm_chat_keys()[j]
        },
        node_chat_keys()[0] == wasm_chat_keys()[0],
        node_chat_keys()[4] == wasm_chat_keys()[4],
{
    assert forall|i: int, j: int| 0 <= i < node.len() && 0 <= j < 5 implies {
        &&& node[i].len() == 5 && browser[i].len() == 5
        &&& opt_text((#[trigger] node[i][j]).value) == opt_text((#[trigger] browser[i][j]).value)
        &&& node[i][j].key@ == node_chat_keys()[j]
        &&& browser[i][j].key@ == wasm_chat_keys()[j]
    } by {
        assert(keyed_row_matches(node[i], node_chat_keys(), msgs[i]));
        assert(keyed_row_matches(browser[i], wasm_chat_keys(), msgs[i]));
        assert(node[i][j].key@ == node_chat_keys()[j]);
        assert(browser[i][j].key@ == wasm_chat_keys()[j]);
    }
}

} // verus!
