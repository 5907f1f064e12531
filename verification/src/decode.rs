//! Decoders of the net messages whose contents the parser keeps. Each one
//! is a fold over the fields of its message: a field that the message
//! declares sets or extends the record, any other field is read and passed
//! over.
use vstd::prelude::*;
use crate::wire::{eff_end, window_end, FieldValue, Val, RECURSION_LIMIT};
use crate::messages::{
    check_fold, check_message, lemma_read_field_bounds, next_field, read_field, MsgType,
};
use crate::records::{
    ChatMessageRecord, ChatMessageView, ClassRecord, ClassRecordView, ConVarRecord, ConVarView,
    EconItem, EconItemView, PlayerRecord, PlayerRecordView,
};

verus! {

/// The limit of a message that is not nested in another.
pub open spec fn top_limit() -> int {
    0xffff_ffff_ffff_ffff
}

// ---------------------------------------------------------------- chat line

pub open spec fn chat_step(acc: ChatMessageView, t: int, v: Val) -> ChatMessageView {
    match v {
        Val::Int(x) => if t == 8 {
            ChatMessageView { entity_idx: Some(x as i32), ..acc }
        } else {
            acc
        },
        Val::Text(x) => if t == 34 {
            ChatMessageView { param1: Some(x), ..acc }
        } else if t == 42 {
            ChatMessageView { param2: Some(x), ..acc }
        } else if t == 50 {
            ChatMessageView { param3: Some(x), ..acc }
        } else if t == 58 {
            ChatMessageView { param4: Some(x), ..acc }
        } else {
            acc
        },
        _ => acc,
    }
}

pub open spec fn chat_fold(s: Seq<u8>, pos: int, limit: int, level: int, acc: ChatMessageView) -> Option<ChatMessageView>
    decreases eff_end(s, limit) - pos,
{
    if pos < 0 || pos >= eff_end(s, limit) {
        Some(acc)
    } else {
        match read_field(s, pos, limit, level, MsgType::SayText2) {
            None => None,
            Some((t, v, q)) => {
                proof {
                    lemma_read_field_bounds(s, pos, limit, level, MsgType::SayText2);
                }
                chat_fold(s, q, limit, level, chat_step(acc, t, v))
            },
        }
    }
}

/// The chat line that `bytes` encode as a `CUserMessageSayText2`.
pub open spec fn chat_message_of(bytes: Seq<u8>) -> Option<ChatMessageView> {
    chat_fold(bytes, 0, top_limit(), 0, ChatMessageView::empty())
}

fn decode_chat_fold(buf: &[u8], start: usize, limit: u64, level: u64) -> (r: Option<ChatMessageRecord>)
    requires
        start <= eff_end(buf@, limit as int),
        level <= RECURSION_LIMIT,
    ensures
        match chat_fold(buf@, start as int, limit as int, level as int, ChatMessageView::empty()) {
            Some(v) => r matches Some(x) && x@ == v,
            None => r is None,
        },
{
    let ghost s = buf@;
    let end = window_end(buf.len(), limit);
    let mut p = start;
    let mut acc = ChatMessageRecord::empty();
    while p < end
        invariant
            s == buf@,
            end == eff_end(s, limit as int),
            start <= p <= end,
            level <= RECURSION_LIMIT,
            chat_fold(s, p as int, limit as int, level as int, acc@)
                == chat_fold(s, start as int, limit as int, level as int, ChatMessageView::empty()),
        decreases end - p,
    {
        proof {
            lemma_read_field_bounds(s, p as int, limit as int, level as int, MsgType::SayText2);
        }
        match next_field(buf, p, limit, level, MsgType::SayText2) {
            None => return None,
            Some((t, v, q)) => {
                match v {
                    FieldValue::Signed(x) => {
                        if t == 8 {
                            acc.entity_idx = Some(x);
                        }
                    },
                    FieldValue::Text(x) => {
                        if t == 34 {
                            acc.param1 = Some(x);
                        } else if t == 42 {
                            acc.param2 = Some(x);
                        } else if t == 50 {
                            acc.param3 = Some(x);
                        } else if t == 58 {
                            acc.param4 = Some(x);
                        }
                    },
                    _ => {},
                }
                p = q;
            },
        }
    }
    Some(acc)
}

/// Decodes a `CUserMessageSayText2`; `None` exactly where the bytes do not
/// decode.
pub fn decode_chat_message(bytes: &[u8]) -> (r: Option<ChatMessageRecord>)
    ensures
        match chat_message_of(bytes@) {
            Some(v) => r matches Some(x) && x@ == v,
            None => r is None,
        },
{
    decode_chat_fold(bytes, 0, u64::MAX, 0)
}

// ---------------------------------------------------------------- item

pub open spec fn item_step(s: Seq<u8>, level: int, acc: EconItemView, t: int, v: Val) -> Option<EconItemView> {
    match v {
        Val::Int(x) => Some(
            if t == 8 {
                EconItemView { account_id: Some(x as u32), ..acc }
            } else if t == 16 {
                EconItemView { item_id: Some(x as u64), ..acc }
            } else if t == 24 {
                EconItemView { def_index: Some(x as u32), ..acc }
            } else if t == 32 {
                EconItemView { paint_index: Some(x as u32), ..acc }
            } else if t == 40 {
                EconItemView { rarity: Some(x as u32), ..acc }
            } else if t == 48 {
                EconItemView { quality: Some(x as u32), ..acc }
            } else if t == 56 {
                EconItemView { paint_wear: Some(x as u32), ..acc }
            } else if t == 64 {
                EconItemView { paint_seed: Some(x as u32), ..acc }
            } else if t == 104 {
                EconItemView { inventory: Some(x as u32), ..acc }
            } else if t == 120 {
                EconItemView { quest_id: Some(x as u32), ..acc }
            } else if t == 128 {
                EconItemView { dropreason: Some(x as u32), ..acc }
            } else if t == 144 {
                EconItemView { ent_idx: Some(x as i32), ..acc }
            } else {
                acc
            },
        ),
        Val::Text(x) => Some(
            if t == 90 {
                EconItemView { custom_name: Some(x), ..acc }
            } else {
                acc
            },
        ),
        Val::Window(a, l) => if check_fold(s, a, l, level + 1, MsgType::Sticker) {
            Some(acc)
        } else {
            None
        },
        Val::Packed(..) => Some(acc),
        Val::Skip => Some(acc),
    }
}

pub open spec fn item_fold(s: Seq<u8>, pos: int, limit: int, level: int, acc: EconItemView) -> Option<EconItemView>
    decreases eff_end(s, limit) - pos,
{
    if pos < 0 || pos >= eff_end(s, limit) {
        Some(acc)
    } else {
        match read_field(s, pos, limit, level, MsgType::ItemPreview) {
            None => None,
            Some((t, v, q)) => {
                proof {
                    lemma_read_field_bounds(s, pos, limit, level, MsgType::ItemPreview);
                }
                match item_step(s, level, acc, t, v) {
                    Some(next) => item_fold(s, q, limit, level, next),
                    None => None,
                }
            },
        }
    }
}

fn decode_item_fold(buf: &[u8], start: usize, limit: u64, level: u64) -> (r: Option<EconItem>)
    requires
        start <= eff_end(buf@, limit as int),
        level <= RECURSION_LIMIT,
    ensures
        match item_fold(buf@, start as int, limit as int, level as int, EconItemView::empty()) {
            Some(v) => r matches Some(x) && x@ == v,
            None => r is None,
        },
{
    let ghost s = buf@;
    let end = window_end(buf.len(), limit);
    let mut p = start;
    let mut acc = EconItem::empty();
    while p < end
        invariant
            s == buf@,
            end == eff_end(s, limit as int),
            start <= p <= end,
            level <= RECURSION_LIMIT,
            item_fold(s, p as int, limit as int, level as int, acc@)
                == item_fold(s, start as int, limit as int, level as int, EconItemView::empty()),
        decreases end - p,
    {
        proof {
            lemma_read_field_bounds(s, p as int, limit as int, level as int, MsgType::ItemPreview);
        }
        match next_field(buf, p, limit, level, MsgType::ItemPreview) {
            None => return None,
            Some((t, v, q)) => {
                match v {
                    FieldValue::Unsigned(x) => {
                        if t == 8 {
                            acc.account_id = Some(x as u32);
                        } else if t == 16 {
                            acc.item_id = Some(x);
                        } else if t == 24 {
                            acc.def_index = Some(x as u32);
                        } else if t == 32 {
                            acc.paint_index = Some(x as u32);
                        } else if t == 40 {
                            acc.rarity = Some(x as u32);
                        } else if t == 48 {
                            acc.quality = Some(x as u32);
                        } else if t == 56 {
                            acc.paint_wear = Some(x as u32);
                        } else if t == 64 {
                            acc.paint_seed = Some(x as u32);
                        } else if t == 104 {
                            acc.inventory = Some(x as u32);
                        } else if t == 120 {
                            acc.quest_id = Some(x as u32);
                        } else if t == 128 {
                            acc.dropreason = Some(x as u32);
                        }
                    },
                    FieldValue::Signed(x) => {
                        if t == 144 {
                            acc.ent_idx = Some(x);
                        }
                    },
                    FieldValue::Text(x) => {
                        if t == 90 {
                            acc.custom_name = Some(x);
                        }
                    },
                    FieldValue::Window(a, l) => {
                        if !check_message(buf, a, l, level + 1, MsgType::Sticker) {
                            return None;
                        }
                    },
                    FieldValue::Packed(..) => {},
                    FieldValue::Skipped => {},
                }
                p = q;
            },
        }
    }
    Some(acc)
}

// ---------------------------------------------------------------- item drops

pub open spec fn drops_fold(s: Seq<u8>, pos: int, limit: int, level: int, acc: Seq<EconItemView>) -> Option<Seq<EconItemView>>
    decreases eff_end(s, limit) - pos,
{
    if pos < 0 || pos >= eff_end(s, limit) {
        Some(acc)
    } else {
        match read_field(s, pos, limit, level, MsgType::ItemDrops) {
            None => None,
            Some((t, v, q)) => {
                proof {
                    lemma_read_field_bounds(s, pos, limit, level, MsgType::ItemDrops);
                }
                match v {
                    Val::Window(a, l) => match item_fold(s, a, l, level + 1, EconItemView::empty()) {
                        Some(e) => drops_fold(s, q, limit, level, acc.push(e)),
                        None => None,
                    },
                    _ => drops_fold(s, q, limit, level, acc),
                }
            },
        }
    }
}

fn decode_drops_fold(buf: &[u8], start: usize, limit: u64, level: u64) -> (r: Option<Vec<EconItem>>)
    requires
        start <= eff_end(buf@, limit as int),
        level <= RECURSION_LIMIT,
    ensures
        match drops_fold(buf@, start as int, limit as int, level as int, Seq::empty()) {
            Some(v) => r matches Some(x) && x@.map_values(|e: EconItem| e@) == v,
            None => r is None,
        },
{
    let ghost s = buf@;
    let end = window_end(buf.len(), limit);
    let mut p = start;
    let mut acc: Vec<EconItem> = Vec::new();
    proof {
        assert(acc@.map_values(|e: EconItem| e@) =~= Seq::<EconItemView>::empty());
    }
    while p < end
        invariant
            s == buf@,
            end == eff_end(s, limit as int),
            start <= p <= end,
            level <= RECURSION_LIMIT,
            drops_fold(s, p as int, limit as int, level as int, acc@.map_values(|e: EconItem| e@))
                == drops_fold(s, start as int, limit as int, level as int, Seq::empty()),
        decreases end - p,
    {
        proof {
            lemma_read_field_bounds(s, p as int, limit as int, level as int, MsgType::ItemDrops);
        }
        match next_field(buf, p, limit, level, MsgType::ItemDrops) {
            None => return None,
            Some((t, v, q)) => {
                match v {
                    FieldValue::Window(a, l) => {
                        match decode_item_fold(buf, a, l, level + 1) {
                            Some(e) => {
                                let ghost old_acc = acc@;
                                acc.push(e);
                                proof {
                                    assert(acc@.map_values(|e: EconItem| e@)
                                        =~= old_acc.map_values(|e: EconItem| e@).push(e@));
                                }
                            },
                            None => return None,
                        }
                    },
                    _ => {},
                }
                p = q;
            },
        }
    }
    Some(acc)
}

// ---------------------------------------------------------------- console variables

pub open spec fn cvar_step(acc: ConVarView, t: int, v: Val) -> ConVarView {
    match v {
        Val::Text(x) => if t == 10 {
            ConVarView { name: Some(x), ..acc }
        } else if t == 18 {
            ConVarView { value: Some(x), ..acc }
        } else {
            acc
        },
        _ => acc,
    }
}

pub open spec fn cvar_fold(s: Seq<u8>, pos: int, limit: int, level: int, acc: ConVarView) -> Option<ConVarView>
    decreases eff_end(s, limit) - pos,
{
    if pos < 0 || pos >= eff_end(s, limit) {
        Some(acc)
    } else {
        match read_field(s, pos, limit, level, MsgType::CVar) {
            None => None,
            Some((t, v, q)) => {
                proof {
                    lemma_read_field_bounds(s, pos, limit, level, MsgType::CVar);
                }
                cvar_fold(s, q, limit, level, cvar_step(acc, t, v))
            },
        }
    }
}

fn decode_cvar_fold(buf: &[u8], start: usize, limit: u64, level: u64) -> (r: Option<ConVarRecord>)
    requires
        start <= eff_end(buf@, limit as int),
        level <= RECURSION_LIMIT,
    ensures
        match cvar_fold(buf@, start as int, limit as int, level as int, ConVarView { name: None, value: None }) {
            Some(v) => r matches Some(x) && x@ == v,
            None => r is None,
        },
{
    let ghost s = buf@;
    let end = window_end(buf.len(), limit);
    let mut p = start;
    let mut acc = ConVarRecord { name: None, value: None };
    while p < end
        invariant
            s == buf@,
            end == eff_end(s, limit as int),
            start <= p <= end,
            level <= RECURSION_LIMIT,
            cvar_fold(s, p as int, limit as int, level as int, acc@)
                == cvar_fold(s, start as int, limit as int, level as int, ConVarView { name: None, value: None }),
        decreases end - p,
    {
        proof {
            lemma_read_field_bounds(s, p as int, limit as int, level as int, MsgType::CVar);
        }
        match next_field(buf, p, limit, level, MsgType::CVar) {
            None => return None,
            Some((t, v, q)) => {
                match v {
                    FieldValue::Text(x) => {
                        if t == 10 {
                            acc.name = Some(x);
                        } else if t == 18 {
                            acc.value = Some(x);
                        }
                    },
                    _ => {},
                }
                p = q;
            },
        }
    }
    Some(acc)
}

pub open spec fn cvars_fold(s: Seq<u8>, pos: int, limit: int, level: int, acc: Seq<ConVarView>) -> Option<Seq<ConVarView>>
    decreases eff_end(s, limit) - pos,
{
    if pos < 0 || pos >= eff_end(s, limit) {
        Some(acc)
    } else {
        match read_field(s, pos, limit, level, MsgType::CVars) {
            None => None,
            Some((t, v, q)) => {
                proof {
                    lemma_read_field_bounds(s, pos, limit, level, MsgType::CVars);
                }
                match v {
                    Val::Window(a, l) => match cvar_fold(s, a, l, level + 1, ConVarView { name: None, value: None }) {
                        Some(e) => cvars_fold(s, q, limit, level, acc.push(e)),
                        None => None,
                    },
                    _ => cvars_fold(s, q, limit, level, acc),
                }
            },
        }
    }
}

fn decode_cvars_fold(buf: &[u8], start: usize, limit: u64, level: u64) -> (r: Option<Vec<ConVarRecord>>)
    requires
        start <= eff_end(buf@, limit as int),
        level <= RECURSION_LIMIT,
    ensures
        match cvars_fold(buf@, start as int, limit as int, level as int, Seq::empty()) {
            Some(v) => r matches Some(x) && x@.map_values(|e: ConVarRecord| e@) == v,
            None => r is None,
        },
{
    let ghost s = buf@;
    let end = window_end(buf.len(), limit);
    let mut p = start;
    let mut acc: Vec<ConVarRecord> = Vec::new();
    proof {
        assert(acc@.map_values(|e: ConVarRecord| e@) =~= Seq::<ConVarView>::empty());
    }
    while p < end
        invariant
            s == buf@,
            end == eff_end(s, limit as int),
            start <= p <= end,
            level <= RECURSION_LIMIT,
            cvars_fold(s, p as int, limit as int, level as int, acc@.map_values(|e: ConVarRecord| e@))
                == cvars_fold(s, start as int, limit as int, level as int, Seq::empty()),
        decreases end - p,
    {
        proof {
            lemma_read_field_bounds(s, p as int, limit as int, level as int, MsgType::CVars);
        }
        match next_field(buf, p, limit, level, MsgType::CVars) {
            None => return None,
            Some((t, v, q)) => {
                match v {
                    FieldValue::Window(a, l) => {
                        match decode_cvar_fold(buf, a, l, level + 1) {
                            Some(e) => {
                                let ghost old_acc = acc@;
                                acc.push(e);
                                proof {
                                    assert(acc@.map_values(|e: ConVarRecord| e@)
                                        =~= old_acc.map_values(|e: ConVarRecord| e@).push(e@));
                                }
                            },
                            None => return None,
                        }
                    },
                    _ => {},
                }
                p = q;
            },
        }
    }
    Some(acc)
}

/// The console variables of a `CNETMsg_SetConVar`: those of its last
/// `convars` field, none where it has none.
pub open spec fn set_convar_fold(s: Seq<u8>, pos: int, limit: int, level: int, acc: Seq<ConVarView>) -> Option<Seq<ConVarView>>
    decreases eff_end(s, limit) - pos,
{
    if pos < 0 || pos >= eff_end(s, limit) {
        Some(acc)
    } else {
        match read_field(s, pos, limit, level, MsgType::SetConVar) {
            None => None,
            Some((t, v, q)) => {
                proof {
                    lemma_read_field_bounds(s, pos, limit, level, MsgType::SetConVar);
                }
                match v {
                    Val::Window(a, l) => match cvars_fold(s, a, l, level + 1, Seq::empty()) {
                        Some(e) => set_convar_fold(s, q, limit, level, e),
                        None => None,
                    },
                    _ => set_convar_fold(s, q, limit, level, acc),
                }
            },
        }
    }
}

/// The console variables that `bytes` encode as a `CNETMsg_SetConVar`.
pub open spec fn set_convar_of(bytes: Seq<u8>) -> Option<Seq<ConVarView>> {
    set_convar_fold(bytes, 0, top_limit(), 0, Seq::empty())
}

/// Decodes a `CNETMsg_SetConVar` into its list of console variables;
/// `None` exactly where the bytes do not decode.
pub fn decode_set_convar(bytes: &[u8]) -> (r: Option<Vec<ConVarRecord>>)
    ensures
        match set_convar_of(bytes@) {
            Some(v) => r matches Some(x) && x@.map_values(|e: ConVarRecord| e@) == v,
            None => r is None,
        },
{
    let ghost s = bytes@;
    let limit = u64::MAX;
    let end = window_end(bytes.len(), limit);
    let mut p: usize = 0;
    let mut acc: Vec<ConVarRecord> = Vec::new();
    proof {
        assert(acc@.map_values(|e: ConVarRecord| e@) =~= Seq::<ConVarView>::empty());
    }
    while p < end
        invariant
            s == bytes@,
            limit == u64::MAX,
            end == eff_end(s, limit as int),
            p <= end,
            set_convar_fold(s, p as int, limit as int, 0, acc@.map_values(|e: ConVarRecord| e@))
                == set_convar_of(s),
        decreases end - p,
    {
        proof {
            lemma_read_field_bounds(s, p as int, limit as int, 0, MsgType::SetConVar);
        }
        match next_field(bytes, p, limit, 0, MsgType::SetConVar) {
            None => return None,
            Some((t, v, q)) => {
                match v {
                    FieldValue::Window(a, l) => {
                        match decode_cvars_fold(bytes, a, l, 1) {
                            Some(e) => {
                                acc = e;
                            },
                            None => return None,
                        }
                    },
                    _ => {},
                }
                p = q;
            },
        }
    }
    Some(acc)
}

// ---------------------------------------------------------------- players at the end of a match

pub open spec fn player_step(s: Seq<u8>, level: int, acc: PlayerRecordView, t: int, v: Val) -> Option<PlayerRecordView> {
    match v {
        Val::Int(x) => Some(
            if t == 16 {
                PlayerRecordView { xuid: Some(x as u64), ..acc }
            } else if t == 32 {
                PlayerRecordView { team_number: Some(x as i32), ..acc }
            } else {
                acc
            },
        ),
        Val::Text(x) => Some(
            if t == 26 {
                PlayerRecordView { name: Some(x), ..acc }
            } else {
                acc
            },
        ),
        Val::Window(a, l) => if t == 42 {
            if check_fold(s, a, l, level + 1, MsgType::Accolade) {
                Some(acc)
            } else {
                None
            }
        } else {
            match item_fold(s, a, l, level + 1, EconItemView::empty()) {
                Some(it) => Some(PlayerRecordView { items: acc.items.push(it), ..acc }),
                None => None,
            }
        },
        Val::Packed(..) => Some(acc),
        Val::Skip => Some(acc),
    }
}

pub open spec fn player_fold(s: Seq<u8>, pos: int, limit: int, level: int, acc: PlayerRecordView) -> Option<PlayerRecordView>
    decreases eff_end(s, limit) - pos,
{
    if pos < 0 || pos >= eff_end(s, limit) {
        Some(acc)
    } else {
        match read_field(s, pos, limit, level, MsgType::PlayerData) {
            None => None,
            Some((t, v, q)) => {
                proof {
                    lemma_read_field_bounds(s, pos, limit, level, MsgType::PlayerData);
                }
                match player_step(s, level, acc, t, v) {
                    Some(next) => player_fold(s, q, limit, level, next),
                    None => None,
                }
            },
        }
    }
}

fn decode_player_fold(buf: &[u8], start: usize, limit: u64, level: u64) -> (r: Option<PlayerRecord>)
    requires
        start <= eff_end(buf@, limit as int),
        level <= RECURSION_LIMIT,
    ensures
        match player_fold(buf@, start as int, limit as int, level as int, PlayerRecordView::empty()) {
            Some(v) => r matches Some(x) && x@ == v,
            None => r is None,
        },
{
    let ghost s = buf@;
    let end = window_end(buf.len(), limit);
    let mut p = start;
    let mut acc = PlayerRecord { xuid: None, name: None, team_number: None, items: Vec::new() };
    proof {
        assert(acc.items@.map_values(|i: EconItem| i@) =~= Seq::<EconItemView>::empty());
    }
    while p < end
        invariant
            s == buf@,
            end == eff_end(s, limit as int),
            start <= p <= end,
            level <= RECURSION_LIMIT,
            player_fold(s, p as int, limit as int, level as int, acc@)
                == player_fold(s, start as int, limit as int, level as int, PlayerRecordView::empty()),
        decreases end - p,
    {
        proof {
            lemma_read_field_bounds(s, p as int, limit as int, level as int, MsgType::PlayerData);
        }
        match next_field(buf, p, limit, level, MsgType::PlayerData) {
            None => return None,
            Some((t, v, q)) => {
                match v {
                    FieldValue::Unsigned(x) => {
                        if t == 16 {
                            acc.xuid = Some(x);
                        }
                    },
                    FieldValue::Signed(x) => {
                        if t == 32 {
                            acc.team_number = Some(x);
                        }
                    },
                    FieldValue::Text(x) => {
                        if t == 26 {
                            acc.name = Some(x);
                        }
                    },
                    FieldValue::Window(a, l) => {
                        if t == 42 {
                            if !check_message(buf, a, l, level + 1, MsgType::Accolade) {
                                return None;
                            }
                        } else {
                            match decode_item_fold(buf, a, l, level + 1) {
                                Some(it) => {
                                    let ghost old_items = acc.items@;
                                    acc.items.push(it);
                                    proof {
                                        assert(acc.items@.map_values(|i: EconItem| i@)
                                            =~= old_items.map_values(|i: EconItem| i@).push(it@));
                                    }
                                },
                                None => return None,
                            }
                        }
                    },
                    FieldValue::Packed(..) => {},
                    FieldValue::Skipped => {},
                }
                p = q;
            },
        }
    }
    Some(acc)
}

pub open spec fn end_of_match_fold(s: Seq<u8>, pos: int, limit: int, level: int, acc: Seq<PlayerRecordView>) -> Option<Seq<PlayerRecordView>>
    decreases eff_end(s, limit) - pos,
{
    if pos < 0 || pos >= eff_end(s, limit) {
        Some(acc)
    } else {
        match read_field(s, pos, limit, level, MsgType::EndOfMatch) {
            None => None,
            Some((t, v, q)) => {
                proof {
                    lemma_read_field_bounds(s, pos, limit, level, MsgType::EndOfMatch);
                }
                match v {
                    Val::Window(a, l) => match player_fold(s, a, l, level + 1, PlayerRecordView::empty()) {
                        Some(e) => end_of_match_fold(s, q, limit, level, acc.push(e)),
                        None => None,
                    },
                    _ => end_of_match_fold(s, q, limit, level, acc),
                }
            },
        }
    }
}

fn decode_end_of_match_fold(buf: &[u8], start: usize, limit: u64, level: u64) -> (r: Option<Vec<PlayerRecord>>)
    requires
        start <= eff_end(buf@, limit as int),
        level <= RECURSION_LIMIT,
    ensures
        match end_of_match_fold(buf@, start as int, limit as int, level as int, Seq::empty()) {
            Some(v) => r matches Some(x) && x@.map_values(|e: PlayerRecord| e@) == v,
            None => r is None,
        },
{
    let ghost s = buf@;
    let end = window_end(buf.len(), limit);
    let mut p = start;
    let mut acc: Vec<PlayerRecord> = Vec::new();
    proof {
        assert(acc@.map_values(|e: PlayerRecord| e@) =~= Seq::<PlayerRecordView>::empty());
    }
    while p < end
        invariant
            s == buf@,
            end == eff_end(s, limit as int),
            start <= p <= end,
            level <= RECURSION_LIMIT,
            end_of_match_fold(s, p as int, limit as int, level as int, acc@.map_values(|e: PlayerRecord| e@))
                == end_of_match_fold(s, start as int, limit as int, level as int, Seq::empty()),
        decreases end - p,
    {
        proof {
            lemma_read_field_bounds(s, p as int, limit as int, level as int, MsgType::EndOfMatch);
        }
        match next_field(buf, p, limit, level, MsgType::EndOfMatch) {
            None => return None,
            Some((t, v, q)) => {
                match v {
                    FieldValue::Window(a, l) => {
                        match decode_player_fold(buf, a, l, level + 1) {
                            Some(e) => {
                                let ghost old_acc = acc@;
                                acc.push(e);
                                proof {
                                    assert(acc@.map_values(|e: PlayerRecord| e@)
                                        =~= old_acc.map_values(|e: PlayerRecord| e@).push(e@));
                                }
                            },
                            None => return None,
                        }
                    },
                    _ => {},
                }
                p = q;
            },
        }
    }
    Some(acc)
}

// ---------------------------------------------------------------- class table

pub open spec fn class_step(acc: ClassRecordView, t: int, v: Val) -> ClassRecordView {
    match v {
        Val::Int(x) => if t == 8 {
            ClassRecordView { class_id: Some(x as i32), ..acc }
        } else {
            acc
        },
        Val::Text(x) => if t == 18 {
            ClassRecordView { network_name: Some(x), ..acc }
        } else {
            acc
        },
        _ => acc,
    }
}

pub open spec fn class_fold(s: Seq<u8>, pos: int, limit: int, level: int, acc: ClassRecordView) -> Option<ClassRecordView>
    decreases eff_end(s, limit) - pos,
{
    if pos < 0 || pos >= eff_end(s, limit) {
        Some(acc)
    } else {
        match read_field(s, pos, limit, level, MsgType::ClassEntry) {
            None => None,
            Some((t, v, q)) => {
                proof {
                    lemma_read_field_bounds(s, pos, limit, level, MsgType::ClassEntry);
                }
                class_fold(s, q, limit, level, class_step(acc, t, v))
            },
        }
    }
}

fn decode_class_fold(buf: &[u8], start: usize, limit: u64, level: u64) -> (r: Option<ClassRecord>)
    requires
        start <= eff_end(buf@, limit as int),
        level <= RECURSION_LIMIT,
    ensures
        match class_fold(buf@, start as int, limit as int, level as int, ClassRecordView { class_id: None, network_name: None }) {
            Some(v) => r matches Some(x) && x@ == v,
            None => r is None,
        },
{
    let ghost s = buf@;
    let end = window_end(buf.len(), limit);
    let mut p = start;
    let mut acc = ClassRecord { class_id: None, network_name: None };
    while p < end
        invariant
            s == buf@,
            end == eff_end(s, limit as int),
            start <= p <= end,
            level <= RECURSION_LIMIT,
            class_fold(s, p as int, limit as int, level as int, acc@)
                == class_fold(s, start as int, limit as int, level as int, ClassRecordView { class_id: None, network_name: None }),
        decreases end - p,
    {
        proof {
            lemma_read_field_bounds(s, p as int, limit as int, level as int, MsgType::ClassEntry);
        }
        match next_field(buf, p, limit, level, MsgType::ClassEntry) {
            None => return None,
            Some((t, v, q)) => {
                match v {
                    FieldValue::Signed(x) => {
                        if t == 8 {
                            acc.class_id = Some(x);
                        }
                    },
                    FieldValue::Text(x) => {
                        if t == 18 {
                            acc.network_name = Some(x);
                        }
                    },
                    _ => {},
                }
                p = q;
            },
        }
    }
    Some(acc)
}

pub open spec fn class_info_fold(s: Seq<u8>, pos: int, limit: int, level: int, acc: Seq<ClassRecordView>) -> Option<Seq<ClassRecordView>>
    decreases eff_end(s, limit) - pos,
{
    if pos < 0 || pos >= eff_end(s, limit) {
        Some(acc)
    } else {
        match read_field(s, pos, limit, level, MsgType::ClassInfo) {
            None => None,
            Some((t, v, q)) => {
                proof {
                    lemma_read_field_bounds(s, pos, limit, level, MsgType::ClassInfo);
                }
                match v {
                    Val::Window(a, l) => match class_fold(s, a, l, level + 1, ClassRecordView { class_id: None, network_name: None }) {
                        Some(e) => class_info_fold(s, q, limit, level, acc.push(e)),
                        None => None,
                    },
                    _ => class_info_fold(s, q, limit, level, acc),
                }
            },
        }
    }
}

fn decode_class_info_fold(buf: &[u8], start: usize, limit: u64, level: u64) -> (r: Option<Vec<ClassRecord>>)
    requires
        start <= eff_end(buf@, limit as int),
        level <= RECURSION_LIMIT,
    ensures
        match class_info_fold(buf@, start as int, limit as int, level as int, Seq::empty()) {
            Some(v) => r matches Some(x) && x@.map_values(|e: ClassRecord| e@) == v,
            None => r is None,
        },
{
    let ghost s = buf@;
    let end = window_end(buf.len(), limit);
    let mut p = start;
    let mut acc: Vec<ClassRecord> = Vec::new();
    proof {
        assert(acc@.map_values(|e: ClassRecord| e@) =~= Seq::<ClassRecordView>::empty());
    }
    while p < end
        invariant
            s == buf@,
            end == eff_end(s, limit as int),
            start <= p <= end,
            level <= RECURSION_LIMIT,
            class_info_fold(s, p as int, limit as int, level as int, acc@.map_values(|e: ClassRecord| e@))
                == class_info_fold(s, start as int, limit as int, level as int, Seq::empty()),
        decreases end - p,
    {
        proof {
            lemma_read_field_bounds(s, p as int, limit as int, level as int, MsgType::ClassInfo);
        }
        match next_field(buf, p, limit, level, MsgType::ClassInfo) {
            None => return None,
            Some((t, v, q)) => {
                match v {
                    FieldValue::Window(a, l) => {
                        match decode_class_fold(buf, a, l, level + 1) {
                            Some(e) => {
                                let ghost old_acc = acc@;
                                acc.push(e);
                                proof {
                                    assert(acc@.map_values(|e: ClassRecord| e@)
                                        =~= old_acc.map_values(|e: ClassRecord| e@).push(e@));
                                }
                            },
                            None => return None,
                        }
                    },
                    _ => {},
                }
                p = q;
            },
        }
    }
    Some(acc)
}

// ---------------------------------------------------------------- top-level messages

/// The items that `bytes` encode as a `CCSUsrMsg_SendPlayerItemDrops`.
pub open spec fn item_drops_of(bytes: Seq<u8>) -> Option<Seq<EconItemView>> {
    drops_fold(bytes, 0, top_limit(), 0, Seq::empty())
}

/// Decodes a `CCSUsrMsg_SendPlayerItemDrops` into its items; `None` exactly
/// where the bytes do not decode.
pub fn decode_item_drops(bytes: &[u8]) -> (r: Option<Vec<EconItem>>)
    ensures
        match item_drops_of(bytes@) {
            Some(v) => r matches Some(x) && x@.map_values(|e: EconItem| e@) == v,
            None => r is None,
        },
{
    decode_drops_fold(bytes, 0, u64::MAX, 0)
}

/// The players that `bytes` encode as a `CCSUsrMsg_EndOfMatchAllPlayersData`.
pub open spec fn end_of_match_of(bytes: Seq<u8>) -> Option<Seq<PlayerRecordView>> {
    end_of_match_fold(bytes, 0, top_limit(), 0, Seq::empty())
}

/// Decodes a `CCSUsrMsg_EndOfMatchAllPlayersData` into its players; `None`
/// exactly where the bytes do not decode.
pub fn decode_end_of_match(bytes: &[u8]) -> (r: Option<Vec<PlayerRecord>>)
    ensures
        match end_of_match_of(bytes@) {
            Some(v) => r matches Some(x) && x@.map_values(|e: PlayerRecord| e@) == v,
            None => r is None,
        },
{
    decode_end_of_match_fold(bytes, 0, u64::MAX, 0)
}

/// The classes that `bytes` encode as a `CDemoClassInfo`.
pub open spec fn class_info_of(bytes: Seq<u8>) -> Option<Seq<ClassRecordView>> {
    class_info_fold(bytes, 0, top_limit(), 0, Seq::empty())
}

/// Decodes a `CDemoClassInfo` into its classes; `None` exactly where the
/// bytes do not decode.
pub fn decode_class_info(bytes: &[u8]) -> (r: Option<Vec<ClassRecord>>)
    ensures
        match class_info_of(bytes@) {
            Some(v) => r matches Some(x) && x@.map_values(|e: ClassRecord| e@) == v,
            None => r is None,
        },
{
    decode_class_info_fold(bytes, 0, u64::MAX, 0)
}

/// Whether `bytes` decode as a `CDemoFileInfo`.
pub open spec fn file_info_ok(bytes: Seq<u8>) -> bool {
    check_fold(bytes, 0, top_limit(), 0, MsgType::FileInfo)
}

/// Checks that `bytes` decode as a `CDemoFileInfo`.
pub fn check_file_info(bytes: &[u8]) -> (r: bool)
    ensures
        r == file_info_ok(bytes@),
{
    check_message(bytes, 0, u64::MAX, 0, MsgType::FileInfo)
}

} // verus!
