//! The net messages that the demo parser reads, each decoded from its
//! protocol-buffer encoding by a fold over its fields.
use vstd::prelude::*;
use crate::wire::{
    check_packed_int32, eff_end, lemma_plain_skip_bounds, packed_int32_ok, lemma_varint_at_bounds, lemma_varints_bounds, read_payload,
    read_value, read_varint32, varint32, varint32_at, window_end, FieldValue, Kind, Val,
    RECURSION_LIMIT,
};

verus! {

/// The message types that are decoded here.
#[derive(PartialEq, Eq, Structural, Clone, Copy)]
pub enum MsgType {
    /// `CUserMessageSayText2`: a chat line.
    SayText2,
    /// `CNETMsg_SetConVar`: a batch of console variables.
    SetConVar,
    /// `CMsg_CVars`: the list inside `CNETMsg_SetConVar`.
    CVars,
    /// `CMsg_CVars.CVar`: one console variable.
    CVar,
    /// `CCSUsrMsg_SendPlayerItemDrops`: items dropped to players.
    ItemDrops,
    /// `CEconItemPreviewDataBlock`: one item.
    ItemPreview,
    /// `CCSUsrMsg_EndOfMatchAllPlayersData`: the players at the end of a match.
    EndOfMatch,
    /// `CCSUsrMsg_EndOfMatchAllPlayersData.PlayerData`: one player.
    PlayerData,
    /// `CCSUsrMsg_EndOfMatchAllPlayersData.Accolade`: an award.
    Accolade,
    /// `CDemoClassInfo`: the table of network classes.
    ClassInfo,
    /// `CDemoClassInfo.class_t`: one network class.
    ClassEntry,
    /// `CDemoFileInfo`: playback length and game information.
    FileInfo,
    /// `CEconItemPreviewDataBlock.Sticker`: a sticker or key chain on an item.
    Sticker,
    /// `CGameInfo`: game information of a demo.
    GameInfo,
    /// `CGameInfo.CDotaGameInfo`.
    DotaGameInfo,
    /// `CGameInfo.CDotaGameInfo.CPlayerInfo`.
    DotaPlayerInfo,
    /// `CGameInfo.CDotaGameInfo.CHeroSelectEvent`.
    DotaHeroSelect,
    /// `CGameInfo.CCSGameInfo`: the ticks on which rounds start.
    CsGameInfo,
    /// A message that declares no field.
    Opaque,
}

/// How the field with tag `tag` of a message of type `m` is read.
pub open spec fn kind_of(m: MsgType, tag: int) -> Kind {
    match m {
        MsgType::SayText2 => if tag == 8 {
            Kind::Int32
        } else if tag == 16 {
            Kind::UInt64
        } else if tag == 26 || tag == 34 || tag == 42 || tag == 50 || tag == 58 {
            Kind::Text
        } else {
            Kind::Plain
        },
        MsgType::SetConVar => if tag == 10 {
            Kind::Message
        } else {
            Kind::Plain
        },
        MsgType::CVars => if tag == 10 {
            Kind::Message
        } else {
            Kind::Plain
        },
        MsgType::CVar => if tag == 10 || tag == 18 {
            Kind::Text
        } else {
            Kind::Plain
        },
        MsgType::ItemDrops => if tag == 10 {
            Kind::Message
        } else {
            Kind::Plain
        },
        MsgType::ItemPreview => if tag == 8 || tag == 24 || tag == 32 || tag == 40 || tag == 48 || tag == 56 || tag == 64 || tag == 72 || tag == 80 || tag == 104 || tag == 112 || tag == 120 || tag == 128 || tag == 136 || tag == 152 {
            Kind::UInt32
        } else if tag == 16 {
            Kind::UInt64
        } else if tag == 90 {
            Kind::Text
        } else if tag == 98 || tag == 162 {
            Kind::Message
        } else if tag == 144 {
            Kind::Int32
        } else {
            Kind::Plain
        },
        MsgType::EndOfMatch => if tag == 10 {
            Kind::Message
        } else if tag == 16 {
            Kind::Int32
        } else {
            Kind::Plain
        },
        MsgType::PlayerData => if tag == 8 || tag == 32 || tag == 56 {
            Kind::Int32
        } else if tag == 16 || tag == 64 {
            Kind::UInt64
        } else if tag == 26 {
            Kind::Text
        } else if tag == 42 || tag == 50 {
            Kind::Message
        } else {
            Kind::Plain
        },
        MsgType::Accolade => if tag == 8 || tag == 24 {
            Kind::Int32
        } else {
            Kind::Plain
        },
        MsgType::ClassInfo => if tag == 10 {
            Kind::Message
        } else {
            Kind::Plain
        },
        MsgType::ClassEntry => if tag == 8 {
            Kind::Int32
        } else if tag == 18 || tag == 26 {
            Kind::Text
        } else {
            Kind::Plain
        },
        MsgType::FileInfo => if tag == 16 || tag == 24 {
            Kind::Int32
        } else if tag == 34 {
            Kind::Message
        } else {
            Kind::Plain
        },
        MsgType::Sticker => if tag == 8 || tag == 16 || tag == 48 || tag == 80 {
            Kind::UInt32
        } else {
            Kind::Plain
        },
        MsgType::GameInfo => if tag == 34 || tag == 42 {
            Kind::Message
        } else {
            Kind::Plain
        },
        MsgType::DotaGameInfo => if tag == 8 {
            Kind::UInt64
        } else if tag == 16 || tag == 24 {
            Kind::Int32
        } else if tag == 34 || tag == 50 {
            Kind::Message
        } else if tag == 40 || tag == 56 || tag == 64 || tag == 88 {
            Kind::UInt32
        } else if tag == 74 || tag == 82 {
            Kind::Text
        } else {
            Kind::Plain
        },
        MsgType::DotaPlayerInfo => if tag == 10 || tag == 18 {
            Kind::Text
        } else if tag == 24 || tag == 32 {
            Kind::UInt64
        } else if tag == 40 {
            Kind::Int32
        } else {
            Kind::Plain
        },
        MsgType::DotaHeroSelect => if tag == 8 {
            Kind::UInt64
        } else if tag == 16 {
            Kind::UInt32
        } else if tag == 24 {
            Kind::Int32
        } else {
            Kind::Plain
        },
        MsgType::CsGameInfo => if tag == 8 {
            Kind::Int32
        } else if tag == 10 {
            Kind::PackedInt32
        } else {
            Kind::Plain
        },
        MsgType::Opaque => Kind::Plain,
    }
}

/// The type of the nested message in field `tag` of a message of type `m`.
pub open spec fn nested_of(m: MsgType, tag: int) -> MsgType {
    match m {
        MsgType::SetConVar => MsgType::CVars,
        MsgType::CVars => MsgType::CVar,
        MsgType::ItemDrops => MsgType::ItemPreview,
        MsgType::ItemPreview => MsgType::Sticker,
        MsgType::EndOfMatch => MsgType::PlayerData,
        MsgType::PlayerData => if tag == 42 { MsgType::Accolade } else { MsgType::ItemPreview },
        MsgType::ClassInfo => MsgType::ClassEntry,
        MsgType::FileInfo => MsgType::GameInfo,
        MsgType::GameInfo => if tag == 34 { MsgType::DotaGameInfo } else { MsgType::CsGameInfo },
        MsgType::DotaGameInfo => if tag == 34 { MsgType::DotaPlayerInfo } else { MsgType::DotaHeroSelect },
        _ => MsgType::Opaque,
    }
}

fn kind_for(m: MsgType, tag: u32) -> (k: Kind)
    ensures
        k == kind_of(m, tag as int),
{
    match m {
        MsgType::SayText2 => if tag == 8 {
            Kind::Int32
        } else if tag == 16 {
            Kind::UInt64
        } else if tag == 26 || tag == 34 || tag == 42 || tag == 50 || tag == 58 {
            Kind::Text
        } else {
            Kind::Plain
        },
        MsgType::SetConVar => if tag == 10 {
            Kind::Message
        } else {
            Kind::Plain
        },
        MsgType::CVars => if tag == 10 {
            Kind::Message
        } else {
            Kind::Plain
        },
        MsgType::CVar => if tag == 10 || tag == 18 {
            Kind::Text
        } else {
            Kind::Plain
        },
        MsgType::ItemDrops => if tag == 10 {
            Kind::Message
        } else {
            Kind::Plain
        },
        MsgType::ItemPreview => if tag == 8 || tag == 24 || tag == 32 || tag == 40 || tag == 48 || tag == 56 || tag == 64 || tag == 72 || tag == 80 || tag == 104 || tag == 112 || tag == 120 || tag == 128 || tag == 136 || tag == 152 {
            Kind::UInt32
        } else if tag == 16 {
            Kind::UInt64
        } else if tag == 90 {
            Kind::Text
        } else if tag == 98 || tag == 162 {
            Kind::Message
        } else if tag == 144 {
            Kind::Int32
        } else {
            Kind::Plain
        },
        MsgType::EndOfMatch => if tag == 10 {
            Kind::Message
        } else if tag == 16 {
            Kind::Int32
        } else {
            Kind::Plain
        },
        MsgType::PlayerData => if tag == 8 || tag == 32 || tag == 56 {
            Kind::Int32
        } else if tag == 16 || tag == 64 {
            Kind::UInt64
        } else if tag == 26 {
            Kind::Text
        } else if tag == 42 || tag == 50 {
            Kind::Message
        } else {
            Kind::Plain
        },
        MsgType::Accolade => if tag == 8 || tag == 24 {
            Kind::Int32
        } else {
            Kind::Plain
        },
        MsgType::ClassInfo => if tag == 10 {
            Kind::Message
        } else {
            Kind::Plain
        },
        MsgType::ClassEntry => if tag == 8 {
            Kind::Int32
        } else if tag == 18 || tag == 26 {
            Kind::Text
        } else {
            Kind::Plain
        },
        MsgType::FileInfo => if tag == 16 || tag == 24 {
            Kind::Int32
        } else if tag == 34 {
            Kind::Message
        } else {
            Kind::Plain
        },
        MsgType::Sticker => if tag == 8 || tag == 16 || tag == 48 || tag == 80 {
            Kind::UInt32
        } else {
            Kind::Plain
        },
        MsgType::GameInfo => if tag == 34 || tag == 42 {
            Kind::Message
        } else {
            Kind::Plain
        },
        MsgType::DotaGameInfo => if tag == 8 {
            Kind::UInt64
        } else if tag == 16 || tag == 24 {
            Kind::Int32
        } else if tag == 34 || tag == 50 {
            Kind::Message
        } else if tag == 40 || tag == 56 || tag == 64 || tag == 88 {
            Kind::UInt32
        } else if tag == 74 || tag == 82 {
            Kind::Text
        } else {
            Kind::Plain
        },
        MsgType::DotaPlayerInfo => if tag == 10 || tag == 18 {
            Kind::Text
        } else if tag == 24 || tag == 32 {
            Kind::UInt64
        } else if tag == 40 {
            Kind::Int32
        } else {
            Kind::Plain
        },
        MsgType::DotaHeroSelect => if tag == 8 {
            Kind::UInt64
        } else if tag == 16 {
            Kind::UInt32
        } else if tag == 24 {
            Kind::Int32
        } else {
            Kind::Plain
        },
        MsgType::CsGameInfo => if tag == 8 {
            Kind::Int32
        } else if tag == 10 {
            Kind::PackedInt32
        } else {
            Kind::Plain
        },
        MsgType::Opaque => Kind::Plain,
    }
}

fn nested_for(m: MsgType, tag: u32) -> (n: MsgType)
    ensures
        n == nested_of(m, tag as int),
{
    match m {
        MsgType::SetConVar => MsgType::CVars,
        MsgType::CVars => MsgType::CVar,
        MsgType::ItemDrops => MsgType::ItemPreview,
        MsgType::ItemPreview => MsgType::Sticker,
        MsgType::EndOfMatch => MsgType::PlayerData,
        MsgType::PlayerData => if tag == 42 { MsgType::Accolade } else { MsgType::ItemPreview },
        MsgType::ClassInfo => MsgType::ClassEntry,
        MsgType::FileInfo => MsgType::GameInfo,
        MsgType::GameInfo => if tag == 34 { MsgType::DotaGameInfo } else { MsgType::CsGameInfo },
        MsgType::DotaGameInfo => if tag == 34 { MsgType::DotaPlayerInfo } else { MsgType::DotaHeroSelect },
        _ => MsgType::Opaque,
    }
}

/// The field at `pos` of a message of type `m`: its tag, its value and the
/// position after it.
pub open spec fn read_field(s: Seq<u8>, pos: int, limit: int, level: int, m: MsgType) -> Option<(int, Val, int)> {
    match varint32_at(s, pos, eff_end(s, limit)) {
        None => None,
        Some((t, p)) => match read_value(s, p, limit, level, t as int, kind_of(m, t as int)) {
            Some((v, q)) => Some((t as int, v, q)),
            None => None,
        },
    }
}

pub proof fn lemma_read_field_bounds(s: Seq<u8>, pos: int, limit: int, level: int, m: MsgType)
    requires
        0 <= pos < eff_end(s, limit) <= s.len(),
    ensures
        read_field(s, pos, limit, level, m) matches Some((t, v, q)) ==> pos < q <= eff_end(s, limit)
            && (v matches Val::Window(a, l) ==> pos < a <= eff_end(s, l) && l <= limit && q == eff_end(s, l)
                && level < RECURSION_LIMIT)
            && (v matches Val::Packed(a, l) ==> pos < a <= eff_end(s, l) && l <= limit && q == eff_end(s, l)),
{
    let end = eff_end(s, limit);
    lemma_varint_at_bounds(s, pos, end);
    if let Some((t, p)) = varint32_at(s, pos, end) {
        let rest = s.subrange(p, end);
        lemma_varints_bounds(rest);
        lemma_plain_skip_bounds(rest, t as int, level);
        if let Some((l, n)) = varint32(rest) {
            lemma_varints_bounds(rest);
        }
    }
}

/// Reads the field at `pos` of a message of type `m`.
pub fn next_field(buf: &[u8], pos: usize, limit: u64, level: u64, m: MsgType) -> (r: Option<(u32, FieldValue, usize)>)
    requires
        pos < eff_end(buf@, limit as int),
        level <= RECURSION_LIMIT,
    ensures
        match read_field(buf@, pos as int, limit as int, level as int, m) {
            Some((t, v, q)) => r matches Some((rt, fv, rq)) && rt == t && fv.val() == v && rq == q,
            None => r is None,
        },
        r matches Some((t, fv, _)) ==> fv.fits(kind_of(m, t as int)),
{
    let end = window_end(buf.len(), limit);
    match read_varint32(buf, pos, end) {
        None => None,
        Some((t, p)) => match read_payload(buf, p, limit, level, t, kind_for(m, t)) {
            Some((v, q)) => Some((t, v, q)),
            None => None,
        },
    }
}

/// Whether the message of type `m` that starts at `pos` and is limited by
/// `limit` decodes, at recursion level `level`.
pub open spec fn check_fold(s: Seq<u8>, pos: int, limit: int, level: int, m: MsgType) -> bool
    decreases eff_end(s, limit) - pos,
{
    let end = eff_end(s, limit);
    if pos < 0 || pos >= end {
        true
    } else {
        match read_field(s, pos, limit, level, m) {
            None => false,
            Some((t, v, q)) => {
                proof {
                    lemma_read_field_bounds(s, pos, limit, level, m);
                }
                (match v {
                    Val::Window(a, l) => check_fold(s, a, l, level + 1, nested_of(m, t)),
                    Val::Packed(a, l) => packed_int32_ok(s, a, l),
                    _ => true,
                }) && check_fold(s, q, limit, level, m)
            },
        }
    }
}

/// Checks that the message of type `m` at `pos`, limited by `limit`, decodes.
pub fn check_message(buf: &[u8], pos: usize, limit: u64, level: u64, m: MsgType) -> (r: bool)
    requires
        pos <= eff_end(buf@, limit as int),
        level <= RECURSION_LIMIT,
    ensures
        r == check_fold(buf@, pos as int, limit as int, level as int, m),
    decreases eff_end(buf@, limit as int) - pos,
{
    let ghost s = buf@;
    let end = window_end(buf.len(), limit);
    let mut p = pos;
    while p < end
        invariant
            s == buf@,
            end == eff_end(s, limit as int),
            pos <= p <= end,
            level <= RECURSION_LIMIT,
            check_fold(s, p as int, limit as int, level as int, m)
                == check_fold(s, pos as int, limit as int, level as int, m),
        decreases end - p,
    {
        proof {
            lemma_read_field_bounds(s, p as int, limit as int, level as int, m);
        }
        match next_field(buf, p, limit, level, m) {
            None => return false,
            Some((t, v, q)) => {
                match v {
                    FieldValue::Window(a, l) => {
                        if !check_message(buf, a, l, level + 1, nested_for(m, t)) {
                            return false;
                        }
                    },
                    FieldValue::Packed(a, l) => {
                        if !check_packed_int32(buf, a, l) {
                            return false;
                        }
                    },
                    _ => {},
                }
                p = q;
            },
        }
    }
    true
}

} // verus!
