//! The records that the parser keeps of the net messages it reads.
use vstd::prelude::*;

verus! {

/// The text of an optional string.
pub open spec fn opt_text(o: Option<String>) -> Option<Seq<char>> {
    match o {
        Some(t) => Some(t@),
        None => None,
    }
}

/// One chat line.
pub struct ChatMessageRecord {
    pub entity_idx: Option<i32>,
    pub param1: Option<String>,
    pub param2: Option<String>,
    pub param3: Option<String>,
    pub param4: Option<String>,
}

pub struct ChatMessageView {
    pub entity_idx: Option<i32>,
    pub param1: Option<Seq<char>>,
    pub param2: Option<Seq<char>>,
    pub param3: Option<Seq<char>>,
    pub param4: Option<Seq<char>>,
}

impl ChatMessageView {
    pub open spec fn empty() -> ChatMessageView {
        ChatMessageView { entity_idx: None, param1: None, param2: None, param3: None, param4: None }
    }
}

impl View for ChatMessageRecord {
    type V = ChatMessageView;

    open spec fn view(&self) -> ChatMessageView {
        ChatMessageView {
            entity_idx: self.entity_idx,
            param1: opt_text(self.param1),
            param2: opt_text(self.param2),
            param3: opt_text(self.param3),
            param4: opt_text(self.param4),
        }
    }
}

impl ChatMessageRecord {
    pub fn empty() -> (r: ChatMessageRecord)
        ensures
            r@ == ChatMessageView::empty(),
    {
        ChatMessageRecord { entity_idx: None, param1: None, param2: None, param3: None, param4: None }
    }
}

/// One item: dropped to a player, or worn by one at the end of a match.
pub struct EconItem {
    pub account_id: Option<u32>,
    pub item_id: Option<u64>,
    pub def_index: Option<u32>,
    pub paint_index: Option<u32>,
    pub rarity: Option<u32>,
    pub quality: Option<u32>,
    pub paint_seed: Option<u32>,
    pub paint_wear: Option<u32>,
    pub quest_id: Option<u32>,
    pub dropreason: Option<u32>,
    pub custom_name: Option<String>,
    pub inventory: Option<u32>,
    pub ent_idx: Option<i32>,
    pub steamid: Option<u64>,
}

pub struct EconItemView {
    pub account_id: Option<u32>,
    pub item_id: Option<u64>,
    pub def_index: Option<u32>,
    pub paint_index: Option<u32>,
    pub rarity: Option<u32>,
    pub quality: Option<u32>,
    pub paint_seed: Option<u32>,
    pub paint_wear: Option<u32>,
    pub quest_id: Option<u32>,
    pub dropreason: Option<u32>,
    pub custom_name: Option<Seq<char>>,
    pub inventory: Option<u32>,
    pub ent_idx: Option<i32>,
    pub steamid: Option<u64>,
}

impl EconItemView {
    pub open spec fn empty() -> EconItemView {
        EconItemView {
            account_id: None,
            item_id: None,
            def_index: None,
            paint_index: None,
            rarity: None,
            quality: None,
            paint_seed: None,
            paint_wear: None,
            quest_id: None,
            dropreason: None,
            custom_name: None,
            inventory: None,
            ent_idx: None,
            steamid: None,
        }
    }
}

impl View for EconItem {
    type V = EconItemView;

    open spec fn view(&self) -> EconItemView {
        EconItemView {
            account_id: self.account_id,
            item_id: self.item_id,
            def_index: self.def_index,
            paint_index: self.paint_index,
            rarity: self.rarity,
            quality: self.quality,
            paint_seed: self.paint_seed,
            paint_wear: self.paint_wear,
            quest_id: self.quest_id,
            dropreason: self.dropreason,
            custom_name: opt_text(self.custom_name),
            inventory: self.inventory,
            ent_idx: self.ent_idx,
            steamid: self.steamid,
        }
    }
}

impl EconItem {
    pub fn empty() -> (r: EconItem)
        ensures
            r@ == EconItemView::empty(),
    {
        EconItem {
            account_id: None,
            item_id: None,
            def_index: None,
            paint_index: None,
            rarity: None,
            quality: None,
            paint_seed: None,
            paint_wear: None,
            quest_id: None,
            dropreason: None,
            custom_name: None,
            inventory: None,
            ent_idx: None,
            steamid: None,
        }
    }
}

/// A player as the end-of-match message lists it.
pub struct PlayerEndData {
    pub name: Option<String>,
    pub steamid: Option<u64>,
    pub team_number: Option<i32>,
}

pub struct PlayerEndView {
    pub name: Option<Seq<char>>,
    pub steamid: Option<u64>,
    pub team_number: Option<i32>,
}

impl View for PlayerEndData {
    type V = PlayerEndView;

    open spec fn view(&self) -> PlayerEndView {
        PlayerEndView { name: opt_text(self.name), steamid: self.steamid, team_number: self.team_number }
    }
}

/// One player of the end-of-match message with the items that it lists.
pub struct PlayerRecord {
    pub xuid: Option<u64>,
    pub name: Option<String>,
    pub team_number: Option<i32>,
    pub items: Vec<EconItem>,
}

pub struct PlayerRecordView {
    pub xuid: Option<u64>,
    pub name: Option<Seq<char>>,
    pub team_number: Option<i32>,
    pub items: Seq<EconItemView>,
}

impl PlayerRecordView {
    pub open spec fn empty() -> PlayerRecordView {
        PlayerRecordView { xuid: None, name: None, team_number: None, items: Seq::empty() }
    }
}

impl View for PlayerRecord {
    type V = PlayerRecordView;

    open spec fn view(&self) -> PlayerRecordView {
        PlayerRecordView {
            xuid: self.xuid,
            name: opt_text(self.name),
            team_number: self.team_number,
            items: self.items@.map_values(|i: EconItem| i@),
        }
    }
}

/// One console variable as a message sets it.
pub struct ConVarRecord {
    pub name: Option<String>,
    pub value: Option<String>,
}

pub struct ConVarView {
    pub name: Option<Seq<char>>,
    pub value: Option<Seq<char>>,
}

impl View for ConVarRecord {
    type V = ConVarView;

    open spec fn view(&self) -> ConVarView {
        ConVarView { name: opt_text(self.name), value: opt_text(self.value) }
    }
}

/// One network class of the class table message.
pub struct ClassRecord {
    pub class_id: Option<i32>,
    pub network_name: Option<String>,
}

pub struct ClassRecordView {
    pub class_id: Option<i32>,
    pub network_name: Option<Seq<char>>,
}

impl View for ClassRecord {
    type V = ClassRecordView;

    open spec fn view(&self) -> ClassRecordView {
        ClassRecordView { class_id: self.class_id, network_name: opt_text(self.network_name) }
    }
}

} // verus!
