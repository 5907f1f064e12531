//! The parser's state for the simpler net messages, and how each of them
//! changes it.
use vstd::prelude::*;
use ahash::AHashMap;
use crate::classes::{class_info_fits, class_table_from_message, class_table_of, opt_class_view, Class, ClassView, Serializer};
use crate::decode::{
    chat_message_of, check_file_info, decode_chat_message, decode_end_of_match, decode_item_drops,
    decode_set_convar, end_of_match_of, file_info_ok, item_drops_of, set_convar_of,
};
use crate::maps::{convar_entries, empty_text_map, insert_convar, new_convar_map, serializer_entries};
use crate::records::{
    opt_text, ChatMessageRecord, ChatMessageView, ConVarRecord, ConVarView, EconItem, EconItemView,
    PlayerEndData, PlayerEndView, PlayerRecord, PlayerRecordView,
};

verus! {

/// Errors of the net-message handlers; none of them fails on the messages
/// that their preconditions admit.
pub enum DemoParserError {
    /// A net message whose bytes do not decode.
    MalformedNetMessage,
}

/// What the parser has gathered from the net messages read so far.
pub struct Parser {
    pub chat_messages: Vec<ChatMessageRecord>,
    pub item_drops: Vec<EconItem>,
    pub skins: Vec<EconItem>,
    pub player_end_data: Vec<PlayerEndData>,
    pub convars: AHashMap<String, String>,
    pub cls_by_id: Option<Vec<Option<Class>>>,
}

pub open spec fn chats_view(v: Seq<ChatMessageRecord>) -> Seq<ChatMessageView> {
    v.map_values(|c: ChatMessageRecord| c@)
}

pub open spec fn items_view(v: Seq<EconItem>) -> Seq<EconItemView> {
    v.map_values(|c: EconItem| c@)
}

pub open spec fn ends_view(v: Seq<PlayerEndData>) -> Seq<PlayerEndView> {
    v.map_values(|c: PlayerEndData| c@)
}

pub open spec fn table_view(t: Option<Vec<Option<Class>>>) -> Option<Seq<Option<ClassView>>> {
    match t {
        Some(v) => Some(v@.map_values(|c: Option<Class>| opt_class_view(c))),
        None => None,
    }
}

/// A text, or the empty text where there is none.
pub open spec fn text_or_empty(o: Option<Seq<char>>) -> Seq<char> {
    match o {
        Some(t) => t,
        None => Seq::empty(),
    }
}

/// The console variables `m` after each of `cvs` was set in turn, a missing
/// name or value counting as empty; a later setting of a name wins.
pub open spec fn apply_convars(m: Map<Seq<char>, Seq<char>>, cvs: Seq<ConVarView>) -> Map<Seq<char>, Seq<char>>
    decreases cvs.len(),
{
    if cvs.len() == 0 {
        m
    } else {
        apply_convars(m, cvs.drop_last()).insert(text_or_empty(cvs.last().name), text_or_empty(cvs.last().value))
    }
}

/// What the parser keeps of a player of the end-of-match message.
pub open spec fn end_data_of(p: PlayerRecordView) -> PlayerEndView {
    PlayerEndView { name: p.name, steamid: p.xuid, team_number: p.team_number }
}

/// Whether an item has an item id other than 0.
pub open spec fn is_real_item(i: EconItemView) -> bool {
    i.item_id matches Some(v) && v != 0
}

/// The items of `items` that have an item id other than 0, in order, each
/// marked with the steam id `xuid` of the player wearing it.
pub open spec fn kept_skins(items: Seq<EconItemView>, xuid: Option<u64>) -> Seq<EconItemView>
    decreases items.len(),
{
    if items.len() == 0 {
        Seq::empty()
    } else {
        let prev = kept_skins(items.drop_last(), xuid);
        if is_real_item(items.last()) {
            prev.push(EconItemView { steamid: xuid, ..items.last() })
        } else {
            prev
        }
    }
}

/// The skins of all players of an end-of-match message, player by player.
pub open spec fn skins_of(players: Seq<PlayerRecordView>) -> Seq<EconItemView>
    decreases players.len(),
{
    if players.len() == 0 {
        Seq::empty()
    } else {
        skins_of(players.drop_last()) + kept_skins(players.last().items, players.last().xuid)
    }
}

fn copy_text(o: &Option<String>) -> (r: Option<String>)
    ensures
        opt_text(r) == opt_text(*o),
{
    match o {
        Some(t) => Some(t.clone()),
        None => None,
    }
}

fn copy_item(it: &EconItem, steamid: Option<u64>) -> (r: EconItem)
    ensures
        r@ == (EconItemView { steamid, ..it@ }),
{
    EconItem {
        account_id: it.account_id,
        item_id: it.item_id,
        def_index: it.def_index,
        paint_index: it.paint_index,
        rarity: it.rarity,
        quality: it.quality,
        paint_seed: it.paint_seed,
        paint_wear: it.paint_wear,
        quest_id: it.quest_id,
        dropreason: it.dropreason,
        custom_name: copy_text(&it.custom_name),
        inventory: it.inventory,
        ent_idx: it.ent_idx,
        steamid,
    }
}

impl Parser {
    /// A parser that has read no net message yet.
    pub fn new() -> (r: Parser)
        ensures
            r.chat_messages@.len() == 0,
            r.item_drops@.len() == 0,
            r.skins@.len() == 0,
            r.player_end_data@.len() == 0,
            convar_entries(r.convars) == empty_text_map(),
            r.cls_by_id is None,
    {
        Parser {
            chat_messages: Vec::new(),
            item_drops: Vec::new(),
            skins: Vec::new(),
            player_end_data: Vec::new(),
            convars: new_convar_map(),
            cls_by_id: None,
        }
    }

    /// Reads a `CUserMessageSayText2` and keeps its chat line.
    pub fn parse_chat_messages(&mut self, bytes: &[u8]) -> (r: Result<(), DemoParserError>)
        requires
            chat_message_of(bytes@) is Some,
        ensures
            r is Ok,
            chats_view(final(self).chat_messages@) == chats_view(old(self).chat_messages@).push(
                chat_message_of(bytes@).unwrap(),
            ),
            final(self).item_drops == old(self).item_drops,
            final(self).skins == old(self).skins,
            final(self).player_end_data == old(self).player_end_data,
            final(self).convars == old(self).convars,
            final(self).cls_by_id == old(self).cls_by_id,
    {
        match decode_chat_message(bytes) {
            Some(c) => {
                let ghost before = self.chat_messages@;
                self.chat_messages.push(c);
                proof {
                    assert(chats_view(self.chat_messages@) =~= chats_view(before).push(c@));
                }
            },
            None => {},
        }
        Ok(())
    }

    /// Reads a `CCSUsrMsg_SendPlayerItemDrops` and keeps its items, in order.
    pub fn parse_item_drops(&mut self, bytes: &[u8]) -> (r: Result<(), DemoParserError>)
        requires
            item_drops_of(bytes@) is Some,
        ensures
            r is Ok,
            items_view(final(self).item_drops@) == items_view(old(self).item_drops@) + item_drops_of(bytes@).unwrap(),
            final(self).chat_messages == old(self).chat_messages,
            final(self).skins == old(self).skins,
            final(self).player_end_data == old(self).player_end_data,
            final(self).convars == old(self).convars,
            final(self).cls_by_id == old(self).cls_by_id,
    {
        match decode_item_drops(bytes) {
            Some(mut items) => {
                let ghost before = self.item_drops@;
                let ghost added = items@;
                self.item_drops.append(&mut items);
                proof {
                    assert(items_view(self.item_drops@) =~= items_view(before) + items_view(added));
                }
            },
            None => {},
        }
        Ok(())
    }

    /// Reads a `CNETMsg_SetConVar` and sets each of its console variables in
    /// turn.
    pub fn parse_convars(&mut self, bytes: &[u8]) -> (r: Result<(), DemoParserError>)
        requires
            set_convar_of(bytes@) is Some,
        ensures
            r is Ok,
            convar_entries(final(self).convars) == apply_convars(
                convar_entries(old(self).convars),
                set_convar_of(bytes@).unwrap(),
            ),
            final(self).chat_messages == old(self).chat_messages,
            final(self).item_drops == old(self).item_drops,
            final(self).skins == old(self).skins,
            final(self).player_end_data == old(self).player_end_data,
            final(self).cls_by_id == old(self).cls_by_id,
    {
        let cvs = match decode_set_convar(bytes) {
            Some(v) => v,
            None => Vec::new(),
        };
        let ghost m0 = convar_entries(self.convars);
        let ghost all = cvs@.map_values(|e: ConVarRecord| e@);
        let mut i: usize = 0;
        while i < cvs.len()
            invariant
                all == cvs@.map_values(|e: ConVarRecord| e@),
                all == set_convar_of(bytes@).unwrap(),
                i <= cvs@.len(),
                convar_entries(self.convars) == apply_convars(m0, all.take(i as int)),
                self.chat_messages == old(self).chat_messages,
                self.item_drops == old(self).item_drops,
                self.skins == old(self).skins,
                self.player_end_data == old(self).player_end_data,
                self.cls_by_id == old(self).cls_by_id,
            decreases cvs@.len() - i,
        {
            let cv = &cvs[i];
            let name = match &cv.name {
                Some(n) => n.clone(),
                None => String::new(),
            };
            let value = match &cv.value {
                Some(v) => v.clone(),
                None => String::new(),
            };
            insert_convar(&mut self.convars, name, value);
            proof {
                assert(all.take(i as int + 1).drop_last() =~= all.take(i as int));
                assert(all.take(i as int + 1).last() == cv@);
            }
            i = i + 1;
        }
        proof {
            assert(all.take(cvs@.len() as int) =~= all);
        }
        Ok(())
    }

    /// Reads a `CCSUsrMsg_EndOfMatchAllPlayersData`: keeps each player's
    /// name, steam id and team, and each of their items that has an item id
    /// other than 0, marked with the player's steam id.
    pub fn parse_player_end_msg(&mut self, bytes: &[u8]) -> (r: Result<(), DemoParserError>)
        requires
            end_of_match_of(bytes@) is Some,
        ensures
            r is Ok,
            ends_view(final(self).player_end_data@) == ends_view(old(self).player_end_data@)
                + end_of_match_of(bytes@).unwrap().map_values(|p: PlayerRecordView| end_data_of(p)),
            items_view(final(self).skins@) == items_view(old(self).skins@) + skins_of(end_of_match_of(bytes@).unwrap()),
            final(self).chat_messages == old(self).chat_messages,
            final(self).item_drops == old(self).item_drops,
            final(self).convars == old(self).convars,
            final(self).cls_by_id == old(self).cls_by_id,
    {
        let players = match decode_end_of_match(bytes) {
            Some(v) => v,
            None => Vec::new(),
        };
        let ghost all = players@.map_values(|p: PlayerRecord| p@);
        let ghost ends0 = ends_view(self.player_end_data@);
        let ghost skins0 = items_view(self.skins@);
        let mut i: usize = 0;
        while i < players.len()
            invariant
                all == players@.map_values(|p: PlayerRecord| p@),
                all == end_of_match_of(bytes@).unwrap(),
                i <= players@.len(),
                ends_view(self.player_end_data@) == ends0 + all.take(i as int).map_values(|p: PlayerRecordView| end_data_of(p)),
                items_view(self.skins@) == skins0 + skins_of(all.take(i as int)),
                self.chat_messages == old(self).chat_messages,
                self.item_drops == old(self).item_drops,
                self.convars == old(self).convars,
                self.cls_by_id == old(self).cls_by_id,
            decreases players@.len() - i,
        {
            let p = &players[i];
            let ghost pv = p@;
            proof {
                assert(all[i as int] == pv);
            }
            let ghost ends_before = self.player_end_data@;
            self.player_end_data.push(PlayerEndData { name: copy_text(&p.name), steamid: p.xuid, team_number: p.team_number });
            proof {
                assert(all.take(i as int + 1) =~= all.take(i as int).push(pv));
                assert(all.take(i as int + 1).map_values(|q: PlayerRecordView| end_data_of(q))
                    =~= all.take(i as int).map_values(|q: PlayerRecordView| end_data_of(q)).push(end_data_of(pv)));
                assert(ends_view(self.player_end_data@) =~= ends_view(ends_before).push(end_data_of(pv)));
            }
            let ghost skins_mid = items_view(self.skins@);
            let mut j: usize = 0;
            while j < p.items.len()
                invariant
                    pv == p@,
                    j <= p.items@.len(),
                    items_view(self.skins@) == skins_mid + kept_skins(pv.items.take(j as int), pv.xuid),
                    self.chat_messages == old(self).chat_messages,
                    self.item_drops == old(self).item_drops,
                    self.convars == old(self).convars,
                    self.cls_by_id == old(self).cls_by_id,
                    self.player_end_data@.len() == ends_before.len() + 1,
                    ends_view(self.player_end_data@) == ends0 + all.take(i as int + 1).map_values(|q: PlayerRecordView| end_data_of(q)),
                decreases p.items@.len() - j,
            {
                let it = &p.items[j];
                proof {
                    assert(pv.items[j as int] == it@);
                    assert(pv.items.take(j as int + 1).drop_last() =~= pv.items.take(j as int));
                    assert(pv.items.take(j as int + 1).last() == it@);
                }
                let keep = match it.item_id {
                    Some(v) => v != 0,
                    None => false,
                };
                if keep {
                    let ghost sk = self.skins@;
                    self.skins.push(copy_item(it, p.xuid));
                    proof {
                        assert(items_view(self.skins@) =~= items_view(sk).push(EconItemView { steamid: pv.xuid, ..it@ }));
                    }
                }
                j = j + 1;
            }
            proof {
                assert(pv.items.take(p.items@.len() as int) =~= pv.items);
                let t1 = all.take(i as int + 1);
                assert(t1.drop_last() =~= all.take(i as int));
                assert(t1.last() == pv);
                assert(skins_of(t1) == skins_of(all.take(i as int)) + kept_skins(pv.items, pv.xuid));
                assert(items_view(self.skins@) =~= skins0 + skins_of(t1));
            }
            i = i + 1;
        }
        proof {
            assert(all.take(players@.len() as int) =~= all);
        }
        Ok(())
    }

    /// Statistics updates come only in a player's own demos; nothing is kept.
    pub fn parse_player_stats_update(&mut self, _bytes: &[u8]) -> (r: Result<(), DemoParserError>)
        ensures
            r is Ok,
            *final(self) == *old(self),
    {
        Ok(())
    }

    /// Reads a `CDemoFileInfo`; nothing of it is kept.
    pub fn parse_file_info(&mut self, bytes: &[u8]) -> (r: Result<(), DemoParserError>)
        requires
            file_info_ok(bytes@),
        ensures
            r is Ok,
            *final(self) == *old(self),
    {
        let _valid = check_file_info(bytes);
        Ok(())
    }

    /// Reads a `CDemoClassInfo` and builds the class table from it, each
    /// class getting the serializer of its name from `serializers`.
    pub fn parse_class_info(&mut self, bytes: &[u8], serializers: &AHashMap<String, Serializer>) -> (r: Result<(), DemoParserError>)
        requires
            class_info_fits(bytes@, serializer_entries(*serializers)),
        ensures
            r is Ok,
            table_view(final(self).cls_by_id) == Some(class_table_of(bytes@, serializer_entries(*serializers))),
            final(self).chat_messages == old(self).chat_messages,
            final(self).item_drops == old(self).item_drops,
            final(self).skins == old(self).skins,
            final(self).player_end_data == old(self).player_end_data,
            final(self).convars == old(self).convars,
    {
        let table = class_table_from_message(bytes, serializers);
        self.cls_by_id = Some(table);
        Ok(())
    }
}

/// When several console variables of one message share a name, the last
/// of them decides the name's value.
pub proof fn lemma_convar_last_setting_wins(m: Map<Seq<char>, Seq<char>>, cvs: Seq<ConVarView>, j: int)
    requires
        0 <= j < cvs.len(),
        forall|i: int| j < i < cvs.len() ==> text_or_empty(#[trigger] cvs[i].name) != text_or_empty(cvs[j].name),
    ensures
        apply_convars(m, cvs).dom().contains(text_or_empty(cvs[j].name)),
        apply_convars(m, cvs)[text_or_empty(cvs[j].name)] == text_or_empty(cvs[j].value),
    decreases cvs.len(),
{
    if j < cvs.len() - 1 {
        let prefix = cvs.drop_last();
        assert forall|i: int| j < i < prefix.len() implies text_or_empty(#[trigger] prefix[i].name) != text_or_empty(prefix[j].name) by {
            assert(prefix[i] == cvs[i]);
        }
        lemma_convar_last_setting_wins(m, prefix, j);
        assert(text_or_empty(cvs[cvs.len() - 1].name) != text_or_empty(cvs[j].name));
    }
}

/// A console variable that no setting of a message names keeps its value.
pub proof fn lemma_convar_untouched(m: Map<Seq<char>, Seq<char>>, cvs: Seq<ConVarView>, k: Seq<char>)
    requires
        forall|i: int| 0 <= i < cvs.len() ==> text_or_empty(#[trigger] cvs[i].name) != k,
    ensures
        apply_convars(m, cvs).dom().contains(k) == m.dom().contains(k),
        m.dom().contains(k) ==> apply_convars(m, cvs)[k] == m[k],
    decreases cvs.len(),
{
    if cvs.len() > 0 {
        let prefix = cvs.drop_last();
        assert forall|i: int| 0 <= i < prefix.len() implies text_or_empty(#[trigger] prefix[i].name) != k by {
            assert(prefix[i] == cvs[i]);
        }
        lemma_convar_untouched(m, prefix, k);
        assert(text_or_empty(cvs[cvs.len() - 1].name) != k);
    }
}

/// Every skin kept from an end-of-match message has an item id other
/// than 0 and carries the steam id of one of the players.
pub proof fn lemma_skins_are_worn_items(players: Seq<PlayerRecordView>)
    ensures
        forall|i: int| 0 <= i < skins_of(players).len() ==> is_real_item(#[trigger] skins_of(players)[i]),
        forall|i: int| 0 <= i < skins_of(players).len() ==> exists|p: int| 0 <= p < players.len()
            && (#[trigger] skins_of(players)[i]).steamid == players[p].xuid,
    decreases players.len(),
{
    if players.len() > 0 {
        let prefix = players.drop_last();
        let last = players.last();
        lemma_skins_are_worn_items(prefix);
        lemma_kept_skins(last.items, last.xuid);
        let a = skins_of(prefix);
        let b = kept_skins(last.items, last.xuid);
        assert(skins_of(players) == a + b);
        assert forall|i: int| 0 <= i < skins_of(players).len() implies is_real_item(#[trigger] skins_of(players)[i]) by {
            if i < a.len() {
                assert(skins_of(players)[i] == a[i]);
            } else {
                assert(skins_of(players)[i] == b[i - a.len()]);
            }
        }
        assert forall|i: int| 0 <= i < skins_of(players).len() implies exists|p: int| 0 <= p < players.len()
            && (#[trigger] skins_of(players)[i]).steamid == players[p].xuid by {
            if i < a.len() {
                assert(skins_of(players)[i] == a[i]);
                let p = choose|p: int| 0 <= p < prefix.len() && a[i].steamid == prefix[p].xuid;
                assert(prefix[p] == players[p]);
            } else {
                assert(skins_of(players)[i] == b[i - a.len()]);
                assert(players[players.len() - 1] == last);
            }
        }
    }
}

proof fn lemma_kept_skins(items: Seq<EconItemView>, xuid: Option<u64>)
    ensures
        kept_skins(items, xuid).len() <= items.len(),
        forall|i: int| 0 <= i < kept_skins(items, xuid).len() ==> is_real_item(#[trigger] kept_skins(items, xuid)[i])
            && kept_skins(items, xuid)[i].steamid == xuid,
    decreases items.len(),
{
    if items.len() > 0 {
        lemma_kept_skins(items.drop_last(), xuid);
    }
}

/// Whether an item has an item id, and one other than 0.
pub open spec fn has_item_id(i: EconItemView) -> bool {
    i.item_id is Some && i.item_id.unwrap() != 0
}

/// The skins kept of a player are exactly that player's items with an
/// item id other than 0, none lost and none added, in the items' order,
/// each marked with the player's steam id.
pub proof fn lemma_kept_skins_are_items_with_ids(items: Seq<EconItemView>, xuid: Option<u64>)
    ensures
        kept_skins(items, xuid) == items.filter(|i: EconItemView| has_item_id(i)).map_values(
            |i: EconItemView| EconItemView { steamid: xuid, ..i },
        ),
        kept_skins(items, xuid).len() == items.filter(|i: EconItemView| has_item_id(i)).len(),
    decreases items.len(),
{
    if items.len() > 0 {
        lemma_kept_skins_are_items_with_ids(items.drop_last(), xuid);
        reveal(Seq::filter);
        let rest = items.drop_last().filter(|i: EconItemView| has_item_id(i));
        let last = items.last();
        if has_item_id(last) {
            assert(items.filter(|i: EconItemView| has_item_id(i)) == rest.push(last));
            assert(rest.push(last).map_values(|i: EconItemView| EconItemView { steamid: xuid, ..i })
                =~= rest.map_values(|i: EconItemView| EconItemView { steamid: xuid, ..i }).push(
                EconItemView { steamid: xuid, ..last },
            ));
        } else {
            assert(items.filter(|i: EconItemView| has_item_id(i)) == rest);
        }
    }
}

/// The skins of several players are those of each player in turn: the
/// skins of the players `a` then `b` are those of `a` followed by those of
/// `b`, and the skins of one player are the items kept of that player.
pub proof fn lemma_skins_player_by_player(a: Seq<PlayerRecordView>, b: Seq<PlayerRecordView>, p: PlayerRecordView)
    ensures
        skins_of(a + b) == skins_of(a) + skins_of(b),
        skins_of(seq![p]) == kept_skins(p.items, p.xuid),
    decreases b.len(),
{
    if b.len() == 0 {
        assert(a + b =~= a);
        assert(skins_of(a) + skins_of(b) =~= skins_of(a));
    } else {
        lemma_skins_player_by_player(a, b.drop_last(), p);
        assert((a + b).drop_last() =~= a + b.drop_last());
        assert((a + b).last() == b.last());
        let k = kept_skins(b.last().items, b.last().xuid);
        assert(skins_of(a) + skins_of(b.drop_last()) + k =~= skins_of(a) + (skins_of(b.drop_last()) + k));
    }
    let one = seq![p];
    assert(one.drop_last() =~= Seq::<PlayerRecordView>::empty());
    assert(one.last() == p);
    assert(skins_of(one.drop_last()) == Seq::<EconItemView>::empty());
    assert(skins_of(one) == skins_of(one.drop_last()) + kept_skins(p.items, p.xuid));
    assert(Seq::<EconItemView>::empty() + kept_skins(p.items, p.xuid) =~= kept_skins(p.items, p.xuid));
}

} // verus!
