use ahash::AHashMap;
use demoparser::classes::{check_class_info, Serializer, CLASS_TABLE_LEN};
use demoparser::decode::{
    check_file_info, decode_chat_message, decode_class_info, decode_end_of_match, decode_item_drops,
    decode_set_convar,
};
use demoparser::messages::{check_message, MsgType};
use demoparser::netmessages::Parser;
use protobuf::rt::WireType;
use protobuf::well_known_types::empty::Empty;
use protobuf::{CodedOutputStream, Message};

fn enc(f: impl FnOnce(&mut CodedOutputStream)) -> Vec<u8> {
    let mut v = Vec::new();
    {
        let mut os = CodedOutputStream::vec(&mut v);
        f(&mut os);
        os.flush().unwrap();
    }
    v
}

fn chat_bytes() -> Vec<u8> {
    enc(|os| {
        os.write_int32(1, 3).unwrap();
        os.write_bool(2, true).unwrap();
        os.write_string(3, "Cstrike_Chat_All").unwrap();
        os.write_string(4, "alice").unwrap();
        os.write_string(5, "gg").unwrap();
        os.write_string(6, "").unwrap();
    })
}

fn item_bytes(item_id: Option<u64>, name: Option<&str>) -> Vec<u8> {
    enc(|os| {
        os.write_uint32(1, 77).unwrap();
        if let Some(id) = item_id {
            os.write_uint64(2, id).unwrap();
        }
        os.write_uint32(3, 7).unwrap();
        os.write_uint32(4, 282).unwrap();
        os.write_uint32(5, 6).unwrap();
        os.write_uint32(6, 4).unwrap();
        os.write_uint32(7, 1_050_000_000).unwrap();
        os.write_uint32(8, 661).unwrap();
        if let Some(n) = name {
            os.write_string(11, n).unwrap();
        }
        let sticker = enc(|s| {
            s.write_uint32(1, 0).unwrap();
            s.write_float(3, 0.5).unwrap();
        });
        os.write_bytes(12, &sticker).unwrap();
        os.write_uint32(13, 9).unwrap();
        os.write_uint32(15, 2).unwrap();
        os.write_uint32(16, 1).unwrap();
        os.write_int32(18, 5).unwrap();
    })
}

#[test]
fn chat_message_fields_are_read() {
    let r = decode_chat_message(&chat_bytes()).unwrap();
    assert_eq!(r.entity_idx, Some(3));
    assert_eq!(r.param1.as_deref(), Some("alice"));
    assert_eq!(r.param2.as_deref(), Some("gg"));
    assert_eq!(r.param3.as_deref(), Some(""));
    assert_eq!(r.param4, None);
}

#[test]
fn chat_message_negative_entity_index() {
    let b = enc(|os| os.write_int32(1, -1).unwrap());
    assert_eq!(b.len(), 11);
    assert_eq!(decode_chat_message(&b).unwrap().entity_idx, Some(-1));
}

#[test]
fn chat_message_entity_index_out_of_range_is_refused() {
    let b = enc(|os| os.write_uint64(1, 1u64 << 32).unwrap());
    assert!(decode_chat_message(&b).is_none());
}

#[test]
fn chat_message_later_field_wins() {
    let b = enc(|os| {
        os.write_string(4, "first").unwrap();
        os.write_string(4, "second").unwrap();
    });
    assert_eq!(decode_chat_message(&b).unwrap().param1.as_deref(), Some("second"));
}

#[test]
fn chat_message_invalid_utf8_is_refused() {
    let b = enc(|os| os.write_bytes(4, &[0x61, 0xff, 0x62]).unwrap());
    assert!(decode_chat_message(&b).is_none());
    let ok = enc(|os| os.write_bytes(4, "é".as_bytes()).unwrap());
    assert_eq!(decode_chat_message(&ok).unwrap().param1.as_deref(), Some("é"));
}

#[test]
fn chat_message_truncated_string_is_refused() {
    let mut b = enc(|os| os.write_string(4, "hello").unwrap());
    b.pop();
    assert!(decode_chat_message(&b).is_none());
}

#[test]
fn chat_message_wrong_wire_type_is_passed_over() {
    let b = enc(|os| os.write_uint32(4, 12).unwrap());
    let r = decode_chat_message(&b).unwrap();
    assert_eq!(r.param1, None);
}

#[test]
fn chat_message_unknown_fields_and_groups_are_skipped() {
    let b = enc(|os| {
        os.write_uint64(99, 5).unwrap();
        os.write_fixed32(100, 1).unwrap();
        os.write_fixed64(101, 2).unwrap();
        os.write_tag(102, WireType::StartGroup).unwrap();
        os.write_tag(103, WireType::StartGroup).unwrap();
        os.write_string(104, "inside").unwrap();
        os.write_tag(103, WireType::EndGroup).unwrap();
        os.write_tag(102, WireType::EndGroup).unwrap();
        os.write_string(7, "last").unwrap();
    });
    assert_eq!(decode_chat_message(&b).unwrap().param4.as_deref(), Some("last"));
}

#[test]
fn chat_message_bad_tags_are_refused() {
    let end_group = enc(|os| os.write_tag(5, WireType::EndGroup).unwrap());
    assert!(decode_chat_message(&end_group).is_none());
    assert!(decode_chat_message(&[0x00]).is_none());
    assert!(decode_chat_message(&[0x0e]).is_none());
    assert!(decode_chat_message(&[]).is_some());
}

#[test]
fn varint_tenth_byte_rule() {
    let max = enc(|os| os.write_uint64(2, u64::MAX).unwrap());
    let item = enc(|os| os.write_bytes(1, &max).unwrap());
    let drops = decode_item_drops(&item).unwrap();
    assert_eq!(drops[0].item_id, Some(u64::MAX));
    let mut bad = vec![0x10];
    bad.extend_from_slice(&[0xff, 0xff, 0xff, 0xff, 0xff, 0xff, 0xff, 0xff, 0xff, 0x02]);
    assert!(Empty::parse_from_bytes(&bad).is_err());
    assert!(!check_message(&bad, 0, u64::MAX, 0, MsgType::Opaque));
}

#[test]
fn uint32_field_longer_than_five_bytes_is_refused() {
    // field 1 of an item as a six-byte varint of value 0
    let inner = vec![0x08, 0x80, 0x80, 0x80, 0x80, 0x80, 0x00];
    let b = enc(|os| os.write_bytes(1, &inner).unwrap());
    assert!(decode_item_drops(&b).is_none());
    // the same varint under a field number the item does not declare is fine
    let inner2 = vec![0xf8, 0x01, 0x80, 0x80, 0x80, 0x80, 0x80, 0x00];
    let b2 = enc(|os| os.write_bytes(1, &inner2).unwrap());
    assert!(decode_item_drops(&b2).is_some());
}

#[test]
fn item_drops_are_read_in_order() {
    let b = enc(|os| {
        os.write_bytes(1, &item_bytes(Some(111), Some("Knife"))).unwrap();
        os.write_bytes(1, &item_bytes(Some(222), None)).unwrap();
    });
    let items = decode_item_drops(&b).unwrap();
    assert_eq!(items.len(), 2);
    assert_eq!(items[0].item_id, Some(111));
    assert_eq!(items[0].custom_name.as_deref(), Some("Knife"));
    assert_eq!(items[0].account_id, Some(77));
    assert_eq!(items[0].def_index, Some(7));
    assert_eq!(items[0].paint_index, Some(282));
    assert_eq!(items[0].rarity, Some(6));
    assert_eq!(items[0].quality, Some(4));
    assert_eq!(items[0].paint_wear, Some(1_050_000_000));
    assert_eq!(items[0].paint_seed, Some(661));
    assert_eq!(items[0].inventory, Some(9));
    assert_eq!(items[0].quest_id, Some(2));
    assert_eq!(items[0].dropreason, Some(1));
    assert_eq!(items[0].ent_idx, Some(5));
    assert_eq!(items[0].steamid, None);
    assert_eq!(items[1].item_id, Some(222));
    assert_eq!(items[1].custom_name, None);

    let mut p = Parser::new();
    p.parse_item_drops(&b).ok().unwrap();
    p.parse_item_drops(&b).ok().unwrap();
    assert_eq!(p.item_drops.len(), 4);
    assert_eq!(p.item_drops[2].item_id, Some(111));
    assert!(p.chat_messages.is_empty());
}

#[test]
fn cut_off_nested_message_at_top_level() {
    // a declared nested message at the top level whose length runs past the
    // data is read up to the end of the data
    let api = [0x2a, 5, 0x0a, 0x01, 0x61];
    assert!(protobuf::well_known_types::api::Api::parse_from_bytes(&api).is_ok());
    let b = [0x0a, 5, 0x08, 0x4d];
    let items = decode_item_drops(&b).unwrap();
    assert_eq!(items.len(), 1);
    assert_eq!(items[0].account_id, Some(77));
    // the same bytes under an undeclared field are cut off
    assert!(Empty::parse_from_bytes(&b).is_err());
    assert!(!check_message(&b, 0, u64::MAX, 0, MsgType::Opaque));
    // inside a nested message the length may not run past the outer one
    let inner = [0x1a, 5, 0x08];
    let outer = enc(|os| os.write_bytes(1, &inner).unwrap());
    assert!(decode_item_drops(&outer).is_none());
}

#[test]
fn convars_later_setting_wins() {
    let cvar = |name: Option<&str>, value: Option<&str>| {
        enc(|os| {
            if let Some(n) = name {
                os.write_string(1, n).unwrap();
            }
            if let Some(v) = value {
                os.write_string(2, v).unwrap();
            }
        })
    };
    let list = enc(|os| {
        os.write_bytes(1, &cvar(Some("sv_cheats"), Some("0"))).unwrap();
        os.write_bytes(1, &cvar(Some("mp_maxrounds"), Some("24"))).unwrap();
        os.write_bytes(1, &cvar(Some("sv_cheats"), Some("1"))).unwrap();
        os.write_bytes(1, &cvar(Some("sv_novalue"), None)).unwrap();
        os.write_bytes(1, &cvar(None, Some("nameless"))).unwrap();
    });
    let msg = enc(|os| os.write_bytes(1, &list).unwrap());
    assert_eq!(decode_set_convar(&msg).unwrap().len(), 5);
    let mut p = Parser::new();
    p.convars.insert("untouched".to_string(), "x".to_string());
    p.parse_convars(&msg).ok().unwrap();
    assert_eq!(p.convars.get("sv_cheats").map(|s| s.as_str()), Some("1"));
    assert_eq!(p.convars.get("mp_maxrounds").map(|s| s.as_str()), Some("24"));
    assert_eq!(p.convars.get("sv_novalue").map(|s| s.as_str()), Some(""));
    assert_eq!(p.convars.get("").map(|s| s.as_str()), Some("nameless"));
    assert_eq!(p.convars.get("untouched").map(|s| s.as_str()), Some("x"));
    assert_eq!(p.convars.len(), 5);
}

#[test]
fn convars_only_last_list_counts() {
    let one = enc(|os| {
        let cv = enc(|c| {
            c.write_string(1, "a").unwrap();
            c.write_string(2, "1").unwrap();
        });
        os.write_bytes(1, &cv).unwrap();
    });
    let two = enc(|os| {
        let cv = enc(|c| {
            c.write_string(1, "b").unwrap();
            c.write_string(2, "2").unwrap();
        });
        os.write_bytes(1, &cv).unwrap();
    });
    let msg = enc(|os| {
        os.write_bytes(1, &one).unwrap();
        os.write_bytes(1, &two).unwrap();
    });
    let mut p = Parser::new();
    p.parse_convars(&msg).ok().unwrap();
    assert_eq!(p.convars.get("a"), None);
    assert_eq!(p.convars.get("b").map(|s| s.as_str()), Some("2"));
}

fn end_of_match_bytes() -> Vec<u8> {
    let player = |xuid: u64, name: &str, team: i32, items: Vec<Vec<u8>>| {
        enc(|os| {
            os.write_int32(1, 2).unwrap();
            os.write_uint64(2, xuid).unwrap();
            os.write_string(3, name).unwrap();
            os.write_int32(4, team).unwrap();
            let acc = enc(|a| {
                a.write_int32(1, 21).unwrap();
                a.write_float(2, 5100.0).unwrap();
                a.write_int32(3, 1).unwrap();
            });
            os.write_bytes(5, &acc).unwrap();
            for it in &items {
                os.write_bytes(6, it).unwrap();
            }
            os.write_bool(8, false).unwrap();
        })
    };
    enc(|os| {
        os.write_bytes(
            1,
            &player(
                76561198000000001,
                "alice",
                2,
                vec![item_bytes(Some(10), Some("Blue")), item_bytes(Some(0), None), item_bytes(None, None)],
            ),
        )
        .unwrap();
        os.write_bytes(1, &player(76561198000000002, "bob", 3, vec![item_bytes(Some(20), None)])).unwrap();
        os.write_int32(2, 4).unwrap();
    })
}

#[test]
fn end_of_match_players_and_skins() {
    let b = end_of_match_bytes();
    let players = decode_end_of_match(&b).unwrap();
    assert_eq!(players.len(), 2);
    assert_eq!(players[0].items.len(), 3);
    let mut p = Parser::new();
    p.parse_player_end_msg(&b).ok().unwrap();
    assert_eq!(p.player_end_data.len(), 2);
    assert_eq!(p.player_end_data[0].name.as_deref(), Some("alice"));
    assert_eq!(p.player_end_data[0].steamid, Some(76561198000000001));
    assert_eq!(p.player_end_data[0].team_number, Some(2));
    assert_eq!(p.player_end_data[1].team_number, Some(3));
    assert_eq!(p.skins.len(), 2);
    assert_eq!(p.skins[0].item_id, Some(10));
    assert_eq!(p.skins[0].steamid, Some(76561198000000001));
    assert_eq!(p.skins[0].custom_name.as_deref(), Some("Blue"));
    assert_eq!(p.skins[1].item_id, Some(20));
    assert_eq!(p.skins[1].steamid, Some(76561198000000002));
}

#[test]
fn end_of_match_bad_accolade_is_refused() {
    let acc = enc(|a| a.write_uint64(1, 1u64 << 40).unwrap());
    let player = enc(|os| os.write_bytes(5, &acc).unwrap());
    let b = enc(|os| os.write_bytes(1, &player).unwrap());
    assert!(decode_end_of_match(&b).is_none());
}

fn class_info_bytes(classes: &[(Option<i32>, Option<&str>)]) -> Vec<u8> {
    enc(|os| {
        for (id, name) in classes {
            let c = enc(|c| {
                if let Some(i) = id {
                    c.write_int32(1, *i).unwrap();
                }
                if let Some(n) = name {
                    c.write_string(2, n).unwrap();
                }
                c.write_string(3, "DT_Table").unwrap();
            });
            os.write_bytes(1, &c).unwrap();
        }
    })
}

#[test]
fn class_table_is_indexed_by_id() {
    let b = class_info_bytes(&[
        (Some(3), Some("CCSPlayerPawn")),
        (Some(10), Some("CCSTeam")),
        (Some(3), Some("CCSGameRulesProxy")),
        (None, Some("CWorld")),
    ]);
    let classes = decode_class_info(&b).unwrap();
    assert_eq!(classes.len(), 4);
    let mut sers: AHashMap<String, Serializer> = AHashMap::new();
    for n in ["CCSPlayerPawn", "CCSTeam", "CCSGameRulesProxy", "CWorld"] {
        sers.insert(n.to_string(), Serializer { name: format!("ser_{}", n) });
    }
    let mut p = Parser::new();
    p.parse_class_info(&b, &sers).ok().unwrap();
    let table = p.cls_by_id.as_ref().unwrap();
    assert_eq!(table.len(), CLASS_TABLE_LEN);
    assert_eq!(table[3].as_ref().unwrap().name, "CCSGameRulesProxy");
    assert_eq!(table[3].as_ref().unwrap().serializer.name, "ser_CCSGameRulesProxy");
    assert_eq!(table[10].as_ref().unwrap().name, "CCSTeam");
    assert_eq!(table[0].as_ref().unwrap().name, "CWorld");
    assert!(table[1].is_none());
    assert!(table[559].is_none());
}

#[test]
fn file_info_is_checked() {
    let game_info = enc(|g| {
        let cs = enc(|c| c.write_int32(1, 100).unwrap());
        g.write_bytes(5, &cs).unwrap();
    });
    let b = enc(|os| {
        os.write_float(1, 1800.5).unwrap();
        os.write_int32(2, 115200).unwrap();
        os.write_int32(3, 57600).unwrap();
        os.write_bytes(4, &game_info).unwrap();
    });
    assert!(check_file_info(&b));
    let mut p = Parser::new();
    p.parse_file_info(&b).ok().unwrap();
    assert!(p.chat_messages.is_empty() && p.cls_by_id.is_none());
    let mut cut = b.clone();
    cut.truncate(3);
    assert!(!check_file_info(&cut));
}

#[test]
fn stats_update_changes_nothing() {
    let mut p = Parser::new();
    p.parse_chat_messages(&chat_bytes()).ok().unwrap();
    p.parse_player_stats_update(&[1, 2, 3]).ok().unwrap();
    assert_eq!(p.chat_messages.len(), 1);
    assert_eq!(p.chat_messages[0].param1.as_deref(), Some("alice"));
}

#[test]
fn group_nesting_limit() {
    let groups = |n: usize| {
        enc(|os| {
            for _ in 0..n {
                os.write_tag(9, WireType::StartGroup).unwrap();
            }
            for _ in 0..n {
                os.write_tag(9, WireType::EndGroup).unwrap();
            }
        })
    };
    for n in [1usize, 50, 99, 100, 101, 102, 150] {
        let b = groups(n);
        assert_eq!(
            check_message(&b, 0, u64::MAX, 0, MsgType::Opaque),
            Empty::parse_from_bytes(&b).is_ok(),
            "nesting {}",
            n
        );
    }
    assert!(check_message(&groups(101), 0, u64::MAX, 0, MsgType::Opaque));
    assert!(!check_message(&groups(102), 0, u64::MAX, 0, MsgType::Opaque));
    let open = enc(|os| os.write_tag(9, WireType::StartGroup).unwrap());
    assert!(!check_message(&open, 0, u64::MAX, 0, MsgType::Opaque));
}

#[test]
fn field_grammar_agrees_with_protobuf() {
    let mut seed: u64 = 0x2545_f491_4f6c_dd1d;
    let mut next = move || {
        seed ^= seed << 13;
        seed ^= seed >> 7;
        seed ^= seed << 17;
        seed
    };
    let mut accepted = 0;
    for round in 0..20000 {
        let len = (next() % 24) as usize;
        let mut b = Vec::with_capacity(len);
        for _ in 0..len {
            let r = next();
            let byte = match r % 4 {
                0 => (r >> 8) as u8,
                1 => ((r >> 8) % 6) as u8 | (((r >> 16) % 4) as u8) << 3,
                2 => ((r >> 8) % 8) as u8,
                _ => 0x80 | (r >> 8) as u8,
            };
            b.push(byte);
        }
        let ours = check_message(&b, 0, u64::MAX, 0, MsgType::Opaque);
        let theirs = Empty::parse_from_bytes(&b).is_ok();
        assert_eq!(ours, theirs, "round {} bytes {:?}", round, b);
        if ours {
            accepted += 1;
        }
    }
    assert!(accepted > 100);
}

struct Rng(u64);

impl Rng {
    fn next(&mut self) -> u64 {
        self.0 ^= self.0 << 13;
        self.0 ^= self.0 >> 7;
        self.0 ^= self.0 << 17;
        self.0
    }

    fn below(&mut self, n: u64) -> u64 {
        self.next() % n
    }
}

fn push_varint(b: &mut Vec<u8>, mut v: u64) {
    loop {
        if v < 0x80 {
            b.push(v as u8);
            return;
        }
        b.push((v as u8) | 0x80);
        v >>= 7;
    }
}

fn random_payload(rng: &mut Rng, b: &mut Vec<u8>, wt: u64) {
    match wt {
        0 => match rng.below(5) {
            0 => push_varint(b, rng.next()),
            1 => push_varint(b, rng.below(300)),
            2 => push_varint(b, (rng.below(8) as i64 - 4) as u64),
            3 => {
                // an overlong encoding
                let n = 1 + rng.below(10);
                for _ in 0..n {
                    b.push(0x80 | (rng.below(2) as u8));
                }
                b.push(rng.below(3) as u8);
            },
            _ => push_varint(b, 1u64 << rng.below(64)),
        },
        1 => {
            for _ in 0..8 {
                b.push(rng.next() as u8);
            }
        },
        2 => {
            let n = rng.below(6);
            push_varint(b, n + rng.below(2));
            for _ in 0..n {
                let c = match rng.below(4) {
                    0 => rng.next() as u8,
                    _ => b'a' + rng.below(26) as u8,
                };
                b.push(c);
            }
        },
        5 => {
            for _ in 0..4 {
                b.push(rng.next() as u8);
            }
        },
        _ => {},
    }
}

fn random_fields(rng: &mut Rng, fields: &[u64]) -> Vec<u8> {
    let mut b = Vec::new();
    let n = rng.below(5);
    for _ in 0..n {
        let f = fields[rng.below(fields.len() as u64) as usize];
        let wt = match rng.below(10) {
            0..=2 => 0,
            3..=5 => 2,
            6 => 1,
            7 => 5,
            8 => 3,
            _ => rng.below(8),
        };
        push_varint(&mut b, (f << 3) | wt);
        random_payload(rng, &mut b, wt);
        if wt == 3 && rng.below(3) != 0 {
            push_varint(&mut b, (f << 3) | 4);
        }
    }
    if !b.is_empty() && rng.below(6) == 0 {
        let cut = rng.below(b.len() as u64) as usize;
        b.truncate(cut);
    }
    b
}

#[test]
fn int32_field_agrees_with_protobuf() {
    let mut rng = Rng(0x9e37_79b9_7f4a_7c15);
    for _ in 0..5000 {
        let e = random_fields(&mut rng, &[1, 30, 31]);
        let wrapped = enc(|os| os.write_bytes(1, &e).unwrap());
        let ours = decode_class_info(&wrapped).map(|v| v[0].class_id.unwrap_or(0));
        let theirs = protobuf::well_known_types::wrappers::Int32Value::parse_from_bytes(&e).ok().map(|m| m.value);
        assert_eq!(ours, theirs, "bytes {:?}", e);
    }
}

#[test]
fn string_field_agrees_with_protobuf() {
    let mut rng = Rng(0x1234_5678_9abc_def1);
    for _ in 0..5000 {
        let e = random_fields(&mut rng, &[1, 30, 31]);
        let list = enc(|os| os.write_bytes(1, &e).unwrap());
        let msg = enc(|os| os.write_bytes(1, &list).unwrap());
        let ours = decode_set_convar(&msg).map(|v| v[0].name.clone().unwrap_or_default());
        let theirs = protobuf::well_known_types::wrappers::StringValue::parse_from_bytes(&e).ok().map(|m| m.value);
        assert_eq!(ours, theirs, "bytes {:?}", e);
    }
}

#[test]
fn uint_fields_agree_with_protobuf() {
    let mut rng = Rng(0x0bad_cafe_dead_beef);
    for _ in 0..5000 {
        let e = random_fields(&mut rng, &[1, 30, 31]);
        let wrapped = enc(|os| os.write_bytes(1, &e).unwrap());
        let ours = decode_item_drops(&wrapped).map(|v| v[0].account_id.unwrap_or(0));
        let theirs = protobuf::well_known_types::wrappers::UInt32Value::parse_from_bytes(&e).ok().map(|m| m.value);
        assert_eq!(ours, theirs, "uint32 bytes {:?}", e);
        let state = rng.next();
        let f1 = random_fields(&mut Rng(state), &[1, 30, 31]);
        let f2 = random_fields(&mut Rng(state), &[2, 30, 31]);
        let wrapped2 = enc(|os| os.write_bytes(1, &f2).unwrap());
        let ours2 = decode_item_drops(&wrapped2).map(|v| v[0].item_id.unwrap_or(0));
        let theirs2 = protobuf::well_known_types::wrappers::UInt64Value::parse_from_bytes(&f1).ok().map(|m| m.value);
        assert_eq!(ours2, theirs2, "uint64 bytes {:?}", f1);
    }
}

#[test]
fn concatenated_chat_lines_merge() {
    let a = chat_bytes();
    let b = enc(|os| {
        os.write_string(5, "wp").unwrap();
        os.write_string(7, "extra").unwrap();
    });
    let mut ab = a.clone();
    ab.extend_from_slice(&b);
    let r = decode_chat_message(&ab).unwrap();
    assert_eq!(r.entity_idx, Some(3));
    assert_eq!(r.param1.as_deref(), Some("alice"));
    assert_eq!(r.param2.as_deref(), Some("wp"));
    assert_eq!(r.param3.as_deref(), Some(""));
    assert_eq!(r.param4.as_deref(), Some("extra"));
}

#[test]
fn file_info_cut_off_inside_game_info_is_accepted() {
    // game info declared ten bytes long, holding a cs message declared five
    // bytes long, both cut off by the end of the data
    let b = [0x22, 0x0a, 0x2a, 0x05, 0x08, 0x01];
    assert!(check_file_info(&b));
    let mut p = Parser::new();
    p.parse_file_info(&b).ok().unwrap();
}

fn file_info_with_cs(cs: &[u8]) -> Vec<u8> {
    let game_info = enc(|g| g.write_bytes(5, cs).unwrap());
    enc(|os| {
        os.write_int32(2, 64).unwrap();
        os.write_bytes(4, &game_info).unwrap();
    })
}

#[test]
fn round_start_ticks_are_checked() {
    // packed ticks 100, 200 and a negative tick
    let packed = enc(|c| {
        let mut ticks = Vec::new();
        {
            let mut t = CodedOutputStream::vec(&mut ticks);
            t.write_int32_no_tag(100).unwrap();
            t.write_int32_no_tag(200).unwrap();
            t.write_int32_no_tag(-7).unwrap();
            t.flush().unwrap();
        }
        c.write_bytes(1, &ticks).unwrap();
    });
    assert!(check_file_info(&file_info_with_cs(&packed)));
    let plain = enc(|c| c.write_int32(1, -5).unwrap());
    assert!(check_file_info(&file_info_with_cs(&plain)));
    // 2^31 does not fit an int32, unpacked or packed
    let big = [0x80, 0x80, 0x80, 0x80, 0x08];
    let mut unpacked = vec![0x08];
    unpacked.extend_from_slice(&big);
    assert!(!check_file_info(&file_info_with_cs(&unpacked)));
    let mut packed_big = vec![0x0a, big.len() as u8];
    packed_big.extend_from_slice(&big);
    assert!(!check_file_info(&file_info_with_cs(&packed_big)));
    // a packed run that ends inside a varint
    assert!(!check_file_info(&file_info_with_cs(&[0x0a, 0x01, 0x80])));
}

#[test]
fn dota_player_name_must_be_utf8() {
    let good_player = enc(|pl| pl.write_string(1, "npc_dota_hero_axe").unwrap());
    let mut bad_player = vec![0x0a, 0x02, 0xff, 0xfe];
    let mk = |player: &[u8]| {
        let dota = enc(|d| {
            d.write_uint64(1, 7).unwrap();
            d.write_bytes(4, player).unwrap();
        });
        let game_info = enc(|g| g.write_bytes(4, &dota).unwrap());
        enc(|os| os.write_bytes(4, &game_info).unwrap())
    };
    assert!(check_file_info(&mk(&good_player)));
    assert!(!check_file_info(&mk(&bad_player)));
    bad_player[2] = b'a';
    bad_player[3] = b'b';
    assert!(check_file_info(&mk(&bad_player)));
}

#[test]
fn sticker_fields_are_checked() {
    let with_sticker = |sticker: &[u8]| {
        let item = enc(|it| {
            it.write_uint32(1, 77).unwrap();
            it.write_bytes(12, sticker).unwrap();
        });
        enc(|os| os.write_bytes(1, &item).unwrap())
    };
    let good = enc(|s| {
        s.write_uint32(1, 2).unwrap();
        s.write_uint32(2, 4491).unwrap();
        s.write_float(3, 0.25).unwrap();
    });
    let items = decode_item_drops(&with_sticker(&good)).unwrap();
    assert_eq!(items.len(), 1);
    assert_eq!(items[0].account_id, Some(77));
    // sticker slot as a six-byte varint
    let long = [0x08, 0x80, 0x80, 0x80, 0x80, 0x80, 0x00];
    assert!(decode_item_drops(&with_sticker(&long)).is_none());
    // the same run under a field number the sticker does not declare
    let undeclared = [0xf8, 0x01, 0x80, 0x80, 0x80, 0x80, 0x80, 0x00];
    assert!(decode_item_drops(&with_sticker(&undeclared)).is_some());
}

#[test]
fn class_info_is_checked_against_serializers() {
    let mut sers: AHashMap<String, Serializer> = AHashMap::new();
    sers.insert("CCSTeam".to_string(), Serializer { name: "ser_CCSTeam".to_string() });
    let ok = class_info_bytes(&[(Some(10), Some("CCSTeam")), (Some(559), Some("CCSTeam"))]);
    assert!(check_class_info(&ok, &sers));
    let missing = class_info_bytes(&[(Some(10), Some("CCSTeam")), (Some(11), Some("CWorld"))]);
    assert!(!check_class_info(&missing, &sers));
    let too_big = class_info_bytes(&[(Some(560), Some("CCSTeam"))]);
    assert!(!check_class_info(&too_big, &sers));
    let negative = class_info_bytes(&[(Some(-1), Some("CCSTeam"))]);
    assert!(!check_class_info(&negative, &sers));
    // a class without a name needs a serializer of the empty name
    let unnamed = class_info_bytes(&[(Some(1), None)]);
    assert!(!check_class_info(&unnamed, &sers));
    sers.insert(String::new(), Serializer { name: "ser_empty".to_string() });
    assert!(check_class_info(&unnamed, &sers));
    assert!(!check_class_info(&[0x0a, 0x05, 0x08], &sers));
}
