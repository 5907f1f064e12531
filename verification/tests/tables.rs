use demoparser::netmessages::Parser;
use demoparser::records::{ChatMessageRecord, EconItem, PlayerEndData};
use demoparser::rows::{node_chat_rows, player_info_rows, skin_rows, wasm_chat_rows, Entry};
use demoparser::text::{signed_text, unsigned_text};

fn chat(entity: Option<i32>, p1: Option<&str>) -> ChatMessageRecord {
    ChatMessageRecord {
        entity_idx: entity,
        param1: p1.map(|s| s.to_string()),
        param2: Some("hello".to_string()),
        param3: None,
        param4: Some(String::new()),
    }
}

fn skin(item_id: Option<u64>, steamid: Option<u64>) -> EconItem {
    EconItem {
        account_id: None,
        item_id,
        def_index: Some(7),
        paint_index: Some(282),
        rarity: None,
        quality: None,
        paint_seed: None,
        paint_wear: Some(1050000000),
        quest_id: None,
        dropreason: None,
        custom_name: Some("Blue".to_string()),
        inventory: None,
        ent_idx: None,
        steamid,
    }
}

#[test]
fn decimal_text_of_numbers() {
    assert_eq!(unsigned_text(0), "0");
    assert_eq!(unsigned_text(7), "7");
    assert_eq!(unsigned_text(1050000000), "1050000000");
    assert_eq!(unsigned_text(u64::MAX), "18446744073709551615");
    assert_eq!(signed_text(-1), "-1");
    assert_eq!(signed_text(-120), "-120");
    assert_eq!(signed_text(i64::MIN), "-9223372036854775808");
    assert_eq!(signed_text(i64::MAX), "9223372036854775807");
    for v in [0u64, 9, 10, 99, 100, 12345, 76561198000000001] {
        assert_eq!(unsigned_text(v), v.to_string());
        assert_eq!(unsigned_text(v).parse::<u64>().unwrap(), v);
    }
}

fn cells(row: &[Entry]) -> Vec<(&str, Option<&str>)> {
    row.iter().map(|e| (e.key.as_str(), e.value.as_deref())).collect()
}

#[test]
fn chat_rows_have_decimal_entity() {
    let msgs = vec![chat(Some(5), Some("alice")), chat(None, None), chat(Some(-3), Some("bob"))];
    let rows = node_chat_rows(&msgs);
    assert_eq!(rows.len(), 3);
    assert_eq!(
        cells(&rows[0]),
        vec![
            ("entid", Some("5")),
            ("player_name", Some("alice")),
            ("message", Some("hello")),
            ("location", None),
            ("param4", Some("")),
        ]
    );
    assert_eq!(cells(&rows[1])[0], ("entid", Some("0")));
    assert_eq!(cells(&rows[1])[1], ("player_name", None));
    assert_eq!(cells(&rows[2])[0], ("entid", Some("-3")));
    assert!(node_chat_rows(&Vec::new()).is_empty());
    assert!(wasm_chat_rows(&Vec::new()).is_empty());
}

#[test]
fn node_and_browser_chat_rows_agree() {
    let msgs = vec![chat(Some(5), Some("alice")), chat(None, None), chat(Some(-3), Some("bob"))];
    let node = node_chat_rows(&msgs);
    let browser = wasm_chat_rows(&msgs);
    assert_eq!(node.len(), browser.len());
    let node_keys = ["entid", "player_name", "message", "location", "param4"];
    let browser_keys = ["entid", "param1", "param2", "param3", "param4"];
    for (n, b) in node.iter().zip(browser.iter()) {
        assert_eq!(n.len(), 5);
        assert_eq!(b.len(), 5);
        for j in 0..5 {
            assert_eq!(n[j].key, node_keys[j]);
            assert_eq!(b[j].key, browser_keys[j]);
            assert_eq!(n[j].value, b[j].value);
        }
    }
    assert_eq!(cells(&browser[2])[1], ("param1", Some("bob")));
}

#[test]
fn player_rows_follow_skin_count() {
    let mut p = Parser::new();
    p.player_end_data.push(PlayerEndData { name: Some("alice".to_string()), steamid: Some(76561198000000001), team_number: Some(2) });
    p.player_end_data.push(PlayerEndData { name: None, steamid: None, team_number: Some(-1) });
    p.player_end_data.push(PlayerEndData { name: Some("carol".to_string()), steamid: Some(3), team_number: None });
    p.skins.push(skin(Some(10), Some(1)));
    p.skins.push(skin(Some(11), Some(1)));
    let rows = player_info_rows(&p);
    assert_eq!(rows.len(), 2);
    assert_eq!(rows[0].steamid.as_deref(), Some("76561198000000001"));
    assert_eq!(rows[0].team_number.as_deref(), Some("2"));
    assert_eq!(rows[0].name.as_deref(), Some("alice"));
    assert_eq!(rows[1].steamid, None);
    assert_eq!(rows[1].team_number.as_deref(), Some("-1"));
    assert_eq!(rows[1].name, None);
}

#[test]
fn skin_rows_use_zero_for_missing_numbers() {
    let mut p = Parser::new();
    p.chat_messages.push(chat(Some(4), None));
    p.chat_messages.push(chat(None, None));
    p.skins.push(skin(Some(10), Some(76561198000000001)));
    p.skins.push(skin(None, None));
    let rows = skin_rows(&p);
    assert_eq!(rows.len(), 2);
    assert_eq!(rows[0].def_index, "4");
    assert_eq!(rows[0].item_id, "10");
    assert_eq!(rows[0].paint_index, "282");
    assert_eq!(rows[0].paint_seed, "0");
    assert_eq!(rows[0].paint_wear, "1050000000");
    assert_eq!(rows[0].steamid, "76561198000000001");
    assert_eq!(rows[0].custom_name.as_deref(), Some("Blue"));
    assert_eq!(rows[1].def_index, "0");
    assert_eq!(rows[1].item_id, "0");
    assert_eq!(rows[1].steamid, "0");
}
