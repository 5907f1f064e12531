//! Nested messages: a message embedded as a field of another reads as it
//! reads on its own bytes, and the outer message keeps what its nested
//! messages give, one after the other, in order.
use vstd::prelude::*;
use crate::wire::{RECURSION_LIMIT, eff_end, lemma_varint_at_bounds, lemma_varints_bounds, packed_int32_ok, int32_of, Val};
use crate::messages::{check_fold, lemma_read_field_bounds, nested_of, read_field, MsgType};
use crate::decode::{
    class_fold, class_info_fold, class_info_of, class_step, cvar_fold, cvar_step, cvars_fold, drops_fold,
    end_of_match_fold, end_of_match_of, item_drops_of, item_fold, player_fold, player_step, set_convar_fold,
    set_convar_of, top_limit,
};
use crate::encode::{bytes_field, int32_field, lemma_read_message_field, starts_with_at};
use crate::concat::shift_val;
use crate::records::{ClassRecordView, ConVarView, EconItemView, PlayerRecordView};

verus! {

/// The bytes `it` stand in `s` from position `d` on.
pub open spec fn placed(s: Seq<u8>, it: Seq<u8>, d: int) -> bool {
    0 <= d && d + it.len() <= s.len() && s.subrange(d, d + it.len()) == it
}

/// A field read inside `it`, moved to where `it` stands in a larger buffer.
pub open spec fn shift_field(r: Option<(int, Val, int)>, d: int) -> Option<(int, Val, int)> {
    match r {
        Some((t, v, q)) => Some((t, shift_val(v, d), d + q)),
        None => None,
    }
}

proof fn lemma_placed_sub(s: Seq<u8>, it: Seq<u8>, d: int, a: int, b: int)
    requires
        placed(s, it, d),
        0 <= a <= b <= it.len(),
    ensures
        s.subrange(d + a, d + b) == it.subrange(a, b),
{
    assert(s.subrange(d + a, d + b) =~= it.subrange(a, b)) by {
        assert forall|k: int| 0 <= k < b - a implies #[trigger] s.subrange(d + a, d + b)[k] == it.subrange(a, b)[k] by {
            assert(s.subrange(d, d + it.len())[a + k] == it[a + k]);
        }
    }
}

/// A field inside a window of `it` reads the same, moved by `d`, where `it`
/// stands at `d` in `s`.
proof fn lemma_read_field_window(s: Seq<u8>, it: Seq<u8>, d: int, pos: int, lim: int, level: int, m: MsgType)
    requires
        placed(s, it, d),
        0 <= pos < lim <= it.len(),
    ensures
        read_field(s, d + pos, d + lim, level, m) == shift_field(read_field(it, pos, lim, level, m), d),
{
    assert(eff_end(s, d + lim) == d + lim);
    assert(eff_end(it, lim) == lim);
    lemma_placed_sub(s, it, d, pos, lim);
    lemma_varint_at_bounds(it, pos, lim);
    if let Some((t, p)) = crate::wire::varint32_at(it, pos, lim) {
        lemma_placed_sub(s, it, d, p, lim);
        let rest = it.subrange(p, lim);
        lemma_varints_bounds(rest);
        if let Some((l, n)) = crate::wire::varint64(rest) {
            if p + n + l <= lim {
                assert(eff_end(s, d + p + n + l) == d + p + n + l);
                assert(eff_end(it, p + n + l) == p + n + l);
            }
        }
    }
}

proof fn lemma_packed_window(s: Seq<u8>, it: Seq<u8>, d: int, pos: int, lim: int)
    requires
        placed(s, it, d),
        0 <= pos <= lim <= it.len(),
    ensures
        packed_int32_ok(s, d + pos, d + lim) == packed_int32_ok(it, pos, lim),
    decreases lim - pos,
{
    assert(eff_end(s, d + lim) == d + lim);
    assert(eff_end(it, lim) == lim);
    if pos < lim {
        lemma_placed_sub(s, it, d, pos, lim);
        let rest = it.subrange(pos, lim);
        lemma_varints_bounds(rest);
        if let Some((v, n)) = int32_of(rest) {
            lemma_packed_window(s, it, d, pos + n, lim);
        }
    }
}

/// Whether a message decodes does not depend on where its bytes stand.
#[verifier::rlimit(40)]
proof fn lemma_check_fold_window(s: Seq<u8>, it: Seq<u8>, d: int, pos: int, lim: int, level: int, m: MsgType)
    requires
        placed(s, it, d),
        0 <= pos <= lim <= it.len(),
    ensures
        check_fold(s, d + pos, d + lim, level, m) == check_fold(it, pos, lim, level, m),
    decreases lim - pos,
{
    assert(eff_end(s, d + lim) == d + lim);
    assert(eff_end(it, lim) == lim);
    if pos < lim {
        lemma_read_field_window(s, it, d, pos, lim, level, m);
        lemma_read_field_bounds(it, pos, lim, level, m);
        let r = read_field(it, pos, lim, level, m);
        if r is Some {
            let (t, v, q) = r.unwrap();
            let inner_s = match shift_val(v, d) {
                Val::Window(a, l) => check_fold(s, a, l, level + 1, nested_of(m, t)),
                Val::Packed(a, l) => packed_int32_ok(s, a, l),
                _ => true,
            };
            let inner_i = match v {
                Val::Window(a, l) => check_fold(it, a, l, level + 1, nested_of(m, t)),
                Val::Packed(a, l) => packed_int32_ok(it, a, l),
                _ => true,
            };
            match v {
                Val::Window(a, l) => {
                    assert(eff_end(it, l) == l);
                    lemma_check_fold_window(s, it, d, a, l, level + 1, nested_of(m, t));
                },
                Val::Packed(a, l) => {
                    assert(eff_end(it, l) == l);
                    lemma_packed_window(s, it, d, a, l);
                },
                _ => {},
            }
            assert(inner_s == inner_i);
            lemma_check_fold_window(s, it, d, q, lim, level, m);
            assert(check_fold(it, pos, lim, level, m) == (inner_i && check_fold(it, q, lim, level, m)));
            assert(check_fold(s, d + pos, d + lim, level, m) == (inner_s && check_fold(s, d + q, d + lim, level, m)));
        }
    }
}

/// An item reads the same wherever its bytes stand.
pub proof fn lemma_item_fold_window(s: Seq<u8>, it: Seq<u8>, d: int, pos: int, lim: int, level: int, acc: EconItemView)
    requires
        placed(s, it, d),
        0 <= pos <= lim <= it.len(),
    ensures
        item_fold(s, d + pos, d + lim, level, acc) == item_fold(it, pos, lim, level, acc),
    decreases lim - pos,
{
    assert(eff_end(s, d + lim) == d + lim);
    assert(eff_end(it, lim) == lim);
    if pos < lim {
        lemma_read_field_window(s, it, d, pos, lim, level, MsgType::ItemPreview);
        lemma_read_field_bounds(it, pos, lim, level, MsgType::ItemPreview);
        if let Some((t, v, q)) = read_field(it, pos, lim, level, MsgType::ItemPreview) {
            if let Val::Window(a, l) = v {
                assert(eff_end(it, l) == l);
                lemma_check_fold_window(s, it, d, a, l, level + 1, MsgType::Sticker);
            }
            let next = crate::decode::item_step(it, level, acc, t, v);
            assert(crate::decode::item_step(s, level, acc, t, shift_val(v, d)) == next);
            if let Some(n) = next {
                lemma_item_fold_window(s, it, d, q, lim, level, n);
            }
        }
    }
}

proof fn lemma_starts_with_two(a: Seq<u8>, b: Seq<u8>)
    ensures
        starts_with_at(a + b, 0, a),
        starts_with_at(a + b, a.len() as int, b),
        starts_with_at(a, 0, a),
{
    assert forall|k: int| 0 <= k < a.len() implies #[trigger] (a + b)[0 + k] == a[k] by {}
    assert forall|k: int| 0 <= k < b.len() implies #[trigger] (a + b)[a.len() + k] == b[k] by {}
    assert forall|k: int| 0 <= k < a.len() implies #[trigger] a[0 + k] == a[k] by {}
}

/// The item that the bytes `it` encode, read as a nested message.
pub open spec fn item_of(it: Seq<u8>) -> Option<EconItemView> {
    item_fold(it, 0, it.len() as int, 1, EconItemView::empty())
}

/// The drops fold after an item field that stands at `pos` and holds `it`.
proof fn lemma_drops_step(s: Seq<u8>, pos: int, it: Seq<u8>, acc: Seq<EconItemView>)
    requires
        it.len() < 0x1_0000_0000,
        starts_with_at(s, pos, bytes_field(10, it)),
        s.len() <= top_limit(),
    ensures
        drops_fold(s, pos, top_limit(), 0, acc) == (match item_of(it) {
            Some(x) => drops_fold(s, pos + bytes_field(10, it).len(), top_limit(), 0, acc.push(x)),
            None => None,
        }),
{
    let f = bytes_field(10, it);
    crate::encode::lemma_field_len_bounds(10, it);
    assert(eff_end(s, top_limit()) == s.len());
    lemma_read_message_field(s, pos, top_limit(), 0, MsgType::ItemDrops, 10, it);
    let h = pos + f.len() - it.len();
    lemma_item_fold_window(s, it, h, 0, it.len() as int, 1, EconItemView::empty());
}

/// An item drops message gives its items in the order they are written,
/// none lost and none added: one item field gives that item, two give both
/// in order, and an item that does not decode makes the message not decode.
pub proof fn lemma_item_drops_in_order(it1: Seq<u8>, it2: Seq<u8>)
    requires
        it1.len() < 0x1_0000_0000,
        it2.len() < 0x1_0000_0000,
    ensures
        item_drops_of(bytes_field(10, it1)) == (match item_of(it1) {
            Some(x) => Some(seq![x]),
            None => None,
        }),
        item_drops_of(bytes_field(10, it1) + bytes_field(10, it2)) == (match (item_of(it1), item_of(it2)) {
            (Some(x), Some(y)) => Some(seq![x, y]),
            _ => None,
        }),
{
    let d1 = bytes_field(10, it1);
    let d2 = bytes_field(10, it2);
    let s = d1 + d2;
    crate::encode::lemma_field_len_bounds(10, it1);
    crate::encode::lemma_field_len_bounds(10, it2);
    lemma_starts_with_two(d1, d2);
    let e: Seq<EconItemView> = Seq::empty();
    lemma_drops_step(d1, 0, it1, e);
    lemma_drops_step(s, 0, it1, e);
    if let Some(x) = item_of(it1) {
        assert(drops_fold(d1, d1.len() as int, top_limit(), 0, e.push(x)) == Some(e.push(x)));
        assert(e.push(x) == seq![x]);
        lemma_drops_step(s, d1.len() as int, it2, e.push(x));
        if let Some(y) = item_of(it2) {
            assert(drops_fold(s, s.len() as int, top_limit(), 0, e.push(x).push(y)) == Some(e.push(x).push(y)));
            assert(e.push(x).push(y) == seq![x, y]);
        }
    }
}

// ---------------------------------------------------------------- windows of the other messages

proof fn lemma_cvar_fold_window(s: Seq<u8>, it: Seq<u8>, d: int, pos: int, lim: int, level: int, acc: ConVarView)
    requires
        placed(s, it, d),
        0 <= pos <= lim <= it.len(),
    ensures
        cvar_fold(s, d + pos, d + lim, level, acc) == cvar_fold(it, pos, lim, level, acc),
    decreases lim - pos,
{
    assert(eff_end(s, d + lim) == d + lim);
    assert(eff_end(it, lim) == lim);
    if pos < lim {
        lemma_read_field_window(s, it, d, pos, lim, level, MsgType::CVar);
        lemma_read_field_bounds(it, pos, lim, level, MsgType::CVar);
        if let Some((t, v, q)) = read_field(it, pos, lim, level, MsgType::CVar) {
            assert(cvar_step(acc, t, shift_val(v, d)) == cvar_step(acc, t, v));
            lemma_cvar_fold_window(s, it, d, q, lim, level, cvar_step(acc, t, v));
        }
    }
}

proof fn lemma_cvars_fold_window(s: Seq<u8>, it: Seq<u8>, d: int, pos: int, lim: int, level: int, acc: Seq<ConVarView>)
    requires
        placed(s, it, d),
        0 <= pos <= lim <= it.len(),
    ensures
        cvars_fold(s, d + pos, d + lim, level, acc) == cvars_fold(it, pos, lim, level, acc),
    decreases lim - pos,
{
    assert(eff_end(s, d + lim) == d + lim);
    assert(eff_end(it, lim) == lim);
    if pos < lim {
        lemma_read_field_window(s, it, d, pos, lim, level, MsgType::CVars);
        lemma_read_field_bounds(it, pos, lim, level, MsgType::CVars);
        let r = read_field(it, pos, lim, level, MsgType::CVars);
        if r is Some {
            let (t, v, q) = r.unwrap();
            if let Val::Window(a, l) = v {
                assert(eff_end(it, l) == l);
                let e = ConVarView { name: None, value: None };
                lemma_cvar_fold_window(s, it, d, a, l, level + 1, e);
                let c = cvar_fold(it, a, l, level + 1, e);
                if c is Some {
                    let x = c.unwrap();
                    lemma_cvars_fold_window(s, it, d, q, lim, level, acc.push(x));
                    assert(cvars_fold(it, pos, lim, level, acc) == cvars_fold(it, q, lim, level, acc.push(x)));
                    assert(cvars_fold(s, d + pos, d + lim, level, acc) == cvars_fold(s, d + q, d + lim, level, acc.push(x)));
                } else {
                    assert(cvars_fold(it, pos, lim, level, acc) is None);
                    assert(cvars_fold(s, d + pos, d + lim, level, acc) is None);
                }
            } else {
                lemma_cvars_fold_window(s, it, d, q, lim, level, acc);
                assert(cvars_fold(it, pos, lim, level, acc) == cvars_fold(it, q, lim, level, acc));
                assert(cvars_fold(s, d + pos, d + lim, level, acc) == cvars_fold(s, d + q, d + lim, level, acc));
            }
        }
    }
}

proof fn lemma_class_fold_window(s: Seq<u8>, it: Seq<u8>, d: int, pos: int, lim: int, level: int, acc: ClassRecordView)
    requires
        placed(s, it, d),
        0 <= pos <= lim <= it.len(),
    ensures
        class_fold(s, d + pos, d + lim, level, acc) == class_fold(it, pos, lim, level, acc),
    decreases lim - pos,
{
    assert(eff_end(s, d + lim) == d + lim);
    assert(eff_end(it, lim) == lim);
    if pos < lim {
        lemma_read_field_window(s, it, d, pos, lim, level, MsgType::ClassEntry);
        lemma_read_field_bounds(it, pos, lim, level, MsgType::ClassEntry);
        if let Some((t, v, q)) = read_field(it, pos, lim, level, MsgType::ClassEntry) {
            assert(class_step(acc, t, shift_val(v, d)) == class_step(acc, t, v));
            lemma_class_fold_window(s, it, d, q, lim, level, class_step(acc, t, v));
        }
    }
}

#[verifier::rlimit(40)]
proof fn lemma_player_fold_window(s: Seq<u8>, it: Seq<u8>, d: int, pos: int, lim: int, level: int, acc: PlayerRecordView)
    requires
        placed(s, it, d),
        0 <= pos <= lim <= it.len(),
    ensures
        player_fold(s, d + pos, d + lim, level, acc) == player_fold(it, pos, lim, level, acc),
    decreases lim - pos,
{
    assert(eff_end(s, d + lim) == d + lim);
    assert(eff_end(it, lim) == lim);
    if pos < lim {
        lemma_read_field_window(s, it, d, pos, lim, level, MsgType::PlayerData);
        lemma_read_field_bounds(it, pos, lim, level, MsgType::PlayerData);
        if let Some((t, v, q)) = read_field(it, pos, lim, level, MsgType::PlayerData) {
            if let Val::Window(a, l) = v {
                assert(eff_end(it, l) == l);
                lemma_check_fold_window(s, it, d, a, l, level + 1, MsgType::Accolade);
                lemma_item_fold_window(s, it, d, a, l, level + 1, EconItemView::empty());
            }
            let next = player_step(it, level, acc, t, v);
            assert(player_step(s, level, acc, t, shift_val(v, d)) == next);
            if let Some(n) = next {
                lemma_player_fold_window(s, it, d, q, lim, level, n);
            }
        }
    }
}

// ---------------------------------------------------------------- one nested field

/// The console variable that the bytes `c` encode inside a list.
pub open spec fn cvar_of(c: Seq<u8>) -> Option<ConVarView> {
    cvar_fold(c, 0, c.len() as int, 2, ConVarView { name: None, value: None })
}

/// The console variables that the bytes `l` encode as a `CMsg_CVars`.
pub open spec fn cvar_list_of(l: Seq<u8>) -> Option<Seq<ConVarView>> {
    cvars_fold(l, 0, l.len() as int, 1, Seq::empty())
}

/// The class record that the bytes `c` encode inside a `CDemoClassInfo`.
pub open spec fn class_of(c: Seq<u8>) -> Option<ClassRecordView> {
    class_fold(c, 0, c.len() as int, 1, ClassRecordView { class_id: None, network_name: None })
}

/// The player that the bytes `p` encode inside an end-of-match message.
pub open spec fn player_of(p: Seq<u8>) -> Option<PlayerRecordView> {
    player_fold(p, 0, p.len() as int, 1, PlayerRecordView::empty())
}

/// The item that the bytes `it` encode inside a player.
pub open spec fn worn_item_of(it: Seq<u8>) -> Option<EconItemView> {
    item_fold(it, 0, it.len() as int, 2, EconItemView::empty())
}

/// Where a nested-message field at `pos` holding `c` stands in `s`.
pub open spec fn field_fits(s: Seq<u8>, pos: int, lim: int, level: int, tag: nat, c: Seq<u8>) -> bool {
    &&& c.len() < 0x1_0000_0000
    &&& starts_with_at(s, pos, bytes_field(tag, c))
    &&& pos + bytes_field(tag, c).len() <= eff_end(s, lim)
    &&& pos + bytes_field(tag, c).len() <= lim
    &&& 0 <= level < RECURSION_LIMIT
}

proof fn lemma_payload_placed(s: Seq<u8>, pos: int, lim: int, level: int, m: MsgType, tag: nat, c: Seq<u8>)
    requires
        field_fits(s, pos, lim, level, tag, c),
        tag < 0x1_0000_0000,
        crate::messages::kind_of(m, tag as int) == crate::wire::Kind::Message,
    ensures
        read_field(s, pos, lim, level, m) == Some((
            tag as int,
            Val::Window(pos + bytes_field(tag, c).len() - c.len(), pos + bytes_field(tag, c).len()),
            pos + bytes_field(tag, c).len(),
        )),
        placed(s, c, pos + bytes_field(tag, c).len() - c.len()),
        eff_end(s, pos + bytes_field(tag, c).len()) == pos + bytes_field(tag, c).len(),
{
    crate::encode::lemma_field_len_bounds(tag, c);
    lemma_read_message_field(s, pos, lim, level, m, tag, c);
}

proof fn lemma_cvars_step(s: Seq<u8>, pos: int, lim: int, level: int, c: Seq<u8>, acc: Seq<ConVarView>)
    requires
        field_fits(s, pos, lim, level, 10, c),
    ensures
        cvars_fold(s, pos, lim, level, acc) == (match cvar_fold(c, 0, c.len() as int, level + 1, ConVarView { name: None, value: None }) {
            Some(x) => cvars_fold(s, pos + bytes_field(10, c).len(), lim, level, acc.push(x)),
            None => None,
        }),
{
    lemma_payload_placed(s, pos, lim, level, MsgType::CVars, 10, c);
    let d = pos + bytes_field(10, c).len() - c.len();
    lemma_cvar_fold_window(s, c, d, 0, c.len() as int, level + 1, ConVarView { name: None, value: None });
}

proof fn lemma_class_info_step(s: Seq<u8>, pos: int, lim: int, level: int, c: Seq<u8>, acc: Seq<ClassRecordView>)
    requires
        field_fits(s, pos, lim, level, 10, c),
    ensures
        class_info_fold(s, pos, lim, level, acc) == (match class_fold(c, 0, c.len() as int, level + 1, ClassRecordView { class_id: None, network_name: None }) {
            Some(x) => class_info_fold(s, pos + bytes_field(10, c).len(), lim, level, acc.push(x)),
            None => None,
        }),
{
    lemma_payload_placed(s, pos, lim, level, MsgType::ClassInfo, 10, c);
    let d = pos + bytes_field(10, c).len() - c.len();
    lemma_class_fold_window(s, c, d, 0, c.len() as int, level + 1, ClassRecordView { class_id: None, network_name: None });
}

proof fn lemma_end_of_match_step(s: Seq<u8>, pos: int, lim: int, level: int, p: Seq<u8>, acc: Seq<PlayerRecordView>)
    requires
        field_fits(s, pos, lim, level, 10, p),
    ensures
        end_of_match_fold(s, pos, lim, level, acc) == (match player_fold(p, 0, p.len() as int, level + 1, PlayerRecordView::empty()) {
            Some(x) => end_of_match_fold(s, pos + bytes_field(10, p).len(), lim, level, acc.push(x)),
            None => None,
        }),
{
    lemma_payload_placed(s, pos, lim, level, MsgType::EndOfMatch, 10, p);
    let d = pos + bytes_field(10, p).len() - p.len();
    lemma_player_fold_window(s, p, d, 0, p.len() as int, level + 1, PlayerRecordView::empty());
}

proof fn lemma_player_item_step(s: Seq<u8>, pos: int, lim: int, level: int, it: Seq<u8>, acc: PlayerRecordView)
    requires
        field_fits(s, pos, lim, level, 50, it),
    ensures
        player_fold(s, pos, lim, level, acc) == (match item_fold(it, 0, it.len() as int, level + 1, EconItemView::empty()) {
            Some(x) => player_fold(s, pos + bytes_field(50, it).len(), lim, level, PlayerRecordView { items: acc.items.push(x), ..acc }),
            None => None,
        }),
{
    lemma_payload_placed(s, pos, lim, level, MsgType::PlayerData, 50, it);
    let d = pos + bytes_field(50, it).len() - it.len();
    lemma_item_fold_window(s, it, d, 0, it.len() as int, level + 1, EconItemView::empty());
}

proof fn lemma_two_fields_fit(a: Seq<u8>, b: Seq<u8>, tag: nat, lim: int, level: int)
    requires
        a.len() < 0x1_0000_0000,
        b.len() < 0x1_0000_0000,
        tag < 0x1_0000_0000,
        bytes_field(tag, a).len() + bytes_field(tag, b).len() <= lim,
        0 <= level < RECURSION_LIMIT,
    ensures
        field_fits(bytes_field(tag, a) + bytes_field(tag, b), 0, lim, level, tag, a),
        field_fits(bytes_field(tag, a) + bytes_field(tag, b), bytes_field(tag, a).len() as int, lim, level, tag, b),
        field_fits(bytes_field(tag, a), 0, lim, level, tag, a),
        eff_end(bytes_field(tag, a) + bytes_field(tag, b), lim) == bytes_field(tag, a).len() + bytes_field(tag, b).len(),
        eff_end(bytes_field(tag, a), lim) == bytes_field(tag, a).len(),
{
    lemma_starts_with_two(bytes_field(tag, a), bytes_field(tag, b));
}

proof fn lemma_one_field_fits(a: Seq<u8>, tag: nat, lim: int, level: int)
    requires
        a.len() < 0x1_0000_0000,
        tag < 0x1_0000_0000,
        bytes_field(tag, a).len() <= lim,
        0 <= level < RECURSION_LIMIT,
    ensures
        field_fits(bytes_field(tag, a), 0, lim, level, tag, a),
        eff_end(bytes_field(tag, a), lim) == bytes_field(tag, a).len(),
{
    lemma_starts_with_two(bytes_field(tag, a), Seq::empty());
}

// ---------------------------------------------------------------- laws

/// A class info message gives its classes in the order they are written,
/// none lost and none added; a class that does not decode makes the message
/// not decode.
pub proof fn lemma_class_info_in_order(c1: Seq<u8>, c2: Seq<u8>)
    requires
        c1.len() < 0x1_0000_0000,
        c2.len() < 0x1_0000_0000,
    ensures
        class_info_of(bytes_field(10, c1)) == (match class_of(c1) {
            Some(x) => Some(seq![x]),
            None => None,
        }),
        class_info_of(bytes_field(10, c1) + bytes_field(10, c2)) == (match (class_of(c1), class_of(c2)) {
            (Some(x), Some(y)) => Some(seq![x, y]),
            _ => None,
        }),
{
    let d1 = bytes_field(10, c1);
    let s = d1 + bytes_field(10, c2);
    crate::encode::lemma_field_len_bounds(10, c1);
    crate::encode::lemma_field_len_bounds(10, c2);
    lemma_two_fields_fit(c1, c2, 10, top_limit(), 0);
    let e: Seq<ClassRecordView> = Seq::empty();
    lemma_class_info_step(d1, 0, top_limit(), 0, c1, e);
    lemma_class_info_step(s, 0, top_limit(), 0, c1, e);
    if let Some(x) = class_of(c1) {
        assert(class_info_fold(d1, d1.len() as int, top_limit(), 0, e.push(x)) == Some(e.push(x)));
        assert(e.push(x) == seq![x]);
        lemma_class_info_step(s, d1.len() as int, top_limit(), 0, c2, e.push(x));
        if let Some(y) = class_of(c2) {
            assert(class_info_fold(s, s.len() as int, top_limit(), 0, e.push(x).push(y)) == Some(e.push(x).push(y)));
            assert(e.push(x).push(y) == seq![x, y]);
        }
    }
}

/// A class info message with one class, written with its class id and its
/// network name, gives exactly that class, whatever the id.
pub proof fn lemma_class_info_one_class(id: int, name: Seq<u8>)
    requires
        -0x8000_0000 <= id < 0x8000_0000,
        vstd::utf8::valid_utf8(name),
        name.len() < 0x1_0000,
    ensures
        class_info_of(bytes_field(10, int32_field(8, id) + bytes_field(18, name)))
            == Some(seq![ClassRecordView { class_id: Some(id as i32), network_name: Some(vstd::utf8::decode_utf8(name)) }]),
{
    let c = int32_field(8, id) + bytes_field(18, name);
    crate::encode::lemma_field_len_bounds(18, name);
    crate::encode::lemma_int32_field_len(8, id);
    lemma_class_info_in_order(c, c);
    crate::encode::lemma_class_record_fields(id, name, c.len() as int, 1);
}

proof fn lemma_cvar_list_one(c1: Seq<u8>)
    requires
        c1.len() < 0x1_0000_0000,
    ensures
        cvar_list_of(bytes_field(10, c1)) == (match cvar_of(c1) {
            Some(x) => Some(seq![x]),
            None => None,
        }),
{
    let d1 = bytes_field(10, c1);
    crate::encode::lemma_field_len_bounds(10, c1);
    lemma_one_field_fits(c1, 10, d1.len() as int, 1);
    let e: Seq<ConVarView> = Seq::empty();
    lemma_cvars_step(d1, 0, d1.len() as int, 1, c1, e);
    if let Some(x) = cvar_of(c1) {
        assert(cvars_fold(d1, d1.len() as int, d1.len() as int, 1, e.push(x)) == Some(e.push(x)));
        assert(e.push(x) == seq![x]);
    }
}

proof fn lemma_cvar_list_two(c1: Seq<u8>, c2: Seq<u8>)
    requires
        c1.len() < 0x1_0000_0000,
        c2.len() < 0x1_0000_0000,
    ensures
        cvar_list_of(bytes_field(10, c1) + bytes_field(10, c2)) == (match (cvar_of(c1), cvar_of(c2)) {
            (Some(x), Some(y)) => Some(seq![x, y]),
            _ => None,
        }),
{
    let d1 = bytes_field(10, c1);
    let s = d1 + bytes_field(10, c2);
    crate::encode::lemma_field_len_bounds(10, c1);
    crate::encode::lemma_field_len_bounds(10, c2);
    lemma_two_fields_fit(c1, c2, 10, s.len() as int, 1);
    let e: Seq<ConVarView> = Seq::empty();
    lemma_cvars_step(s, 0, s.len() as int, 1, c1, e);
    if let Some(x) = cvar_of(c1) {
        lemma_cvars_step(s, d1.len() as int, s.len() as int, 1, c2, e.push(x));
        if let Some(y) = cvar_of(c2) {
            assert(cvars_fold(s, s.len() as int, s.len() as int, 1, e.push(x).push(y)) == Some(e.push(x).push(y)));
            assert(e.push(x).push(y) == seq![x, y]);
        }
    }
}

/// A list of console variables gives them in the order they are written,
/// none lost and none added.
pub proof fn lemma_cvar_list_in_order(c1: Seq<u8>, c2: Seq<u8>)
    requires
        c1.len() < 0x1_0000_0000,
        c2.len() < 0x1_0000_0000,
    ensures
        cvar_list_of(bytes_field(10, c1)) == (match cvar_of(c1) {
            Some(x) => Some(seq![x]),
            None => None,
        }),
        cvar_list_of(bytes_field(10, c1) + bytes_field(10, c2)) == (match (cvar_of(c1), cvar_of(c2)) {
            (Some(x), Some(y)) => Some(seq![x, y]),
            _ => None,
        }),
{
    lemma_cvar_list_one(c1);
    lemma_cvar_list_two(c1, c2);
}

/// A `CNETMsg_SetConVar` gives the console variables of its list, in order.
pub proof fn lemma_set_convar_gives_list(l: Seq<u8>)
    requires
        l.len() < 0x1_0000_0000,
    ensures
        set_convar_of(bytes_field(10, l)) == cvar_list_of(l),
{
    let f = bytes_field(10, l);
    crate::encode::lemma_field_len_bounds(10, l);
    lemma_two_fields_fit(l, l, 10, top_limit(), 0);
    lemma_payload_placed(f, 0, top_limit(), 0, MsgType::SetConVar, 10, l);
    let d = f.len() - l.len();
    lemma_cvars_fold_window(f, l, d, 0, l.len() as int, 1, Seq::empty());
    if let Some(x) = cvar_list_of(l) {
        assert(set_convar_fold(f, f.len() as int, top_limit(), 0, x) == Some(x));
    }
}

/// A `CNETMsg_SetConVar` that sets one console variable, written with its
/// name and its value, gives exactly that variable with that value,
/// whatever the value's length or characters.
pub proof fn lemma_set_convar_one(n: Seq<u8>, v: Seq<u8>)
    requires
        vstd::utf8::valid_utf8(n),
        vstd::utf8::valid_utf8(v),
        n.len() < 0x1_0000,
        v.len() < 0x1_0000,
    ensures
        set_convar_of(bytes_field(10, bytes_field(10, bytes_field(10, n) + bytes_field(18, v))))
            == Some(seq![ConVarView { name: Some(vstd::utf8::decode_utf8(n)), value: Some(vstd::utf8::decode_utf8(v)) }]),
{
    let c = bytes_field(10, n) + bytes_field(18, v);
    crate::encode::lemma_field_len_bounds(10, n);
    crate::encode::lemma_field_len_bounds(18, v);
    crate::encode::lemma_field_len_bounds(10, c);
    lemma_cvar_list_in_order(c, c);
    lemma_set_convar_gives_list(bytes_field(10, c));
    crate::encode::lemma_cvar_name_and_value(n, v, c.len() as int, 2, ConVarView { name: None, value: None });
}

/// An end-of-match message gives its players in the order they are
/// written, none lost and none added.
#[verifier::rlimit(80)]
pub proof fn lemma_players_in_order(p1: Seq<u8>, p2: Seq<u8>)
    requires
        p1.len() < 0x1_0000_0000,
        p2.len() < 0x1_0000_0000,
    ensures
        end_of_match_of(bytes_field(10, p1)) == (match player_of(p1) {
            Some(x) => Some(seq![x]),
            None => None,
        }),
        end_of_match_of(bytes_field(10, p1) + bytes_field(10, p2)) == (match (player_of(p1), player_of(p2)) {
            (Some(x), Some(y)) => Some(seq![x, y]),
            _ => None,
        }),
{
    let d1 = bytes_field(10, p1);
    let s = d1 + bytes_field(10, p2);
    crate::encode::lemma_field_len_bounds(10, p1);
    crate::encode::lemma_field_len_bounds(10, p2);
    lemma_two_fields_fit(p1, p2, 10, top_limit(), 0);
    let e: Seq<PlayerRecordView> = Seq::empty();
    lemma_end_of_match_step(d1, 0, top_limit(), 0, p1, e);
    lemma_end_of_match_step(s, 0, top_limit(), 0, p1, e);
    if let Some(x) = player_of(p1) {
        assert(end_of_match_fold(d1, d1.len() as int, top_limit(), 0, e.push(x)) == Some(e.push(x)));
        assert(e.push(x) == seq![x]);
        lemma_end_of_match_step(s, d1.len() as int, top_limit(), 0, p2, e.push(x));
        if let Some(y) = player_of(p2) {
            assert(end_of_match_fold(s, s.len() as int, top_limit(), 0, e.push(x).push(y)) == Some(e.push(x).push(y)));
            assert(e.push(x).push(y) == seq![x, y]);
        }
    }
}

/// A player's items are the items written in its item fields, in order,
/// none lost and none added.
pub proof fn lemma_player_items_in_order(i1: Seq<u8>, i2: Seq<u8>)
    requires
        i1.len() < 0x1_0000_0000,
        i2.len() < 0x1_0000_0000,
    ensures
        player_of(bytes_field(50, i1) + bytes_field(50, i2)) == (match (worn_item_of(i1), worn_item_of(i2)) {
            (Some(x), Some(y)) => Some(PlayerRecordView { items: seq![x, y], ..PlayerRecordView::empty() }),
            _ => None,
        }),
{
    let d1 = bytes_field(50, i1);
    let s = d1 + bytes_field(50, i2);
    crate::encode::lemma_field_len_bounds(50, i1);
    crate::encode::lemma_field_len_bounds(50, i2);
    lemma_two_fields_fit(i1, i2, 50, s.len() as int, 1);
    let e = PlayerRecordView::empty();
    lemma_player_item_step(s, 0, s.len() as int, 1, i1, e);
    if let Some(x) = worn_item_of(i1) {
        let e1 = PlayerRecordView { items: e.items.push(x), ..e };
        lemma_player_item_step(s, d1.len() as int, s.len() as int, 1, i2, e1);
        if let Some(y) = worn_item_of(i2) {
            let e2 = PlayerRecordView { items: e1.items.push(y), ..e1 };
            assert(player_fold(s, s.len() as int, s.len() as int, 1, e2) == Some(e2));
            assert(e.items.push(x).push(y) == seq![x, y]);
        }
    }
}

} // verus!
