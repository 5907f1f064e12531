//! Concatenated encodings: what a decoder reads of `a + b` is what it reads
//! of `a` followed by what it reads of `b`.
use vstd::prelude::*;
use crate::wire::{
    eff_end, group_scan, lemma_scalar_skip_bounds, lemma_varints_bounds, read_value, scalar_skip,
    tag_valid, varint32, varint32_at, varint64, varint64_at, varint_len, varint_value, Kind, Val,
};
use crate::messages::{read_field, kind_of, MsgType};
use crate::decode::{chat_fold, chat_message_of, chat_step, top_limit};
use crate::records::ChatMessageView;

verus! {

proof fn lemma_varint_len_prefix(x: Seq<u8>, y: Seq<u8>, i: int, max: int, last_max: u8)
    requires
        varint_len(x, i, max, last_max) is Some,
    ensures
        varint_len(x + y, i, max, last_max) == varint_len(x, i, max, last_max),
    decreases x.len() - i,
{
    assert((x + y)[i] == x[i]);
    if i != max - 1 && x[i] >= 0x80 {
        lemma_varint_len_prefix(x, y, i + 1, max, last_max);
    }
}

proof fn lemma_varint_value_prefix(x: Seq<u8>, y: Seq<u8>, n: int)
    requires
        n <= x.len(),
    ensures
        varint_value(x + y, n) == varint_value(x, n),
    decreases n,
{
    if n > 0 && x.len() > 0 {
        assert((x + y).drop_first() =~= x.drop_first() + y);
        lemma_varint_value_prefix(x.drop_first(), y, n - 1);
    }
}

proof fn lemma_varints_prefix(x: Seq<u8>, y: Seq<u8>)
    ensures
        varint64(x) is Some ==> varint64(x + y) == varint64(x),
        varint32(x) is Some ==> varint32(x + y) == varint32(x),
{
    crate::wire::lemma_varint_len_bounds(x, 0, 10, 1);
    crate::wire::lemma_varint_len_bounds(x, 0, 5, 15);
    if let Some(n) = varint_len(x, 0, 10, 1) {
        lemma_varint_len_prefix(x, y, 0, 10, 1);
        lemma_varint_value_prefix(x, y, n);
    }
    if let Some(n) = varint_len(x, 0, 5, 15) {
        lemma_varint_len_prefix(x, y, 0, 5, 15);
        lemma_varint_value_prefix(x, y, n);
    }
}

/// Varints read inside `a` read the same inside `a + b`.
proof fn lemma_varint_at_prefix(a: Seq<u8>, b: Seq<u8>, pos: int)
    requires
        0 <= pos <= a.len(),
    ensures
        varint64_at(a, pos, a.len() as int) is Some ==> varint64_at(a + b, pos, (a + b).len() as int) == varint64_at(a, pos, a.len() as int),
        varint32_at(a, pos, a.len() as int) is Some ==> varint32_at(a + b, pos, (a + b).len() as int) == varint32_at(a, pos, a.len() as int),
{
    let x = a.subrange(pos, a.len() as int);
    assert((a + b).subrange(pos, (a + b).len() as int) =~= x + b);
    lemma_varints_prefix(x, b);
}

/// Varints read inside `b` read the same, moved by `a.len()`, inside `a + b`.
proof fn lemma_varint_at_shift(a: Seq<u8>, b: Seq<u8>, pos: int)
    requires
        0 <= pos <= b.len(),
    ensures
        varint64_at(a + b, a.len() + pos, (a + b).len() as int) == (match varint64_at(b, pos, b.len() as int) {
            Some((v, q)) => Some((v, a.len() + q)),
            None => None,
        }),
        varint32_at(a + b, a.len() + pos, (a + b).len() as int) == (match varint32_at(b, pos, b.len() as int) {
            Some((v, q)) => Some((v, a.len() + q)),
            None => None,
        }),
{
    assert((a + b).subrange(a.len() + pos, (a + b).len() as int) =~= b.subrange(pos, b.len() as int));
}

proof fn lemma_scalar_skip_prefix(x: Seq<u8>, y: Seq<u8>, pos: int, wt: int)
    requires
        0 <= pos <= x.len(),
        scalar_skip(x, pos, wt) is Some,
    ensures
        scalar_skip(x + y, pos, wt) == scalar_skip(x, pos, wt),
{
    let r = x.subrange(pos, x.len() as int);
    assert((x + y).subrange(pos, (x + y).len() as int) =~= r + y);
    lemma_varints_prefix(r, y);
}

proof fn lemma_group_scan_prefix(x: Seq<u8>, y: Seq<u8>, pos: int, level: int, depth: nat)
    requires
        group_scan(x, pos, level, depth) is Some,
    ensures
        group_scan(x + y, pos, level, depth) == group_scan(x, pos, level, depth),
    decreases x.len() - pos,
{
    let r = x.subrange(pos, x.len() as int);
    assert((x + y).subrange(pos, (x + y).len() as int) =~= r + y);
    lemma_varints_prefix(r, y);
    lemma_varints_bounds(r);
    let (t, n) = varint32(r).unwrap();
    let p = pos + n;
    if tag_valid(t as int) {
        if t % 8 == 4 {
            if depth != 0 {
                lemma_group_scan_prefix(x, y, p, level, (depth - 1) as nat);
            }
        } else if t % 8 == 3 {
            lemma_group_scan_prefix(x, y, p, level, depth + 1);
        } else {
            let wt = (t % 8) as int;
            lemma_scalar_skip_prefix(x, y, p, wt);
            lemma_scalar_skip_bounds(x, p, wt);
            let q = scalar_skip(x, p, wt).unwrap();
            lemma_group_scan_prefix(x, y, q, level, depth);
        }
    }
}

/// Moves a value read inside `b` to its place inside `a + b`.
pub open spec fn shift_val(v: Val, d: int) -> Val {
    match v {
        Val::Window(x, l) => Val::Window(x + d, l + d),
        Val::Packed(x, l) => Val::Packed(x + d, l + d),
        _ => v,
    }
}

proof fn lemma_read_value_prefix(a: Seq<u8>, b: Seq<u8>, pos: int, level: int, tag: int, kind: Kind)
    requires
        0 <= pos <= a.len(),
        kind != Kind::Message,
        kind != Kind::PackedInt32,
        read_value(a, pos, top_limit(), level, tag, kind) is Some,
        a.len() + b.len() <= top_limit(),
    ensures
        read_value(a + b, pos, top_limit(), level, tag, kind) == read_value(a, pos, top_limit(), level, tag, kind),
{
    let s = a + b;
    assert(eff_end(a, top_limit()) == a.len());
    assert(eff_end(s, top_limit()) == s.len());
    let x = a.subrange(pos, a.len() as int);
    assert(s.subrange(pos, s.len() as int) =~= x + b);
    lemma_varints_prefix(x, b);
    lemma_varints_bounds(x);
    if kind == Kind::Text {
        let (l, n) = varint32(x).unwrap();
        assert((x + b).subrange(n, n + l) =~= x.subrange(n, n + l));
    } else if kind == Kind::Plain {
        if tag % 8 == 3 {
            lemma_group_scan_prefix(x, b, 0, level, 0);
        } else if tag_valid(tag) {
            lemma_scalar_skip_prefix(x, b, 0, tag % 8);
        }
    }
}

proof fn lemma_read_value_shift(a: Seq<u8>, b: Seq<u8>, pos: int, level: int, tag: int, kind: Kind)
    requires
        0 <= pos <= b.len(),
        kind != Kind::Message,
        kind != Kind::PackedInt32,
        a.len() + b.len() <= top_limit(),
    ensures
        read_value(a + b, a.len() + pos, top_limit(), level, tag, kind) == (match read_value(b, pos, top_limit(), level, tag, kind) {
            Some((v, q)) => Some((shift_val(v, a.len() as int), a.len() + q)),
            None => None,
        }),
{
    let s = a + b;
    assert(eff_end(b, top_limit()) == b.len());
    assert(eff_end(s, top_limit()) == s.len());
    assert(s.subrange(a.len() + pos, s.len() as int) =~= b.subrange(pos, b.len() as int));
}

/// Fields read inside `a` read the same inside `a + b`.
proof fn lemma_read_field_prefix(a: Seq<u8>, b: Seq<u8>, pos: int, m: MsgType)
    requires
        0 <= pos < a.len(),
        read_field(a, pos, top_limit(), 0, m) is Some,
        forall|t: int| kind_of(m, t) != Kind::Message && kind_of(m, t) != Kind::PackedInt32,
        a.len() + b.len() <= top_limit(),
    ensures
        read_field(a + b, pos, top_limit(), 0, m) == read_field(a, pos, top_limit(), 0, m),
{
    let s = a + b;
    assert(eff_end(a, top_limit()) == a.len());
    assert(eff_end(s, top_limit()) == s.len());
    lemma_varint_at_prefix(a, b, pos);
    crate::wire::lemma_varint_at_bounds(a, pos, a.len() as int);
    let (t, p) = varint32_at(a, pos, a.len() as int).unwrap();
    lemma_read_value_prefix(a, b, p, 0, t as int, kind_of(m, t as int));
}

/// Fields read inside `b` read the same, moved by `a.len()`, inside `a + b`.
proof fn lemma_read_field_shift(a: Seq<u8>, b: Seq<u8>, pos: int, m: MsgType)
    requires
        0 <= pos <= b.len(),
        forall|t: int| kind_of(m, t) != Kind::Message && kind_of(m, t) != Kind::PackedInt32,
        a.len() + b.len() <= top_limit(),
    ensures
        read_field(a + b, a.len() + pos, top_limit(), 0, m) == (match read_field(b, pos, top_limit(), 0, m) {
            Some((t, v, q)) => Some((t, shift_val(v, a.len() as int), a.len() + q)),
            None => None,
        }),
{
    let s = a + b;
    assert(eff_end(b, top_limit()) == b.len());
    assert(eff_end(s, top_limit()) == s.len());
    lemma_varint_at_shift(a, b, pos);
    crate::wire::lemma_varint_at_bounds(b, pos, b.len() as int);
    if let Some((t, p)) = varint32_at(b, pos, b.len() as int) {
        lemma_read_value_shift(a, b, p, 0, t as int, kind_of(m, t as int));
    }
}

proof fn lemma_chat_kinds()
    ensures
        forall|t: int| kind_of(MsgType::SayText2, t) != Kind::Message && kind_of(MsgType::SayText2, t) != Kind::PackedInt32,
{
}

proof fn lemma_chat_fold_prefix(a: Seq<u8>, b: Seq<u8>, pos: int, acc: ChatMessageView)
    requires
        0 <= pos <= a.len(),
        chat_fold(a, pos, top_limit(), 0, acc) is Some,
        a.len() + b.len() <= top_limit(),
    ensures
        chat_fold(a + b, pos, top_limit(), 0, acc)
            == chat_fold(a + b, a.len() as int, top_limit(), 0, chat_fold(a, pos, top_limit(), 0, acc).unwrap()),
    decreases a.len() - pos,
{
    assert(eff_end(a, top_limit()) == a.len());
    if pos < a.len() {
        lemma_chat_kinds();
        lemma_read_field_prefix(a, b, pos, MsgType::SayText2);
        crate::messages::lemma_read_field_bounds(a, pos, top_limit(), 0, MsgType::SayText2);
        let (t, v, q) = read_field(a, pos, top_limit(), 0, MsgType::SayText2).unwrap();
        lemma_chat_fold_prefix(a, b, q, chat_step(acc, t, v));
    }
}

proof fn lemma_chat_fold_shift(a: Seq<u8>, b: Seq<u8>, pos: int, acc: ChatMessageView)
    requires
        0 <= pos <= b.len(),
        a.len() + b.len() <= top_limit(),
    ensures
        chat_fold(a + b, a.len() + pos, top_limit(), 0, acc) == chat_fold(b, pos, top_limit(), 0, acc),
    decreases b.len() - pos,
{
    assert(eff_end(b, top_limit()) == b.len());
    assert(eff_end(a + b, top_limit()) == (a + b).len());
    if pos < b.len() {
        lemma_chat_kinds();
        lemma_read_field_shift(a, b, pos, MsgType::SayText2);
        crate::messages::lemma_read_field_bounds(b, pos, top_limit(), 0, MsgType::SayText2);
        if let Some((t, v, q)) = read_field(b, pos, top_limit(), 0, MsgType::SayText2) {
            assert(chat_step(acc, t, shift_val(v, a.len() as int)) == chat_step(acc, t, v));
            lemma_chat_fold_shift(a, b, q, chat_step(acc, t, v));
        }
    }
}

/// A chat line whose fields that `y` sets are replaced by those of `y`.
pub open spec fn chat_merge(x: ChatMessageView, y: ChatMessageView) -> ChatMessageView {
    ChatMessageView {
        entity_idx: if y.entity_idx is Some { y.entity_idx } else { x.entity_idx },
        param1: if y.param1 is Some { y.param1 } else { x.param1 },
        param2: if y.param2 is Some { y.param2 } else { x.param2 },
        param3: if y.param3 is Some { y.param3 } else { x.param3 },
        param4: if y.param4 is Some { y.param4 } else { x.param4 },
    }
}

proof fn lemma_chat_fold_from(b: Seq<u8>, pos: int, x: ChatMessageView, y: ChatMessageView)
    requires
        0 <= pos <= b.len(),
        b.len() <= top_limit(),
    ensures
        chat_fold(b, pos, top_limit(), 0, chat_merge(x, y)) == (match chat_fold(b, pos, top_limit(), 0, y) {
            Some(z) => Some(chat_merge(x, z)),
            None => None,
        }),
    decreases b.len() - pos,
{
    assert(eff_end(b, top_limit()) == b.len());
    if pos < b.len() {
        crate::messages::lemma_read_field_bounds(b, pos, top_limit(), 0, MsgType::SayText2);
        if let Some((t, v, q)) = read_field(b, pos, top_limit(), 0, MsgType::SayText2) {
            assert(chat_step(chat_merge(x, y), t, v) == chat_merge(x, chat_step(y, t, v)));
            lemma_chat_fold_from(b, q, x, chat_step(y, t, v));
        }
    }
}

/// Two encoded chat lines written one after the other decode as one chat
/// line: each field comes from the second where the second sets it and
/// from the first otherwise.
pub proof fn lemma_chat_concatenation_merges(a: Seq<u8>, b: Seq<u8>)
    requires
        chat_message_of(a) is Some,
        chat_message_of(b) is Some,
        a.len() + b.len() <= top_limit(),
    ensures
        chat_message_of(a + b) == Some(chat_merge(chat_message_of(a).unwrap(), chat_message_of(b).unwrap())),
{
    let x = chat_message_of(a).unwrap();
    let e = ChatMessageView::empty();
    lemma_chat_fold_prefix(a, b, 0, e);
    lemma_chat_fold_shift(a, b, 0, x);
    assert(chat_merge(x, e) == x);
    lemma_chat_fold_from(b, 0, x, e);
}

} // verus!
