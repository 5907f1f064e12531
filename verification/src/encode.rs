//! How fields are written on the wire, and what the decoders make of fields
//! written that way: a varint, a tagged varint field and a tagged string
//! field each read back as the value written.
use vstd::prelude::*;
use vstd::utf8::*;
use crate::wire::{RECURSION_LIMIT, as_signed, eff_end, int32_of, read_value, string_of, varint32, varint64, varint_len, varint_value, Kind, Val};
use crate::messages::{kind_of, read_field, MsgType};
use crate::decode::{chat_fold, chat_message_of, class_fold, cvar_fold, item_fold, player_fold, top_limit};
use crate::concat::{chat_merge, lemma_chat_concatenation_merges};
use crate::records::{ChatMessageView, ClassRecordView, ConVarView, EconItemView, PlayerRecordView};

verus! {

/// The varint that encodes `v`: seven bits per byte, least significant
/// first, the high bit set on every byte but the last.
pub open spec fn varint_enc(v: nat) -> Seq<u8>
    decreases v,
{
    if v < 128 {
        seq![v as u8]
    } else {
        seq![(v % 128 + 128) as u8] + varint_enc(v / 128)
    }
}

/// A field with tag `tag` whose payload is the varint `v`.
pub open spec fn varint_field(tag: nat, v: nat) -> Seq<u8> {
    varint_enc(tag) + varint_enc(v)
}

/// A field with tag `tag` whose payload is the bytes `t` after their length.
pub open spec fn bytes_field(tag: nat, t: Seq<u8>) -> Seq<u8> {
    varint_enc(tag) + varint_enc(t.len()) + t
}

/// 128 to the power `k`.
pub open spec fn pow128(k: nat) -> nat
    decreases k,
{
    if k == 0 {
        1
    } else {
        128 * pow128((k - 1) as nat)
    }
}

/// A number below `128^(k-1) * c` has an encoding of at most `k` bytes,
/// and where it has `k` bytes the last is below `c`.
proof fn lemma_varint_enc_bound(v: nat, k: nat, c: nat)
    requires
        1 <= k,
        1 <= c <= 128,
        v < pow128((k - 1) as nat) * c,
    ensures
        1 <= varint_enc(v).len() <= k,
        varint_enc(v).len() == k ==> varint_enc(v)[k - 1] < c,
    decreases k,
{
    if k == 1 {
        assert(pow128(0) == 1);
        assert((k - 1) as nat == 0);
        assert(pow128((k - 1) as nat) == 1);
        let q = pow128((k - 1) as nat);
        assert(q * c == c) by (nonlinear_arith)
            requires
                q == 1,
        {
        }
        assert(v < c);
        assert(varint_enc(v) == seq![v as u8]);
        assert(varint_enc(v)[0] == v);
    } else if v >= 128 {
        let w = v / 128;
        let pk = pow128((k - 2) as nat);
        assert(pow128((k - 1) as nat) == 128 * pow128(((k - 1) as nat - 1) as nat));
        assert(((k - 1) as nat - 1) as nat == (k - 2) as nat);
        assert(w < pk * c) by (nonlinear_arith)
            requires
                v < 128 * pk * c,
                w == v / 128,
        {
        }
        lemma_varint_enc_bound(w, (k - 1) as nat, c);
        assert(varint_enc(v) == seq![(v % 128 + 128) as u8] + varint_enc(w));
        if varint_enc(v).len() == k {
            assert(varint_enc(v)[k - 1] == varint_enc(w)[k - 2]);
        }
    } else {
        assert(varint_enc(v) == seq![v as u8]);
    }
}

/// The varint that an `int32` field holds for `x`: `x` itself, or for a
/// negative `x` its 64-bit two's complement.
pub open spec fn int32_enc(x: int) -> Seq<u8> {
    varint_enc(
        if x >= 0 {
            x as nat
        } else {
            (x + 0x1_0000_0000_0000_0000) as nat
        },
    )
}

/// A field with tag `tag` whose payload is the `int32` value `x`.
pub open spec fn int32_field(tag: nat, x: int) -> Seq<u8> {
    varint_enc(tag) + int32_enc(x)
}

/// The encoding of a number below 2^32 has at most five bytes, and a fifth
/// byte is at most 15.
proof fn lemma_varint_enc_u32(v: nat)
    requires
        v < 0x1_0000_0000,
    ensures
        1 <= varint_enc(v).len() <= 5,
        varint_enc(v).len() == 5 ==> varint_enc(v)[4] <= 15,
{
    reveal_with_fuel(pow128, 5);
    lemma_varint_enc_bound(v, 5, 16);
}

/// The encoding of a number below 2^64 has at most ten bytes, and a tenth
/// byte is at most 1.
proof fn lemma_varint_enc_u64(v: nat)
    requires
        v < 0x1_0000_0000_0000_0000,
    ensures
        1 <= varint_enc(v).len() <= 10,
        varint_enc(v).len() == 10 ==> varint_enc(v)[9] <= 1,
{
    reveal_with_fuel(pow128, 10);
    lemma_varint_enc_bound(v, 10, 2);
}

/// A field of bytes below 2^32 long, with a tag below 2^32, takes at most
/// ten bytes more than its payload.
pub proof fn lemma_field_len_bounds(tag: nat, t: Seq<u8>)
    requires
        tag < 0x1_0000_0000,
        t.len() < 0x1_0000_0000,
    ensures
        bytes_field(tag, t).len() <= t.len() + 10,
        bytes_field(tag, t).len() > t.len(),
{
    lemma_varint_enc_u32(tag);
    lemma_varint_enc_u32(t.len());
}

/// An `int32` field with a tag below 2^32 takes at most fifteen bytes.
pub proof fn lemma_int32_field_len(tag: nat, x: int)
    requires
        tag < 0x1_0000_0000,
        -0x8000_0000 <= x < 0x8000_0000,
    ensures
        int32_field(tag, x).len() <= 15,
{
    lemma_varint_enc_u32(tag);
    lemma_varint_enc_u64(if x >= 0 { x as nat } else { (x + 0x1_0000_0000_0000_0000) as nat });
}

/// Every byte of an encoding but the last has its high bit set, and the
/// last has it clear.
proof fn lemma_varint_enc_bytes(v: nat)
    ensures
        varint_enc(v).len() >= 1,
        forall|k: int| 0 <= k < varint_enc(v).len() - 1 ==> #[trigger] varint_enc(v)[k] >= 0x80,
        varint_enc(v)[varint_enc(v).len() - 1] < 0x80,
    decreases v,
{
    if v >= 128 {
        lemma_varint_enc_bytes(v / 128);
        let e = varint_enc(v);
        let r = varint_enc(v / 128);
        assert forall|k: int| 0 <= k < e.len() - 1 implies #[trigger] e[k] >= 0x80 by {
            if k > 0 {
                assert(e[k] == r[k - 1]);
            }
        }
        assert(e[e.len() - 1] == r[r.len() - 1]);
    }
}

/// The bytes of `s` from `i` on start with the encoding of `v`.
pub open spec fn starts_with_at(s: Seq<u8>, i: int, e: Seq<u8>) -> bool {
    0 <= i && i + e.len() <= s.len() && forall|k: int| 0 <= k < e.len() ==> #[trigger] s[i + k] == e[k]
}

proof fn lemma_varint_len_of_enc(s: Seq<u8>, i: int, e: Seq<u8>, j: int, max: int, last_max: u8)
    requires
        e.len() >= 1,
        forall|k: int| 0 <= k < e.len() - 1 ==> #[trigger] e[k] >= 0x80,
        e[e.len() - 1] < 0x80,
        starts_with_at(s, i - j, e),
        0 <= j < e.len(),
        i - j + e.len() <= max,
        i - j + e.len() == max ==> e[e.len() - 1] <= last_max,
    ensures
        varint_len(s, i, max, last_max) == Some(i - j + e.len()),
    decreases e.len() - j,
{
    assert(s[(i - j) + j] == e[j]);
    if j < e.len() - 1 {
        lemma_varint_len_of_enc(s, i + 1, e, j + 1, max, last_max);
    }
}

proof fn lemma_varint_value_of_enc(s: Seq<u8>, v: nat)
    requires
        starts_with_at(s, 0, varint_enc(v)),
    ensures
        varint_value(s, varint_enc(v).len() as int) == v,
    decreases v,
{
    let e = varint_enc(v);
    assert(s[0int + 0int] == e[0int]);
    if v >= 128 {
        let r = varint_enc(v / 128);
        let t = s.drop_first();
        assert forall|k: int| 0 <= k < r.len() implies #[trigger] t[0int + k] == r[k] by {
            assert(s[0int + (k + 1)] == e[k + 1]);
        }
        lemma_varint_value_of_enc(t, v / 128);
        assert(s[0] % 128 == v % 128);
        assert(e.len() == 1 + r.len());
        assert(varint_value(s, e.len() as int) == (s[0] % 128) as nat + 128 * varint_value(t, r.len() as int));
        assert(v == v % 128 + 128 * (v / 128));
    } else {
        assert(s[0] % 128 == v);
        assert(varint_value(s, 1) == (s[0] % 128) as nat + 128 * varint_value(s.drop_first(), 0));
    }
}

/// A varint read at the front of bytes that start with the encoding of a
/// number below 2^32 gives that number and the encoding's length.
pub proof fn lemma_varint32_of_enc(s: Seq<u8>, v: nat)
    requires
        v < 0x1_0000_0000,
        starts_with_at(s, 0, varint_enc(v)),
    ensures
        varint32(s) == Some((v as u32, varint_enc(v).len() as int)),
{
    lemma_varint_enc_u32(v);
    lemma_varint_enc_bytes(v);
    let e = varint_enc(v);
    if e.len() == 5 {
        assert(e[e.len() - 1] == e[4]);
    }
    lemma_varint_len_of_enc(s, 0, e, 0, 5, 15);
    lemma_varint_value_of_enc(s, v);
}

/// A 64-bit varint read at the front of bytes that start with the encoding
/// of a number below 2^64 gives that number and the encoding's length.
pub proof fn lemma_varint64_of_enc(s: Seq<u8>, v: nat)
    requires
        v < 0x1_0000_0000_0000_0000,
        starts_with_at(s, 0, varint_enc(v)),
    ensures
        varint64(s) == Some((v as u64, varint_enc(v).len() as int)),
{
    lemma_varint_enc_u64(v);
    lemma_varint_enc_bytes(v);
    let e = varint_enc(v);
    if e.len() == 10 {
        assert(e[e.len() - 1] == e[9]);
    }
    lemma_varint_len_of_enc(s, 0, e, 0, 10, 1);
    lemma_varint_value_of_enc(s, v);
}

proof fn lemma_starts_with_sub(s: Seq<u8>, pos: int, end: int, f: Seq<u8>, off: int, e: Seq<u8>)
    requires
        starts_with_at(s, pos, f),
        pos + f.len() <= end <= s.len(),
        0 <= off,
        off + e.len() <= f.len(),
        forall|k: int| 0 <= k < e.len() ==> #[trigger] f[off + k] == e[k],
    ensures
        starts_with_at(s.subrange(pos + off, end), 0, e),
{
    let w = s.subrange(pos + off, end);
    assert forall|k: int| 0 <= k < e.len() implies #[trigger] w[0int + k] == e[k] by {
        assert(s[pos + (off + k)] == f[off + k]);
    }
}

/// A string field written with tag `tag` and the UTF-8 bytes `t`, in a
/// message that reads that tag as a string, is read as the text of `t`.
pub proof fn lemma_read_bytes_field(s: Seq<u8>, pos: int, limit: int, level: int, m: MsgType, tag: nat, t: Seq<u8>)
    requires
        tag < 0x1_0000_0000,
        t.len() < 0x1_0000_0000,
        kind_of(m, tag as int) == Kind::Text,
        valid_utf8(t),
        starts_with_at(s, pos, bytes_field(tag, t)),
        pos + bytes_field(tag, t).len() <= eff_end(s, limit),
    ensures
        read_field(s, pos, limit, level, m) == Some((tag as int, Val::Text(decode_utf8(t)), pos + bytes_field(tag, t).len())),
{
    let f = bytes_field(tag, t);
    let e1 = varint_enc(tag);
    let e2 = varint_enc(t.len());
    let end = eff_end(s, limit);
    assert(f == e1 + e2 + t);
    assert forall|k: int| 0 <= k < e1.len() implies #[trigger] f[0 + k] == e1[k] by {}
    lemma_starts_with_sub(s, pos, end, f, 0, e1);
    assert(s.subrange(pos + 0, end) == s.subrange(pos, end));
    lemma_varint32_of_enc(s.subrange(pos, end), tag);
    let p = pos + e1.len();
    assert forall|k: int| 0 <= k < e2.len() implies #[trigger] f[e1.len() + k] == e2[k] by {}
    lemma_starts_with_sub(s, pos, end, f, e1.len() as int, e2);
    let rest = s.subrange(p, end);
    lemma_varint32_of_enc(rest, t.len());
    let n = e2.len() as int;
    assert(rest.subrange(n, n + t.len()) =~= t) by {
        assert forall|k: int| 0 <= k < t.len() implies #[trigger] rest.subrange(n, n + t.len())[k] == t[k] by {
            assert(s[pos + (e1.len() + e2.len() + k)] == f[e1.len() + e2.len() + k]);
        }
    }
    assert(string_of(rest) == Some((decode_utf8(t), n + t.len())));
    assert(read_value(s, p, limit, level, tag as int, Kind::Text) == Some((Val::Text(decode_utf8(t)), p + n + t.len())));
}

/// A nested-message field written with tag `tag` and the bytes `t`, in a
/// message that reads that tag as a nested message, is read as the window
/// that holds `t`.
pub proof fn lemma_read_message_field(s: Seq<u8>, pos: int, limit: int, level: int, m: MsgType, tag: nat, t: Seq<u8>)
    requires
        tag < 0x1_0000_0000,
        t.len() < 0x1_0000_0000,
        kind_of(m, tag as int) == Kind::Message,
        0 <= level < RECURSION_LIMIT,
        starts_with_at(s, pos, bytes_field(tag, t)),
        pos + bytes_field(tag, t).len() <= eff_end(s, limit),
        pos + bytes_field(tag, t).len() <= limit,
    ensures
        read_field(s, pos, limit, level, m) == Some((
            tag as int,
            Val::Window(pos + bytes_field(tag, t).len() - t.len(), pos + bytes_field(tag, t).len()),
            pos + bytes_field(tag, t).len(),
        )),
        s.subrange(pos + bytes_field(tag, t).len() - t.len(), pos + bytes_field(tag, t).len()) == t,
{
    let f = bytes_field(tag, t);
    let e1 = varint_enc(tag);
    let e2 = varint_enc(t.len());
    let end = eff_end(s, limit);
    assert(f == e1 + e2 + t);
    assert forall|k: int| 0 <= k < e1.len() implies #[trigger] f[0 + k] == e1[k] by {}
    lemma_starts_with_sub(s, pos, end, f, 0, e1);
    assert(s.subrange(pos + 0, end) == s.subrange(pos, end));
    lemma_varint32_of_enc(s.subrange(pos, end), tag);
    let p = pos + e1.len();
    assert forall|k: int| 0 <= k < e2.len() implies #[trigger] f[e1.len() + k] == e2[k] by {}
    lemma_starts_with_sub(s, pos, end, f, e1.len() as int, e2);
    let rest = s.subrange(p, end);
    lemma_varint64_of_enc(rest, t.len());
    let a = p + e2.len();
    let l = a + t.len();
    assert(eff_end(s, l) == l);
    assert(read_value(s, p, limit, level, tag as int, Kind::Message) == Some((Val::Window(a, l), l)));
    assert(s.subrange(a, l) =~= t) by {
        assert forall|k: int| 0 <= k < t.len() implies #[trigger] s.subrange(a, l)[k] == t[k] by {
            assert(s[pos + (e1.len() + e2.len() + k)] == f[e1.len() + e2.len() + k]);
        }
    }
}

/// A varint field written with tag `tag` and value `v`, in a message that
/// reads that tag as a `uint64`, is read as `v`.
pub proof fn lemma_read_uint64_field(s: Seq<u8>, pos: int, limit: int, level: int, m: MsgType, tag: nat, v: nat)
    requires
        tag < 0x1_0000_0000,
        v < 0x1_0000_0000_0000_0000,
        kind_of(m, tag as int) == Kind::UInt64,
        starts_with_at(s, pos, varint_field(tag, v)),
        pos + varint_field(tag, v).len() <= eff_end(s, limit),
    ensures
        read_field(s, pos, limit, level, m) == Some((tag as int, Val::Int(v as int), pos + varint_field(tag, v).len())),
{
    let f = varint_field(tag, v);
    let e1 = varint_enc(tag);
    let e2 = varint_enc(v);
    let end = eff_end(s, limit);
    assert(f == e1 + e2);
    assert forall|k: int| 0 <= k < e1.len() implies #[trigger] f[0 + k] == e1[k] by {}
    lemma_starts_with_sub(s, pos, end, f, 0, e1);
    assert(s.subrange(pos + 0, end) == s.subrange(pos, end));
    lemma_varint32_of_enc(s.subrange(pos, end), tag);
    let p = pos + e1.len();
    assert forall|k: int| 0 <= k < e2.len() implies #[trigger] f[e1.len() + k] == e2[k] by {}
    lemma_starts_with_sub(s, pos, end, f, e1.len() as int, e2);
    lemma_varint64_of_enc(s.subrange(p, end), v);
}

/// An `int32` field written with tag `tag` and value `x`, in a message that
/// reads that tag as an `int32`, is read as `x`, negative values included.
pub proof fn lemma_read_int32_field(s: Seq<u8>, pos: int, limit: int, level: int, m: MsgType, tag: nat, x: int)
    requires
        tag < 0x1_0000_0000,
        -0x8000_0000 <= x < 0x8000_0000,
        kind_of(m, tag as int) == Kind::Int32,
        starts_with_at(s, pos, int32_field(tag, x)),
        pos + int32_field(tag, x).len() <= eff_end(s, limit),
    ensures
        read_field(s, pos, limit, level, m) == Some((tag as int, Val::Int(x), pos + int32_field(tag, x).len())),
{
    let u: nat = if x >= 0 {
        x as nat
    } else {
        (x + 0x1_0000_0000_0000_0000) as nat
    };
    let f = int32_field(tag, x);
    let e1 = varint_enc(tag);
    let e2 = varint_enc(u);
    let end = eff_end(s, limit);
    assert(f == e1 + e2);
    assert forall|k: int| 0 <= k < e1.len() implies #[trigger] f[0 + k] == e1[k] by {}
    lemma_starts_with_sub(s, pos, end, f, 0, e1);
    assert(s.subrange(pos + 0, end) == s.subrange(pos, end));
    lemma_varint32_of_enc(s.subrange(pos, end), tag);
    let p = pos + e1.len();
    assert forall|k: int| 0 <= k < e2.len() implies #[trigger] f[e1.len() + k] == e2[k] by {}
    lemma_starts_with_sub(s, pos, end, f, e1.len() as int, e2);
    let rest = s.subrange(p, end);
    lemma_varint64_of_enc(rest, u);
    assert(as_signed(u as u64) == x);
    assert(int32_of(rest) == Some((x, e2.len() as int)));
}

/// A varint field written with tag `tag` and value `v`, in a message that
/// reads that tag as a `uint32`, is read as `v`.
pub proof fn lemma_read_varint_field(s: Seq<u8>, pos: int, limit: int, level: int, m: MsgType, tag: nat, v: nat)
    requires
        tag < 0x1_0000_0000,
        v < 0x1_0000_0000,
        kind_of(m, tag as int) == Kind::UInt32,
        starts_with_at(s, pos, varint_field(tag, v)),
        pos + varint_field(tag, v).len() <= eff_end(s, limit),
    ensures
        read_field(s, pos, limit, level, m) == Some((tag as int, Val::Int(v as int), pos + varint_field(tag, v).len())),
{
    let f = varint_field(tag, v);
    let e1 = varint_enc(tag);
    let e2 = varint_enc(v);
    let end = eff_end(s, limit);
    assert(f == e1 + e2);
    assert forall|k: int| 0 <= k < e1.len() implies #[trigger] f[0 + k] == e1[k] by {}
    lemma_starts_with_sub(s, pos, end, f, 0, e1);
    assert(s.subrange(pos + 0, end) == s.subrange(pos, end));
    lemma_varint32_of_enc(s.subrange(pos, end), tag);
    let p = pos + e1.len();
    assert forall|k: int| 0 <= k < e2.len() implies #[trigger] f[e1.len() + k] == e2[k] by {}
    lemma_starts_with_sub(s, pos, end, f, e1.len() as int, e2);
    lemma_varint32_of_enc(s.subrange(p, end), v);
}

proof fn lemma_starts_with_self(s: Seq<u8>)
    ensures
        starts_with_at(s, 0, s),
{
    assert forall|k: int| 0 <= k < s.len() implies #[trigger] s[0 + k] == s[k] by {}
}

proof fn lemma_starts_with_parts(a: Seq<u8>, b: Seq<u8>)
    ensures
        starts_with_at(a + b, 0, a),
        starts_with_at(a + b, a.len() as int, b),
{
    assert forall|k: int| 0 <= k < a.len() implies #[trigger] (a + b)[0 + k] == a[k] by {}
    assert forall|k: int| 0 <= k < b.len() implies #[trigger] (a + b)[a.len() + k] == b[k] by {}
}

/// The chat line after a `CUserMessageSayText2` that holds only one
/// parameter field (tag 34, 42, 50 or 58) with the UTF-8 bytes `t`, read on
/// top of `acc`.
proof fn lemma_chat_fold_one_text(t: Seq<u8>, tag: nat, acc: ChatMessageView)
    requires
        tag == 34 || tag == 42 || tag == 50 || tag == 58,
        valid_utf8(t),
        t.len() < 0x1_0000_0000,
    ensures
        chat_fold(bytes_field(tag, t), 0, top_limit(), 0, acc) == Some(
            if tag == 34 {
                ChatMessageView { param1: Some(decode_utf8(t)), ..acc }
            } else if tag == 42 {
                ChatMessageView { param2: Some(decode_utf8(t)), ..acc }
            } else if tag == 50 {
                ChatMessageView { param3: Some(decode_utf8(t)), ..acc }
            } else {
                ChatMessageView { param4: Some(decode_utf8(t)), ..acc }
            },
        ),
{
    let f = bytes_field(tag, t);
    lemma_varint_enc_u32(tag);
    lemma_varint_enc_u32(t.len());
    lemma_starts_with_self(f);
    assert(eff_end(f, top_limit()) == f.len());
    lemma_read_bytes_field(f, 0, top_limit(), 0, MsgType::SayText2, tag, t);
    reveal_with_fuel(chat_fold, 2);
}

/// Every parameter of a chat line is the text of the last string written
/// in its field, whatever its characters: a string field 4, 5, 6 or 7
/// (tags 34, 42, 50, 58) appended to any chat message sets `param1`,
/// `param2`, `param3` or `param4` to the text of its bytes and leaves the
/// rest of the chat line as it was.
pub proof fn lemma_chat_text_field_sets_param(b: Seq<u8>, tag: nat, t: Seq<u8>)
    requires
        tag == 34 || tag == 42 || tag == 50 || tag == 58,
        valid_utf8(t),
        t.len() < 0x1_0000_0000,
        chat_message_of(b) is Some,
        b.len() + bytes_field(tag, t).len() <= top_limit(),
    ensures
        chat_message_of(bytes_field(tag, t)) is Some,
        ({
            let x = chat_message_of(b).unwrap();
            let d = decode_utf8(t);
            chat_message_of(b + bytes_field(tag, t)) == Some(
                if tag == 34 {
                    ChatMessageView { param1: Some(d), ..x }
                } else if tag == 42 {
                    ChatMessageView { param2: Some(d), ..x }
                } else if tag == 50 {
                    ChatMessageView { param3: Some(d), ..x }
                } else {
                    ChatMessageView { param4: Some(d), ..x }
                },
            )
        }),
{
    lemma_chat_fold_one_text(t, tag, ChatMessageView::empty());
    lemma_chat_concatenation_merges(b, bytes_field(tag, t));
}

/// A chat message that holds only the string `t` in field 5 gives `t`,
/// whatever its characters, as the message text `param2`, and nothing else.
pub proof fn lemma_chat_message_text(t: Seq<u8>)
    requires
        valid_utf8(t),
        t.len() < 0x1_0000_0000,
    ensures
        chat_message_of(bytes_field(42, t)) == Some(ChatMessageView { param2: Some(decode_utf8(t)), ..ChatMessageView::empty() }),
{
    lemma_chat_fold_one_text(t, 42, ChatMessageView::empty());
}

/// A console variable is read with the name and the value written in its
/// fields 1 and 2, whatever their length or characters; a value field on
/// its own replaces the value and keeps the name.
pub proof fn lemma_cvar_name_and_value(n: Seq<u8>, v: Seq<u8>, lim: int, level: int, acc: ConVarView)
    requires
        bytes_field(10, n).len() + bytes_field(18, v).len() <= lim,
        valid_utf8(n),
        valid_utf8(v),
        n.len() < 0x1_0000_0000,
        v.len() < 0x1_0000_0000,
    ensures
        cvar_fold(bytes_field(10, n) + bytes_field(18, v), 0, lim, level, ConVarView { name: None, value: None })
            == Some(ConVarView { name: Some(decode_utf8(n)), value: Some(decode_utf8(v)) }),
        cvar_fold(bytes_field(18, v), 0, lim, level, acc) == Some(ConVarView { value: Some(decode_utf8(v)), ..acc }),
{
    let f1 = bytes_field(10, n);
    let f2 = bytes_field(18, v);
    let s = f1 + f2;
    lemma_varint_enc_u32(10);
    lemma_varint_enc_u32(18);
    lemma_varint_enc_u32(n.len());
    lemma_varint_enc_u32(v.len());
    lemma_starts_with_parts(f1, f2);
    assert(eff_end(s, lim) == s.len());
    lemma_read_bytes_field(s, 0, lim, level, MsgType::CVar, 10, n);
    lemma_read_bytes_field(s, f1.len() as int, lim, level, MsgType::CVar, 18, v);
    reveal_with_fuel(cvar_fold, 3);
    lemma_starts_with_self(f2);
    assert(eff_end(f2, lim) == f2.len());
    lemma_read_bytes_field(f2, 0, lim, level, MsgType::CVar, 18, v);
}

/// A `uint32` field of an item is read as the number written, whatever its
/// size: a field 1, 3, 4, 5, 6, 7, 8, 13, 15 or 16 (account id, definition
/// index, paint index, rarity, quality, paint wear, paint seed, inventory,
/// quest id, drop reason) holding `x` sets that column to `x` and leaves the
/// rest of the item as it was.
pub proof fn lemma_item_uint32_field(tag: nat, x: nat, lim: int, level: int, acc: EconItemView)
    requires
        varint_field(tag, x).len() <= lim,
        tag == 8 || tag == 24 || tag == 32 || tag == 40 || tag == 48 || tag == 56 || tag == 64
            || tag == 104 || tag == 120 || tag == 128,
        x < 0x1_0000_0000,
    ensures
        item_fold(varint_field(tag, x), 0, lim, level, acc) == Some(
            if tag == 8 {
                EconItemView { account_id: Some(x as u32), ..acc }
            } else if tag == 24 {
                EconItemView { def_index: Some(x as u32), ..acc }
            } else if tag == 32 {
                EconItemView { paint_index: Some(x as u32), ..acc }
            } else if tag == 40 {
                EconItemView { rarity: Some(x as u32), ..acc }
            } else if tag == 48 {
                EconItemView { quality: Some(x as u32), ..acc }
            } else if tag == 56 {
                EconItemView { paint_wear: Some(x as u32), ..acc }
            } else if tag == 64 {
                EconItemView { paint_seed: Some(x as u32), ..acc }
            } else if tag == 104 {
                EconItemView { inventory: Some(x as u32), ..acc }
            } else if tag == 120 {
                EconItemView { quest_id: Some(x as u32), ..acc }
            } else {
                EconItemView { dropreason: Some(x as u32), ..acc }
            },
        ),
{
    let f = varint_field(tag, x);
    lemma_varint_enc_u32(tag);
    lemma_varint_enc_u32(x);
    lemma_starts_with_self(f);
    assert(eff_end(f, lim) == f.len());
    lemma_read_varint_field(f, 0, lim, level, MsgType::ItemPreview, tag, x);
    reveal_with_fuel(item_fold, 2);
}

/// An item's id (field 2), entity index (field 18) and custom name (field
/// 11) are read as written: each sets its column and leaves the rest.
pub proof fn lemma_item_id_entity_and_name(id: nat, e: int, name: Seq<u8>, level: int, acc: EconItemView)
    requires
        id < 0x1_0000_0000_0000_0000,
        -0x8000_0000 <= e < 0x8000_0000,
        valid_utf8(name),
        name.len() < 0x1_0000_0000,
    ensures
        item_fold(varint_field(16, id), 0, top_limit(), level, acc) == Some(EconItemView { item_id: Some(id as u64), ..acc }),
        item_fold(int32_field(144, e), 0, top_limit(), level, acc) == Some(EconItemView { ent_idx: Some(e as i32), ..acc }),
        item_fold(bytes_field(90, name), 0, top_limit(), level, acc) == Some(EconItemView { custom_name: Some(decode_utf8(name)), ..acc }),
{
    reveal_with_fuel(item_fold, 2);
    lemma_varint_enc_u32(16);
    lemma_varint_enc_u32(144);
    lemma_varint_enc_u32(90);
    lemma_varint_enc_u32(name.len());
    let f1 = varint_field(16, id);
    lemma_varint_enc_u64(id);
    lemma_starts_with_self(f1);
    assert(eff_end(f1, top_limit()) == f1.len());
    lemma_read_uint64_field(f1, 0, top_limit(), level, MsgType::ItemPreview, 16, id);
    let f2 = int32_field(144, e);
    lemma_varint_enc_u64(if e >= 0 { e as nat } else { (e + 0x1_0000_0000_0000_0000) as nat });
    lemma_starts_with_self(f2);
    assert(eff_end(f2, top_limit()) == f2.len());
    lemma_read_int32_field(f2, 0, top_limit(), level, MsgType::ItemPreview, 144, e);
    let f3 = bytes_field(90, name);
    lemma_starts_with_self(f3);
    assert(eff_end(f3, top_limit()) == f3.len());
    lemma_read_bytes_field(f3, 0, top_limit(), level, MsgType::ItemPreview, 90, name);
}

/// A chat line's sender is the entity index written in field 1, negative
/// values included: appended to any chat message, that field sets the
/// entity index and leaves the rest of the chat line as it was.
pub proof fn lemma_chat_entity_field(b: Seq<u8>, x: int)
    requires
        -0x8000_0000 <= x < 0x8000_0000,
        chat_message_of(b) is Some,
        b.len() + int32_field(8, x).len() <= top_limit(),
    ensures
        chat_message_of(int32_field(8, x)) == Some(ChatMessageView { entity_idx: Some(x as i32), ..ChatMessageView::empty() }),
        chat_message_of(b + int32_field(8, x)) == Some(ChatMessageView { entity_idx: Some(x as i32), ..chat_message_of(b).unwrap() }),
{
    let f = int32_field(8, x);
    lemma_varint_enc_u32(8);
    lemma_varint_enc_u64(if x >= 0 { x as nat } else { (x + 0x1_0000_0000_0000_0000) as nat });
    lemma_starts_with_self(f);
    assert(eff_end(f, top_limit()) == f.len());
    lemma_read_int32_field(f, 0, top_limit(), 0, MsgType::SayText2, 8, x);
    reveal_with_fuel(chat_fold, 2);
    lemma_chat_concatenation_merges(b, f);
}

/// A player at the end of a match is read with the steam id (field 2), team
/// (field 4) and name (field 3) written: each sets its part of the player
/// and leaves the rest.
pub proof fn lemma_player_fields(xuid: nat, team: int, name: Seq<u8>, level: int, acc: PlayerRecordView)
    requires
        xuid < 0x1_0000_0000_0000_0000,
        -0x8000_0000 <= team < 0x8000_0000,
        valid_utf8(name),
        name.len() < 0x1_0000_0000,
    ensures
        player_fold(varint_field(16, xuid), 0, top_limit(), level, acc) == Some(PlayerRecordView { xuid: Some(xuid as u64), ..acc }),
        player_fold(int32_field(32, team), 0, top_limit(), level, acc) == Some(PlayerRecordView { team_number: Some(team as i32), ..acc }),
        player_fold(bytes_field(26, name), 0, top_limit(), level, acc) == Some(PlayerRecordView { name: Some(decode_utf8(name)), ..acc }),
{
    reveal_with_fuel(player_fold, 2);
    lemma_varint_enc_u32(16);
    lemma_varint_enc_u32(32);
    lemma_varint_enc_u32(26);
    lemma_varint_enc_u32(name.len());
    let f1 = varint_field(16, xuid);
    lemma_varint_enc_u64(xuid);
    lemma_starts_with_self(f1);
    assert(eff_end(f1, top_limit()) == f1.len());
    lemma_read_uint64_field(f1, 0, top_limit(), level, MsgType::PlayerData, 16, xuid);
    let f2 = int32_field(32, team);
    lemma_varint_enc_u64(if team >= 0 { team as nat } else { (team + 0x1_0000_0000_0000_0000) as nat });
    lemma_starts_with_self(f2);
    assert(eff_end(f2, top_limit()) == f2.len());
    lemma_read_int32_field(f2, 0, top_limit(), level, MsgType::PlayerData, 32, team);
    let f3 = bytes_field(26, name);
    lemma_starts_with_self(f3);
    assert(eff_end(f3, top_limit()) == f3.len());
    lemma_read_bytes_field(f3, 0, top_limit(), level, MsgType::PlayerData, 26, name);
}

/// A class record is read with the class id (field 1, negative values
/// included) and the network name (field 2) written.
pub proof fn lemma_class_record_fields(id: int, name: Seq<u8>, lim: int, level: int)
    requires
        int32_field(8, id).len() + bytes_field(18, name).len() <= lim,
        -0x8000_0000 <= id < 0x8000_0000,
        valid_utf8(name),
        name.len() < 0x1_0000_0000,
    ensures
        class_fold(int32_field(8, id) + bytes_field(18, name), 0, lim, level, ClassRecordView { class_id: None, network_name: None })
            == Some(ClassRecordView { class_id: Some(id as i32), network_name: Some(decode_utf8(name)) }),
{
    let f1 = int32_field(8, id);
    let f2 = bytes_field(18, name);
    let s = f1 + f2;
    lemma_varint_enc_u32(8);
    lemma_varint_enc_u32(18);
    lemma_varint_enc_u32(name.len());
    lemma_varint_enc_u64(if id >= 0 { id as nat } else { (id + 0x1_0000_0000_0000_0000) as nat });
    lemma_starts_with_parts(f1, f2);
    assert(eff_end(s, lim) == s.len());
    lemma_read_int32_field(s, 0, lim, level, MsgType::ClassEntry, 8, id);
    lemma_read_bytes_field(s, f1.len() as int, lim, level, MsgType::ClassEntry, 18, name);
    reveal_with_fuel(class_fold, 3);
}

} // verus!
