//! Protocol-buffer wire format: varints, tags, field payloads and groups.
//!
//! Positions are absolute offsets into the whole buffer handed to the
//! decoder. A message is read inside a window that ends at its limit; a
//! top-level message has the limit `u64::MAX`, so its window ends where the
//! data ends. A payload is read from the rest of the window, as a stream
//! over those bytes would read it.
use vstd::prelude::*;
use vstd::utf8::*;

verus! {

/// Largest nesting of messages and groups that the reader accepts.
pub const RECURSION_LIMIT: u64 = 100;

/// Where a window that is limited by `limit` stops in the data `s`.
pub open spec fn eff_end(s: Seq<u8>, limit: int) -> int {
    if limit < s.len() {
        limit
    } else {
        s.len() as int
    }
}

/// Length of the varint that starts at `i` in `s` when at most `max` bytes
/// may be used and the last allowed byte may be at most `last_max`; `None`
/// when the bytes end first or the last allowed byte is too large.
pub open spec fn varint_len(s: Seq<u8>, i: int, max: int, last_max: u8) -> Option<int>
    decreases s.len() - i,
{
    if i < 0 || i >= s.len() {
        None
    } else if i == max - 1 {
        if s[i] > last_max {
            None
        } else {
            Some(i + 1)
        }
    } else if s[i] < 0x80 {
        Some(i + 1)
    } else {
        varint_len(s, i + 1, max, last_max)
    }
}

/// Value of the first `n` bytes of `s` read as a little-endian base-128 number.
pub open spec fn varint_value(s: Seq<u8>, n: int) -> nat
    decreases n,
{
    if n <= 0 || s.len() == 0 {
        0
    } else {
        (s[0] % 128) as nat + 128 * varint_value(s.drop_first(), n - 1)
    }
}

/// A 64-bit varint at the front of `s`: at most ten bytes, the tenth at
/// most 1. Its value and its length.
pub open spec fn varint64(s: Seq<u8>) -> Option<(u64, int)> {
    match varint_len(s, 0, 10, 1) {
        Some(n) => Some((varint_value(s, n) as u64, n)),
        None => None,
    }
}

/// A 32-bit varint at the front of `s`: at most five bytes, the fifth at most 15.
pub open spec fn varint32(s: Seq<u8>) -> Option<(u32, int)> {
    match varint_len(s, 0, 5, 15) {
        Some(n) => Some((varint_value(s, n) as u32, n)),
        None => None,
    }
}

/// A 64-bit varint at `pos`, read no further than `end`: value and position after it.
pub open spec fn varint64_at(s: Seq<u8>, pos: int, end: int) -> Option<(u64, int)> {
    match varint64(s.subrange(pos, end)) {
        Some((v, n)) => Some((v, pos + n)),
        None => None,
    }
}

/// A 32-bit varint at `pos`, read no further than `end`.
pub open spec fn varint32_at(s: Seq<u8>, pos: int, end: int) -> Option<(u32, int)> {
    match varint32(s.subrange(pos, end)) {
        Some((v, n)) => Some((v, pos + n)),
        None => None,
    }
}

pub proof fn lemma_varint_len_bounds(s: Seq<u8>, i: int, max: int, last_max: u8)
    ensures
        varint_len(s, i, max, last_max) matches Some(n) ==> i < n <= s.len(),
    decreases s.len() - i,
{
    if 0 <= i < s.len() && i != max - 1 && s[i] >= 0x80 {
        lemma_varint_len_bounds(s, i + 1, max, last_max);
    }
}

pub proof fn lemma_varints_bounds(s: Seq<u8>)
    ensures
        varint64(s) matches Some((v, n)) ==> 0 < n <= s.len(),
        varint32(s) matches Some((v, n)) ==> 0 < n <= s.len(),
{
    lemma_varint_len_bounds(s, 0, 10, 1);
    lemma_varint_len_bounds(s, 0, 5, 15);
}

pub proof fn lemma_varint_at_bounds(s: Seq<u8>, pos: int, end: int)
    requires
        0 <= pos <= end <= s.len(),
    ensures
        varint64_at(s, pos, end) matches Some((v, q)) ==> pos < q <= end,
        varint32_at(s, pos, end) matches Some((v, q)) ==> pos < q <= end,
{
    lemma_varints_bounds(s.subrange(pos, end));
}

/// Validity of a tag that no field of the message claims: wire type at
/// most 5 and field number not 0.
pub open spec fn tag_valid(tag: int) -> bool {
    tag % 8 <= 5 && tag / 8 != 0
}

/// `count` raw bytes at `pos` in `s`: the position after them.
pub open spec fn raw_at(s: Seq<u8>, pos: int, count: int) -> Option<int> {
    if pos + count <= s.len() {
        Some(pos + count)
    } else {
        None
    }
}

/// A payload of wire type 0, 1, 2 or 5 at `pos` in `s`: the position after it.
pub open spec fn scalar_skip(s: Seq<u8>, pos: int, wt: int) -> Option<int> {
    if wt == 0 {
        match varint64(s.subrange(pos, s.len() as int)) {
            Some((v, n)) => Some(pos + n),
            None => None,
        }
    } else if wt == 1 {
        raw_at(s, pos, 8)
    } else if wt == 2 {
        match varint32(s.subrange(pos, s.len() as int)) {
            Some((l, n)) => raw_at(s, pos + n, l as int),
            None => None,
        }
    } else if wt == 5 {
        raw_at(s, pos, 4)
    } else {
        None
    }
}

pub proof fn lemma_scalar_skip_bounds(s: Seq<u8>, pos: int, wt: int)
    requires
        0 <= pos <= s.len(),
    ensures
        scalar_skip(s, pos, wt) matches Some(q) ==> pos < q <= s.len(),
{
    lemma_varints_bounds(s.subrange(pos, s.len() as int));
}

/// The body of a group whose start tag ended just before `pos` in `s`,
/// read up to its end tag: the position after that tag. `level` is the
/// recursion level of the message that holds the group and `depth` the
/// number of groups opened inside it and not closed yet; a group nested
/// `depth + 1` deep may open only while `level + depth` is below the
/// recursion limit. An end tag closes the innermost open group whatever its
/// field number, and the bytes must not end inside the group.
pub open spec fn group_scan(s: Seq<u8>, pos: int, level: int, depth: nat) -> Option<int>
    decreases s.len() - pos,
{
    if pos < 0 || pos >= s.len() {
        None
    } else {
        match varint32(s.subrange(pos, s.len() as int)) {
            None => None,
            Some((t, n)) => {
                proof {
                    lemma_varints_bounds(s.subrange(pos, s.len() as int));
                }
                let p = pos + n;
                if !tag_valid(t as int) {
                    None
                } else if t % 8 == 4 {
                    if depth == 0 {
                        Some(p)
                    } else {
                        group_scan(s, p, level, (depth - 1) as nat)
                    }
                } else if t % 8 == 3 {
                    if level + depth >= RECURSION_LIMIT {
                        None
                    } else {
                        group_scan(s, p, level, depth + 1)
                    }
                } else {
                    match scalar_skip(s, p, (t % 8) as int) {
                        None => None,
                        Some(q) => {
                            proof {
                                lemma_scalar_skip_bounds(s, p, (t % 8) as int);
                            }
                            group_scan(s, q, level, depth)
                        },
                    }
                }
            },
        }
    }
}

pub proof fn lemma_group_scan_bounds(s: Seq<u8>, pos: int, level: int, depth: nat)
    ensures
        group_scan(s, pos, level, depth) matches Some(q) ==> pos < q <= s.len(),
    decreases s.len() - pos,
{
    if 0 <= pos < s.len() {
        lemma_varints_bounds(s.subrange(pos, s.len() as int));
        if let Some((t, n)) = varint32(s.subrange(pos, s.len() as int)) {
            let p = pos + n;
            if tag_valid(t as int) {
                if t % 8 == 4 {
                    if depth != 0 {
                        lemma_group_scan_bounds(s, p, level, (depth - 1) as nat);
                    }
                } else if t % 8 == 3 {
                    lemma_group_scan_bounds(s, p, level, depth + 1);
                } else {
                    lemma_scalar_skip_bounds(s, p, (t % 8) as int);
                    if let Some(q) = scalar_skip(s, p, (t % 8) as int) {
                        lemma_group_scan_bounds(s, q, level, depth);
                    }
                }
            }
        }
    }
}

/// A field that the message does not declare, with tag `tag`, whose payload
/// starts `s`, in a message at recursion level `level`: the length of the
/// payload. A group is skipped to its end tag.
pub open spec fn plain_skip(s: Seq<u8>, tag: int, level: int) -> Option<int> {
    if !tag_valid(tag) {
        None
    } else if tag % 8 == 3 {
        group_scan(s, 0, level, 0)
    } else {
        scalar_skip(s, 0, tag % 8)
    }
}

pub proof fn lemma_plain_skip_bounds(s: Seq<u8>, tag: int, level: int)
    ensures
        plain_skip(s, tag, level) matches Some(n) ==> 0 < n <= s.len(),
{
    lemma_group_scan_bounds(s, 0, level, 0);
    lemma_scalar_skip_bounds(s, 0, tag % 8);
}

/// A varint taken as `i64`, as `int32` fields are read.
pub open spec fn as_signed(v: u64) -> int {
    if v < 0x8000_0000_0000_0000 {
        v as int
    } else {
        v - 0x1_0000_0000_0000_0000
    }
}

/// An `int32` field's payload at the front of `s`: the value and its length.
pub open spec fn int32_of(s: Seq<u8>) -> Option<(int, int)> {
    match varint64(s) {
        Some((v, n)) => if -0x8000_0000 <= as_signed(v) < 0x8000_0000 {
            Some((as_signed(v), n))
        } else {
            None
        },
        None => None,
    }
}

/// A `string` field's payload at the front of `s`: a 32-bit length, then
/// that many bytes of valid UTF-8. The text and the payload's length.
pub open spec fn string_of(s: Seq<u8>) -> Option<(Seq<char>, int)> {
    match varint32(s) {
        Some((l, n)) => if n + l <= s.len() && valid_utf8(s.subrange(n, n + l)) {
            Some((decode_utf8(s.subrange(n, n + l)), n + l))
        } else {
            None
        },
        None => None,
    }
}

/// How the payload after a tag is read.
#[derive(PartialEq, Eq, Structural, Clone, Copy)]
pub enum Kind {
    /// A field that the message does not declare, or whose value is not kept.
    Plain,
    /// An `int32` field.
    Int32,
    /// A `uint32` field.
    UInt32,
    /// A `uint64` or `bool` field.
    UInt64,
    /// A `string` field.
    Text,
    /// A nested message.
    Message,
    /// A repeated `int32` field in packed form: a length, then that many
    /// bytes of varints.
    PackedInt32,
}

/// A field payload as the message folds see it.
pub enum Val {
    Int(int),
    Text(Seq<char>),
    /// A nested message: its start and its limit.
    Window(int, int),
    /// A packed list of `int32` values: its start and its limit.
    Packed(int, int),
    Skip,
}

/// The payload of a field with tag `tag`, read as `kind` at `pos` in a
/// message at recursion level `level` whose window is limited by `limit`:
/// the value and the position after it.
pub open spec fn read_value(s: Seq<u8>, pos: int, limit: int, level: int, tag: int, kind: Kind) -> Option<(Val, int)> {
    let rest = s.subrange(pos, eff_end(s, limit));
    match kind {
        Kind::Int32 => match int32_of(rest) {
            Some((v, n)) => Some((Val::Int(v), pos + n)),
            None => None,
        },
        Kind::UInt32 => match varint32(rest) {
            Some((v, n)) => Some((Val::Int(v as int), pos + n)),
            None => None,
        },
        Kind::UInt64 => match varint64(rest) {
            Some((v, n)) => Some((Val::Int(v as int), pos + n)),
            None => None,
        },
        Kind::Text => match string_of(rest) {
            Some((t, n)) => Some((Val::Text(t), pos + n)),
            None => None,
        },
        Kind::Message => if level >= RECURSION_LIMIT {
            None
        } else {
            match varint64(rest) {
                Some((l, n)) => if pos + n + l <= limit {
                    Some((Val::Window(pos + n, pos + n + l), eff_end(s, pos + n + l)))
                } else {
                    None
                },
                None => None,
            }
        },
        Kind::PackedInt32 => match varint64(rest) {
            Some((l, n)) => if pos + n + l <= limit {
                Some((Val::Packed(pos + n, pos + n + l), eff_end(s, pos + n + l)))
            } else {
                None
            },
            None => None,
        },
        Kind::Plain => match plain_skip(rest, tag, level) {
            Some(n) => Some((Val::Skip, pos + n)),
            None => None,
        },
    }
}

/// Whether the packed list of `int32` values at `pos`, limited by `limit`,
/// reads to its end: one `int32` payload after the other.
pub open spec fn packed_int32_ok(s: Seq<u8>, pos: int, limit: int) -> bool
    decreases eff_end(s, limit) - pos,
{
    if pos < 0 || pos >= eff_end(s, limit) {
        true
    } else {
        match int32_of(s.subrange(pos, eff_end(s, limit))) {
            Some((v, n)) => {
                proof {
                    lemma_varints_bounds(s.subrange(pos, eff_end(s, limit)));
                }
                packed_int32_ok(s, pos + n, limit)
            },
            None => false,
        }
    }
}

/// `protobuf::CodedInputStream::read_raw_varint64` on a stream over `b`:
/// the value and the number of bytes read. A varint uses at most ten bytes,
/// the tenth at most 1; one that the bytes cut off is an error.
#[verifier::external_body]
fn pb_varint64(b: &[u8]) -> (r: Option<(u64, u64)>)
    ensures
        match varint64(b@) {
            Some((v, n)) => r == Some((v, n as u64)),
            None => r is None,
        },
{
    let mut is = protobuf::CodedInputStream::from_bytes(b);
    match is.read_raw_varint64() {
        Ok(v) => Some((v, is.pos())),
        Err(_) => None,
    }
}

/// `protobuf::CodedInputStream::read_raw_varint32` on a stream over `b`:
/// at most five bytes, the fifth at most 15. `read_uint32` is this read.
#[verifier::external_body]
fn pb_varint32(b: &[u8]) -> (r: Option<(u32, u64)>)
    ensures
        match varint32(b@) {
            Some((v, n)) => r == Some((v, n as u64)),
            None => r is None,
        },
{
    let mut is = protobuf::CodedInputStream::from_bytes(b);
    match is.read_raw_varint32() {
        Ok(v) => Some((v, is.pos())),
        Err(_) => None,
    }
}

/// `protobuf::CodedInputStream::read_int32` on a stream over `b`: a 64-bit
/// varint taken as `i64`, refused outside the range of `i32`.
#[verifier::external_body]
fn pb_int32(b: &[u8]) -> (r: Option<(i32, u64)>)
    ensures
        match int32_of(b@) {
            Some((v, n)) => r == Some((v as i32, n as u64)),
            None => r is None,
        },
{
    let mut is = protobuf::CodedInputStream::from_bytes(b);
    match is.read_int32() {
        Ok(v) => Some((v, is.pos())),
        Err(_) => None,
    }
}

/// `protobuf::CodedInputStream::read_string` on a stream over `b`: a 32-bit
/// varint length, then that many bytes, which must be valid UTF-8 (as
/// `vstd::utf8::valid_utf8` states it); the text they encode.
#[verifier::external_body]
fn pb_string(b: &[u8]) -> (r: Option<(String, u64)>)
    ensures
        match string_of(b@) {
            Some((t, n)) => r matches Some((rs, rn)) && rs@ == t && rn == n as u64,
            None => r is None,
        },
{
    let mut is = protobuf::CodedInputStream::from_bytes(b);
    match is.read_string() {
        Ok(v) => Some((v, is.pos())),
        Err(_) => None,
    }
}

/// `protobuf::rt::read_unknown_or_skip_group` with tag `tag` on a stream
/// over `b` whose recursion limit is `recursion_limit`: the number of bytes
/// that the field's payload takes. The tag must have a wire type of at most
/// 5 and a field number other than 0; a group is skipped to its end tag,
/// nested groups counting against the recursion limit.
#[verifier::external_body]
fn pb_read_unknown(b: &[u8], tag: u32, recursion_limit: u32) -> (r: Option<u64>)
    requires
        recursion_limit <= RECURSION_LIMIT,
    ensures
        match plain_skip(b@, tag as int, RECURSION_LIMIT - recursion_limit) {
            Some(n) => r == Some(n as u64),
            None => r is None,
        },
{
    let mut is = protobuf::CodedInputStream::from_bytes(b);
    is.set_recursion_limit(recursion_limit);
    let mut unknown = protobuf::UnknownFields::new();
    match protobuf::rt::read_unknown_or_skip_group(tag, &mut is, &mut unknown) {
        Ok(()) => Some(is.pos()),
        Err(_) => None,
    }
}

/// Where a window limited by `limit` stops in data of length `len`.
pub fn window_end(len: usize, limit: u64) -> (r: usize)
    ensures
        r == (if (limit as int) < (len as int) { limit as int } else { len as int }),
{
    if limit < len as u64 {
        limit as usize
    } else {
        len
    }
}

/// The 32-bit varint at `pos`, read no further than `end`.
pub fn read_varint32(buf: &[u8], pos: usize, end: usize) -> (r: Option<(u32, usize)>)
    requires
        pos <= end <= buf@.len(),
    ensures
        match varint32_at(buf@, pos as int, end as int) {
            Some((v, q)) => r == Some((v, q as usize)) && pos < q <= end,
            None => r is None,
        },
{
    proof {
        lemma_varint_at_bounds(buf@, pos as int, end as int);
    }
    match pb_varint32(&buf[pos..end]) {
        Some((v, n)) => Some((v, pos + n as usize)),
        None => None,
    }
}

/// A field payload as the decoder hands it on.
pub enum FieldValue {
    Unsigned(u64),
    Signed(i32),
    Text(String),
    /// A nested message: its start and its limit.
    Window(usize, u64),
    /// A packed list of `int32` values: its start and its limit.
    Packed(usize, u64),
    Skipped,
}

impl FieldValue {
    pub open spec fn val(&self) -> Val {
        match self {
            FieldValue::Unsigned(v) => Val::Int(*v as int),
            FieldValue::Signed(v) => Val::Int(*v as int),
            FieldValue::Text(t) => Val::Text(t@),
            FieldValue::Window(a, l) => Val::Window(*a as int, *l as int),
            FieldValue::Packed(a, l) => Val::Packed(*a as int, *l as int),
            FieldValue::Skipped => Val::Skip,
        }
    }

    /// The variant that a payload read as `kind` has.
    pub open spec fn fits(&self, kind: Kind) -> bool {
        match kind {
            Kind::Int32 => self is Signed,
            Kind::UInt32 => self is Unsigned,
            Kind::UInt64 => self is Unsigned,
            Kind::Text => self is Text,
            Kind::Message => self is Window,
            Kind::PackedInt32 => self is Packed,
            Kind::Plain => self is Skipped,
        }
    }
}

/// Reads the payload of a field with tag `tag` as `kind`.
pub fn read_payload(buf: &[u8], pos: usize, limit: u64, level: u64, tag: u32, kind: Kind) -> (r: Option<(FieldValue, usize)>)
    requires
        pos <= eff_end(buf@, limit as int),
        level <= RECURSION_LIMIT,
    ensures
        match read_value(buf@, pos as int, limit as int, level as int, tag as int, kind) {
            Some((v, q)) => r matches Some((fv, rq)) && fv.val() == v && rq == q && pos <= q <= buf@.len(),
            None => r is None,
        },
        r matches Some((fv, _)) ==> fv.fits(kind),
{
    let ghost s = buf@;
    let end = window_end(buf.len(), limit);
    let rest = &buf[pos..end];
    let ghost x = rest@;
    proof {
        lemma_varints_bounds(x);
        lemma_plain_skip_bounds(x, tag as int, level as int);
    }
    match kind {
        Kind::Int32 => match pb_int32(rest) {
            Some((v, n)) => Some((FieldValue::Signed(v), pos + n as usize)),
            None => None,
        },
        Kind::UInt32 => match pb_varint32(rest) {
            Some((v, n)) => Some((FieldValue::Unsigned(v as u64), pos + n as usize)),
            None => None,
        },
        Kind::UInt64 => match pb_varint64(rest) {
            Some((v, n)) => Some((FieldValue::Unsigned(v), pos + n as usize)),
            None => None,
        },
        Kind::Text => {
            proof {
                if let Some((l, n)) = varint32(x) {
                    lemma_varints_bounds(x);
                }
            }
            match pb_string(rest) {
                Some((t, n)) => Some((FieldValue::Text(t), pos + n as usize)),
                None => None,
            }
        },
        Kind::Message => {
            if level >= RECURSION_LIMIT {
                return None;
            }
            match pb_varint64(rest) {
                Some((l, n)) => {
                    let q = pos + n as usize;
                    match (q as u64).checked_add(l) {
                        Some(sub) => {
                            if sub <= limit {
                                let next = window_end(buf.len(), sub);
                                Some((FieldValue::Window(q, sub), next))
                            } else {
                                None
                            }
                        },
                        None => None,
                    }
                },
                None => None,
            }
        },
        Kind::PackedInt32 => match pb_varint64(rest) {
            Some((l, n)) => {
                let q = pos + n as usize;
                match (q as u64).checked_add(l) {
                    Some(sub) => {
                        if sub <= limit {
                            let next = window_end(buf.len(), sub);
                            Some((FieldValue::Packed(q, sub), next))
                        } else {
                            None
                        }
                    },
                    None => None,
                }
            },
            None => None,
        },
        Kind::Plain => match pb_read_unknown(rest, tag, (RECURSION_LIMIT - level) as u32) {
            Some(n) => Some((FieldValue::Skipped, pos + n as usize)),
            None => None,
        },
    }
}

/// Checks that the packed list of `int32` values at `pos`, limited by
/// `limit`, reads to its end.
pub fn check_packed_int32(buf: &[u8], pos: usize, limit: u64) -> (r: bool)
    requires
        pos <= eff_end(buf@, limit as int),
    ensures
        r == packed_int32_ok(buf@, pos as int, limit as int),
{
    let ghost s = buf@;
    let end = window_end(buf.len(), limit);
    let mut p = pos;
    while p < end
        invariant
            s == buf@,
            end == eff_end(s, limit as int),
            pos <= p <= end,
            packed_int32_ok(s, p as int, limit as int) == packed_int32_ok(s, pos as int, limit as int),
        decreases end - p,
    {
        proof {
            lemma_varints_bounds(s.subrange(p as int, end as int));
        }
        match pb_int32(&buf[p..end]) {
            Some((_, n)) => {
                p = p + n as usize;
            },
            None => return false,
        }
    }
    true
}

} // verus!
