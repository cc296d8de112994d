//! The view's creation parameters, as the widget encodes them with Flutter's
//! StandardMessageCodec: a map of string keys to strings, numbers or null.
//!
//! Only the value types that map uses are decoded. Any other (a list, typed
//! data) ends the decode there, keeping the entries before it, so a newer
//! widget adding such a key after the ones this module reads never breaks it.

use vstd::prelude::*;
use vstd::string::StringExecFns;

verus! {

/// A decoded value.
#[derive(Clone, Debug, PartialEq)]
pub enum Value {
    Null,
    Bool(bool),
    Int(i64),
    /// An IEEE 754 double, by its bits.
    Double(u64),
    Text(String),
}

/// A decoded value, as plain values.
pub enum ValueModel {
    Null,
    Bool(bool),
    Int(int),
    Double(int),
    Text(Seq<char>),
}

impl View for Value {
    type V = ValueModel;

    open spec fn view(&self) -> ValueModel {
        match self {
            Value::Null => ValueModel::Null,
            Value::Bool(b) => ValueModel::Bool(*b),
            Value::Int(i) => ValueModel::Int(*i as int),
            Value::Double(bits) => ValueModel::Double(*bits as int),
            Value::Text(s) => ValueModel::Text(s@),
        }
    }
}

/// A ratio of pixels, finite and positive.
#[derive(Clone, Copy, Debug, PartialEq, Eq, Structural)]
pub enum Ratio {
    /// An IEEE 754 double, by its bits.
    Double(u64),
    Whole(i64),
}

/// The view parameters the server acts on.
#[derive(Clone, Debug, PartialEq)]
pub struct ViewParams {
    /// The activation token the launched client was given.
    pub token: Option<String>,
    /// Bind the oldest unbound toplevel with this app_id.
    pub app_id: Option<String>,
    /// Device pixel ratio of the view.
    pub dpr: Option<Ratio>,
}

impl Default for ViewParams {
    fn default() -> (params: Self)
        ensures
            params.token is None,
            params.app_id is None,
            params.dpr is None,
    {
        ViewParams { token: None, app_id: None, dpr: None }
    }
}

/// StandardMessageCodec type tags.
pub const T_NULL: u8 = 0;

pub const T_TRUE: u8 = 1;

pub const T_FALSE: u8 = 2;

pub const T_INT32: u8 = 3;

pub const T_INT64: u8 = 4;

pub const T_FLOAT64: u8 = 6;

pub const T_STRING: u8 = 7;

pub const T_MAP: u8 = 13;

/// The bits of positive infinity. As an unsigned number, the bits of every
/// finite positive double are above 0 and below it.
pub const INFINITY_BITS: u64 = 0x7ff0_0000_0000_0000;

/// The number `bytes` spell, the first lowest.
pub open spec fn little_endian(bytes: Seq<u8>) -> int
    decreases bytes.len(),
{
    if bytes.len() == 0 {
        0
    } else {
        bytes[0] + 0x100 * little_endian(bytes.drop_first())
    }
}

/// `n` of `modulus` values read as two's complement.
pub open spec fn signed(n: int, modulus: int) -> int {
    if 2 * n < modulus {
        n
    } else {
        n - modulus
    }
}

/// The first multiple of `to` from `pos` on, counted from the start of the
/// message.
pub open spec fn aligned(pos: int, to: int) -> int {
    pos + (to - pos % to) % to
}

/// The variable-length size at `pos`, and where it ends.
pub open spec fn size_at(b: Seq<u8>, pos: int) -> Option<(int, int)> {
    if pos >= b.len() {
        None
    } else if b[pos] <= 253 {
        Some((b[pos] as int, pos + 1))
    } else {
        let n: int = if b[pos] == 254 {
            2
        } else {
            4
        };
        if pos + 1 + n <= b.len() {
            Some((little_endian(b.subrange(pos + 1, pos + 1 + n)), pos + 1 + n))
        } else {
            None
        }
    }
}

/// The value at `pos`, and where it ends. None where it is cut short, or not
/// of a type that is decoded.
pub open spec fn value_at(b: Seq<u8>, pos: int) -> Option<(ValueModel, int)> {
    if pos >= b.len() {
        None
    } else if b[pos] == T_NULL {
        Some((ValueModel::Null, pos + 1))
    } else if b[pos] == T_TRUE {
        Some((ValueModel::Bool(true), pos + 1))
    } else if b[pos] == T_FALSE {
        Some((ValueModel::Bool(false), pos + 1))
    } else if b[pos] == T_INT32 {
        if pos + 5 <= b.len() {
            let n = little_endian(b.subrange(pos + 1, pos + 5));
            Some((ValueModel::Int(signed(n, 0x1_0000_0000)), pos + 5))
        } else {
            None
        }
    } else if b[pos] == T_INT64 {
        if pos + 9 <= b.len() {
            let n = little_endian(b.subrange(pos + 1, pos + 9));
            Some((ValueModel::Int(signed(n, 0x1_0000_0000_0000_0000)), pos + 9))
        } else {
            None
        }
    } else if b[pos] == T_FLOAT64 {
        let at = aligned(pos + 1, 8);
        if at + 8 <= b.len() {
            Some((ValueModel::Double(little_endian(b.subrange(at, at + 8))), at + 8))
        } else {
            None
        }
    } else if b[pos] == T_STRING {
        match size_at(b, pos + 1) {
            None => None,
            Some((n, at)) => if at + n <= b.len() && vstd::utf8::valid_utf8(
                b.subrange(at, at + n),
            ) {
                Some(
                    (ValueModel::Text(vstd::utf8::decode_utf8(b.subrange(at, at + n))), at + n),
                )
            } else {
                None
            },
        }
    } else {
        None
    }
}

/// Where reading a size at `pos` stops when it is cut short.
pub open spec fn size_stop(b: Seq<u8>, pos: int) -> int {
    if pos < b.len() {
        pos + 1
    } else {
        pos
    }
}

/// Where reading a value at `pos` stops when there is none that is decoded:
/// behind what was read of it.
pub open spec fn value_stop(b: Seq<u8>, pos: int) -> int {
    if pos >= b.len() {
        pos
    } else if b[pos] == T_FLOAT64 && aligned(pos + 1, 8) <= b.len() {
        aligned(pos + 1, 8)
    } else if b[pos] == T_STRING {
        match size_at(b, pos + 1) {
            None => size_stop(b, pos + 1),
            Some((n, at)) => if at + n <= b.len() {
                at + n
            } else {
                at
            },
        }
    } else {
        pos + 1
    }
}

/// The entry at `pos`: a text key and a value, and where it ends.
pub open spec fn entry_at(b: Seq<u8>, pos: int) -> Option<((Seq<char>, ValueModel), int)> {
    match value_at(b, pos) {
        Some((ValueModel::Text(key), at)) => match value_at(b, at) {
            Some((value, end)) => Some(((key, value), end)),
            None => None,
        },
        _ => None,
    }
}

/// Up to `n` entries from `pos` on, ending before the first that cannot be
/// decoded.
pub open spec fn entries_at(b: Seq<u8>, pos: int, n: int) -> Seq<(Seq<char>, ValueModel)>
    decreases n,
{
    if n <= 0 {
        Seq::empty()
    } else {
        match entry_at(b, pos) {
            Some((entry, end)) => seq![entry] + entries_at(b, end, n - 1),
            None => Seq::empty(),
        }
    }
}

/// The entries of the map that the message `b` is; none when it is no map.
pub open spec fn entries(b: Seq<u8>) -> Seq<(Seq<char>, ValueModel)> {
    if b.len() > 0 && b[0] == T_MAP {
        match size_at(b, 1) {
            Some((n, at)) => entries_at(b, at, n),
            None => Seq::empty(),
        }
    } else {
        Seq::empty()
    }
}

/// What `key` maps to: its last entry's value.
pub open spec fn lookup(entries: Seq<(Seq<char>, ValueModel)>, key: Seq<char>) -> Option<
    ValueModel,
>
    decreases entries.len(),
{
    if entries.len() == 0 {
        None
    } else if entries.last().0 == key {
        Some(entries.last().1)
    } else {
        lookup(entries.drop_last(), key)
    }
}

/// A non-empty text.
pub open spec fn text_of(value: Option<ValueModel>) -> Option<Seq<char>> {
    match value {
        Some(ValueModel::Text(s)) => if s.len() > 0 {
            Some(s)
        } else {
            None
        },
        _ => None,
    }
}

/// A finite, positive number.
pub open spec fn ratio_of(value: Option<ValueModel>) -> Option<Ratio> {
    match value {
        Some(ValueModel::Double(bits)) => if 0 < bits < INFINITY_BITS {
            Some(Ratio::Double(bits as u64))
        } else {
            None
        },
        Some(ValueModel::Int(i)) => if i > 0 {
            Some(Ratio::Whole(i as i64))
        } else {
            None
        },
        _ => None,
    }
}

/// Whether an optional text is `model`.
pub open spec fn is_text(text: Option<String>, model: Option<Seq<char>>) -> bool {
    match (text, model) {
        (Some(s), Some(m)) => s@ == m,
        (None, None) => true,
        _ => false,
    }
}

/// The text that `bytes` encode, when they are UTF-8: `core::str::from_utf8`
/// gives the text they decode to, and an error exactly where they are not.
#[verifier::external_body]
fn utf8_text(bytes: &[u8]) -> (text: Option<String>)
    ensures
        match text {
            Some(s) => vstd::utf8::valid_utf8(bytes@) && s@ == vstd::utf8::decode_utf8(bytes@),
            None => !vstd::utf8::valid_utf8(bytes@),
        },
{
    core::str::from_utf8(bytes).ok().map(|s| s.to_owned())
}

/// A position in a message.
pub struct Reader<'a> {
    pub bytes: &'a [u8],
    pub pos: usize,
}

impl<'a> Reader<'a> {
    pub open spec fn wf(self) -> bool {
        self.pos <= self.bytes@.len()
    }

    /// The next `n` bytes; nothing is read when there are fewer.
    pub fn take(&mut self, n: usize) -> (s: Option<&'a [u8]>)
        requires
            old(self).wf(),
        ensures
            final(self).wf(),
            final(self).bytes == old(self).bytes,
            match s {
                Some(s) => old(self).pos + n <= old(self).bytes@.len() && s@
                    == old(self).bytes@.subrange(old(self).pos as int, old(self).pos + n)
                    && final(self).pos == old(self).pos + n,
                None => old(self).pos + n > old(self).bytes@.len() && final(self).pos
                    == old(self).pos,
            },
    {
        let len: usize = self.bytes.len();
        let end: usize = match self.pos.checked_add(n) {
            Some(end) => end,
            None => {
                return None;
            },
        };
        if end > len {
            return None;
        }
        let s = vstd::slice::slice_subrange(self.bytes, self.pos, end);
        self.pos = end;
        Some(s)
    }

    /// The next byte.
    pub fn u8(&mut self) -> (b: Option<u8>)
        requires
            old(self).wf(),
        ensures
            final(self).wf(),
            final(self).bytes == old(self).bytes,
            match b {
                Some(b) => old(self).pos < old(self).bytes@.len() && b
                    == old(self).bytes@[old(self).pos as int] && final(self).pos == old(self).pos
                    + 1,
                None => old(self).pos == old(self).bytes@.len() && final(self).pos
                    == old(self).pos,
            },
    {
        match self.take(1) {
            Some(s) => Some(s[0]),
            None => None,
        }
    }

    /// The next `n` bytes as a number, the first lowest.
    fn number(&mut self, n: usize) -> (v: Option<u64>)
        requires
            old(self).wf(),
            n <= 8,
        ensures
            final(self).wf(),
            final(self).bytes == old(self).bytes,
            match v {
                Some(v) => old(self).pos + n <= old(self).bytes@.len() && v == little_endian(
                    old(self).bytes@.subrange(old(self).pos as int, old(self).pos + n),
                ) && final(self).pos == old(self).pos + n,
                None => old(self).pos + n > old(self).bytes@.len() && final(self).pos
                    == old(self).pos,
            },
    {
        let s = match self.take(n) {
            Some(s) => s,
            None => {
                return None;
            },
        };
        let mut v: u64 = 0;
        let mut i: usize = n;
        assert(s@.skip(n as int) == Seq::<u8>::empty());
        assert(below(0) == 1);
        while i > 0
            invariant
                i <= n <= 8,
                s@.len() == n,
                v == little_endian(s@.skip(i as int)),
                v < below(n - i),
            decreases i,
        {
            i -= 1;
            proof {
                assert(s@.skip(i as int).drop_first() == s@.skip(i + 1));
                assert(s@.skip(i as int)[0] == s@[i as int]);
                bounds();
                assert(below(n - i) == 0x100 * below(n - i - 1));
            }
            v = s[i] as u64 + 0x100 * v;
        }
        assert(s@.skip(0) == s@);
        Some(v)
    }

    /// The codec's variable-length size.
    pub fn size(&mut self) -> (n: Option<usize>)
        requires
            old(self).wf(),
        ensures
            final(self).wf(),
            final(self).bytes == old(self).bytes,
            match n {
                Some(n) => size_at(old(self).bytes@, old(self).pos as int) == Some(
                    (n as int, final(self).pos as int),
                ),
                None => size_at(old(self).bytes@, old(self).pos as int) is None
                    && final(self).pos == size_stop(old(self).bytes@, old(self).pos as int),
            },
    {
        let b: u8 = match self.u8() {
            Some(b) => b,
            None => {
                return None;
            },
        };
        if b <= 253 {
            return Some(b as usize);
        }
        let n: usize = if b == 254 {
            2
        } else {
            4
        };
        match self.number(n) {
            Some(v) => {
                proof {
                    little_endian_fits(self.bytes@.subrange(self.pos - n, self.pos as int));
                    bounds();
                }
                Some(v as usize)
            },
            None => None,
        }
    }

    /// Skip to the next multiple of `to`; nothing is skipped when the message
    /// ends before it.
    pub fn align(&mut self, to: usize) -> (done: Option<()>)
        requires
            old(self).wf(),
            to > 0,
        ensures
            final(self).wf(),
            final(self).bytes == old(self).bytes,
            match done {
                Some(_) => aligned(old(self).pos as int, to as int) <= old(self).bytes@.len()
                    && final(self).pos == aligned(old(self).pos as int, to as int),
                None => aligned(old(self).pos as int, to as int) > old(self).bytes@.len()
                    && final(self).pos == old(self).pos,
            },
    {
        let over: usize = self.pos % to;
        let pad: usize = (to - over) % to;
        match self.take(pad) {
            Some(_) => Some(()),
            None => None,
        }
    }

    /// The next value.
    pub fn value(&mut self) -> (v: Option<Value>)
        requires
            old(self).wf(),
        ensures
            final(self).wf(),
            final(self).bytes == old(self).bytes,
            match v {
                Some(v) => value_at(old(self).bytes@, old(self).pos as int) == Some(
                    (v@, final(self).pos as int),
                ),
                None => value_at(old(self).bytes@, old(self).pos as int) is None
                    && final(self).pos == value_stop(old(self).bytes@, old(self).pos as int),
            },
    {
        let tag: u8 = match self.u8() {
            Some(tag) => tag,
            None => {
                return None;
            },
        };
        if tag == T_NULL {
            Some(Value::Null)
        } else if tag == T_TRUE {
            Some(Value::Bool(true))
        } else if tag == T_FALSE {
            Some(Value::Bool(false))
        } else if tag == T_INT32 {
            match self.number(4) {
                Some(n) => {
                    proof {
                        little_endian_fits(self.bytes@.subrange(self.pos - 4, self.pos as int));
                        bounds();
                    }
                    let i: i64 = if n < 0x8000_0000 {
                        n as i64
                    } else {
                        n as i64 - 0x1_0000_0000
                    };
                    Some(Value::Int(i))
                },
                None => None,
            }
        } else if tag == T_INT64 {
            match self.number(8) {
                Some(n) => {
                    let i: i64 = if n < 0x8000_0000_0000_0000 {
                        n as i64
                    } else {
                        (n as i128 - 0x1_0000_0000_0000_0000) as i64
                    };
                    Some(Value::Int(i))
                },
                None => None,
            }
        } else if tag == T_FLOAT64 {
            if self.align(8).is_none() {
                return None;
            }
            match self.number(8) {
                Some(bits) => Some(Value::Double(bits)),
                None => None,
            }
        } else if tag == T_STRING {
            let n: usize = match self.size() {
                Some(n) => n,
                None => {
                    return None;
                },
            };
            match self.take(n) {
                Some(s) => match utf8_text(s) {
                    Some(text) => Some(Value::Text(text)),
                    None => None,
                },
                None => None,
            }
        } else {
            // Anything else would need its own decoder to be skipped; stop.
            None
        }
    }
}

/// 256 to the `n`th, for numbers of up to 8 bytes.
spec fn below(n: int) -> int
    decreases n,
{
    if n <= 0 {
        1
    } else {
        0x100 * below(n - 1)
    }
}

proof fn bounds()
    ensures
        below(0) == 1,
        below(1) == 0x100,
        below(2) == 0x1_0000,
        below(3) == 0x100_0000,
        below(4) == 0x1_0000_0000,
        below(5) == 0x100_0000_0000,
        below(6) == 0x1_0000_0000_0000,
        below(7) == 0x100_0000_0000_0000,
        below(8) == 0x1_0000_0000_0000_0000,
{
    reveal_with_fuel(below, 9);
}

proof fn little_endian_fits(b: Seq<u8>)
    ensures
        0 <= little_endian(b) < below(b.len() as int),
    decreases b.len(),
{
    if b.len() > 0 {
        little_endian_fits(b.drop_first());
    }
}

/// Decoded entries, in the order they came.
pub open spec fn model(entries: Seq<(String, Value)>) -> Seq<(Seq<char>, ValueModel)> {
    entries.map_values(|e: (String, Value)| (e.0@, e.1@))
}

/// Decode a top-level map with string keys. Entries are kept up to the first
/// one that cannot be decoded.
pub fn decode_map(bytes: &[u8]) -> (out: Vec<(String, Value)>)
    ensures
        model(out@) == entries(bytes@),
{
    let mut out: Vec<(String, Value)> = Vec::new();
    let mut r = Reader { bytes, pos: 0 };
    match r.u8() {
        Some(tag) => {
            if tag != T_MAP {
                return out;
            }
        },
        None => {
            return out;
        },
    }
    let n: usize = match r.size() {
        Some(n) => n,
        None => {
            return out;
        },
    };
    let ghost all = entries(bytes@);
    let mut left: usize = n;
    while left > 0
        invariant
            r.wf(),
            r.bytes@ == bytes@,
            all == entries(bytes@),
            all == model(out@) + entries_at(bytes@, r.pos as int, left as int),
        decreases left,
    {
        let ghost at = r.pos as int;
        let key = match r.value() {
            Some(Value::Text(key)) => key,
            _ => {
                assert(entry_at(bytes@, at) is None);
                assert(all == model(out@));
                return out;
            },
        };
        let value = match r.value() {
            Some(value) => value,
            None => {
                assert(entry_at(bytes@, at) is None);
                assert(all == model(out@));
                return out;
            },
        };
        let ghost before = out@;
        out.push((key, value));
        proof {
            assert(model(out@) == model(before).push((key@, value@)));
            assert(entry_at(bytes@, at) == Some(((key@, value@), r.pos as int)));
            assert(entries_at(bytes@, at, left as int) == seq![(key@, value@)] + entries_at(
                bytes@,
                r.pos as int,
                left - 1,
            ));
        }
        left -= 1;
    }
    assert(all == model(out@));
    out
}

fn find<'a>(entries: &'a Vec<(String, Value)>, key: &String) -> (value: Option<&'a Value>)
    ensures
        match value {
            Some(v) => lookup(model(entries@), key@) == Some(v@),
            None => lookup(model(entries@), key@) is None,
        },
{
    let mut i: usize = entries.len();
    assert(model(entries@).take(i as int) == model(entries@));
    while i > 0
        invariant
            i <= entries.len(),
            lookup(model(entries@), key@) == lookup(model(entries@).take(i as int), key@),
        decreases i,
    {
        i -= 1;
        proof {
            let prefix = model(entries@).take(i + 1);
            assert(prefix.drop_last() == model(entries@).take(i as int));
            assert(prefix.last() == (entries@[i as int].0@, entries@[i as int].1@));
        }
        if entries[i].0 == *key {
            return Some(&entries[i].1);
        }
    }
    None
}

fn string(entries: &Vec<(String, Value)>, key: &str) -> (text: Option<String>)
    ensures
        is_text(text, text_of(lookup(model(entries@), key@))),
{
    match find(entries, &String::from_str(key)) {
        Some(Value::Text(s)) => {
            if s.as_str().is_empty() {
                assert(s@.len() == 0);
                None
            } else {
                assert(s@.len() > 0);
                Some(s.clone())
            }
        },
        _ => None,
    }
}

impl ViewParams {
    /// The parameters in a message: those of its entries that are of the
    /// expected kind.
    pub fn decode(bytes: &[u8]) -> (params: ViewParams)
        ensures
            is_text(params.token, text_of(lookup(entries(bytes@), "token"@))),
            is_text(params.app_id, text_of(lookup(entries(bytes@), "app_id"@))),
            params.dpr == ratio_of(lookup(entries(bytes@), "dpr"@)),
    {
        let map = decode_map(bytes);
        let dpr = match find(&map, &String::from_str("dpr")) {
            Some(Value::Double(bits)) => {
                if 0 < *bits && *bits < INFINITY_BITS {
                    Some(Ratio::Double(*bits))
                } else {
                    None
                }
            },
            Some(Value::Int(i)) => {
                if *i > 0 {
                    Some(Ratio::Whole(*i))
                } else {
                    None
                }
            },
            _ => None,
        };
        ViewParams { token: string(&map, "token"), app_id: string(&map, "app_id"), dpr }
    }
}

proof fn size_of_a_cut(b: Seq<u8>, k: int, pos: int)
    requires
        0 <= k <= b.len(),
        0 <= pos,
        size_at(b.take(k), pos) is Some,
    ensures
        size_at(b, pos) == size_at(b.take(k), pos),
        pos < (size_at(b, pos)->0).1 <= k,
{
    let n: int = if b[pos] == 254 {
        2
    } else {
        4
    };
    if b[pos] > 253 {
        assert(b.take(k).subrange(pos + 1, pos + 1 + n) == b.subrange(pos + 1, pos + 1 + n));
    }
}

proof fn value_of_a_cut(b: Seq<u8>, k: int, pos: int)
    requires
        0 <= k <= b.len(),
        0 <= pos,
        value_at(b.take(k), pos) is Some,
    ensures
        value_at(b, pos) == value_at(b.take(k), pos),
        pos < (value_at(b, pos)->0).1,
{
    let c = b.take(k);
    let tag = b[pos];
    if tag == T_INT32 {
        assert(c.subrange(pos + 1, pos + 5) == b.subrange(pos + 1, pos + 5));
    } else if tag == T_INT64 {
        assert(c.subrange(pos + 1, pos + 9) == b.subrange(pos + 1, pos + 9));
    } else if tag == T_FLOAT64 {
        let at = aligned(pos + 1, 8);
        assert(c.subrange(at, at + 8) == b.subrange(at, at + 8));
    } else if tag == T_STRING {
        size_of_a_cut(b, k, pos + 1);
        let (n, at) = size_at(c, pos + 1)->0;
        size_is_natural(c, pos + 1);
        assert(c.subrange(at, at + n) == b.subrange(at, at + n));
    }
}

proof fn size_is_natural(b: Seq<u8>, pos: int)
    requires
        size_at(b, pos) is Some,
        0 <= pos,
    ensures
        (size_at(b, pos)->0).0 >= 0,
{
    if b[pos] == 254 {
        little_endian_fits(b.subrange(pos + 1, pos + 3));
    } else if b[pos] == 255 {
        little_endian_fits(b.subrange(pos + 1, pos + 5));
    }
}

proof fn entries_of_a_cut(b: Seq<u8>, k: int, pos: int, n: int)
    requires
        0 <= k <= b.len(),
        0 <= pos,
    ensures
        entries_at(b.take(k), pos, n).is_prefix_of(entries_at(b, pos, n)),
    decreases n,
{
    let c = b.take(k);
    if n > 0 && entry_at(c, pos) is Some {
        value_of_a_cut(b, k, pos);
        let at = (value_at(c, pos)->0).1;
        value_of_a_cut(b, k, at);
        let end = (value_at(c, at)->0).1;
        entries_of_a_cut(b, k, end, n - 1);
        let rest_c = entries_at(c, end, n - 1);
        let rest_b = entries_at(b, end, n - 1);
        let entry = (entry_at(c, pos)->0).0;
        assert(entries_at(c, pos, n) == seq![entry] + rest_c);
        assert(entries_at(b, pos, n) == seq![entry] + rest_b);
        assert forall|i: int| 0 <= i < (seq![entry] + rest_c).len() implies (seq![entry]
            + rest_c)[i] == (seq![entry] + rest_b)[i] by {
            if i > 0 {
                assert(rest_c[i - 1] == rest_b[i - 1]);
            }
        }
    }
}

/// A message cut short anywhere still yields its first entries, unchanged:
/// those that lie before the cut.
pub proof fn a_cut_message_keeps_its_first_entries(b: Seq<u8>, k: int)
    requires
        0 <= k <= b.len(),
    ensures
        entries(b.take(k)).is_prefix_of(entries(b)),
{
    let c = b.take(k);
    if c.len() > 0 && c[0] == T_MAP && size_at(c, 1) is Some {
        size_of_a_cut(b, k, 1);
        let (n, at) = size_at(c, 1)->0;
        entries_of_a_cut(b, k, at, n);
    }
}

/// Aligning moves on to the least multiple of `to` that is not behind: from a
/// multiple it moves nowhere.
pub proof fn aligning_moves_to_the_least_multiple(pos: int, to: int, m: int)
    requires
        0 <= pos,
        to > 0,
    ensures
        pos <= aligned(pos, to) < pos + to,
        aligned(pos, to) % to == 0,
        m % to == 0 && m >= pos ==> aligned(pos, to) <= m,
        pos % to == 0 ==> aligned(pos, to) == pos,
{
    let a = aligned(pos, to);
    let over = pos % to;
    let q = pos / to;
    vstd::arithmetic::div_mod::lemma_fundamental_div_mod(pos, to);
    vstd::arithmetic::div_mod::lemma_mod_bound(pos, to);
    if over == 0 {
        vstd::arithmetic::div_mod::lemma_mod_self_0(to);
        assert(a == pos);
    } else {
        vstd::arithmetic::div_mod::lemma_small_mod((to - over) as nat, to as nat);
        assert(a == to * q + to);
        vstd::arithmetic::mul::lemma_mul_is_distributive_add(to, q, 1);
        vstd::arithmetic::mul::lemma_mul_is_commutative(to, q + 1);
        vstd::arithmetic::div_mod::lemma_mod_multiples_basic(q + 1, to);
    }
    if m % to == 0 && m >= pos && m < a {
        vstd::arithmetic::div_mod::lemma_fundamental_div_mod(m, to);
        let k = m / to;
        assert(m == to * k);
        assert(to * q < to * k && to * k < to * (q + 1)) by {
            vstd::arithmetic::mul::lemma_mul_is_distributive_add(to, q, 1);
        }
        assert(q < k && k < q + 1) by (nonlinear_arith)
            requires
                to > 0,
                to * q < to * k,
                to * k < to * (q + 1),
        ;
    }
}

/// Whether the bytes of `b` from `at` to `end` are the size `n` as the codec
/// writes it: one byte, or a mark and two or four bytes, the first lowest.
pub open spec fn spells_size(b: Seq<u8>, at: int, n: int, end: int) -> bool {
    &&& 0 <= at < end <= b.len()
    &&& {
        ||| end == at + 1 && b[at] <= 253 && n == b[at]
        ||| end == at + 3 && b[at] == 254 && n == b[at + 1] + 0x100 * b[at + 2]
        ||| end == at + 5 && b[at] == 255 && n == b[at + 1] + 0x100 * (b[at + 2] + 0x100 * (b[at
            + 3] + 0x100 * b[at + 4]))
    }
}

/// Whether the bytes of `b` from `at` to `end` are the value `v` as the codec
/// writes it: a tag, and what the value takes. A double lies at a multiple of
/// eight bytes.
pub open spec fn spells_value(b: Seq<u8>, at: int, v: ValueModel, end: int) -> bool {
    &&& 0 <= at < end <= b.len()
    &&& match v {
        ValueModel::Null => b[at] == 0 && end == at + 1,
        ValueModel::Bool(t) => b[at] == if t {
            1int
        } else {
            2
        } && end == at + 1,
        ValueModel::Int(i) => {
            ||| {
                let n = b[at + 1] + 0x100 * (b[at + 2] + 0x100 * (b[at + 3] + 0x100 * b[at + 4]));
                &&& b[at] == 3 && end == at + 5
                &&& -0x8000_0000 <= i < 0x8000_0000
                &&& i == n || i == n - 0x1_0000_0000
            }
            ||| {
                let n = eight_bytes(b, at + 1);
                &&& b[at] == 4 && end == at + 9
                &&& -0x8000_0000_0000_0000 <= i < 0x8000_0000_0000_0000
                &&& i == n || i == n - 0x1_0000_0000_0000_0000
            }
        },
        ValueModel::Double(bits) => b[at] == 6 && end % 8 == 0 && at + 1 <= end - 8 < at + 9 && bits
            == eight_bytes(b, end - 8),
        ValueModel::Text(s) => b[at] == 7 && exists|start: int|
            #[trigger] spells_size(b, at + 1, end - start, start) && start <= end
                && vstd::utf8::valid_utf8(b.subrange(start, end)) && s == vstd::utf8::decode_utf8(
                b.subrange(start, end),
            ),
    }
}

/// The number that the eight bytes of `b` from `at` on spell, the first lowest.
pub open spec fn eight_bytes(b: Seq<u8>, at: int) -> int {
    b[at] + 0x100 * (b[at + 1] + 0x100 * (b[at + 2] + 0x100 * (b[at + 3] + 0x100 * (b[at + 4]
        + 0x100 * (b[at + 5] + 0x100 * (b[at + 6] + 0x100 * b[at + 7]))))))
}

proof fn first_byte(b: Seq<u8>, from: int, to: int)
    requires
        0 <= from < to <= b.len(),
    ensures
        little_endian(b.subrange(from, to)) == b[from] + 0x100 * little_endian(
            b.subrange(from + 1, to),
        ),
{
    assert(b.subrange(from, to).drop_first() =~= b.subrange(from + 1, to));
}

proof fn no_byte(b: Seq<u8>, at: int)
    requires
        0 <= at <= b.len(),
    ensures
        little_endian(b.subrange(at, at)) == 0,
{
}

proof fn few_bytes(b: Seq<u8>, at: int)
    requires
        0 <= at,
    ensures
        at + 2 <= b.len() ==> little_endian(b.subrange(at, at + 2)) == b[at] + 0x100 * b[at + 1],
        at + 4 <= b.len() ==> little_endian(b.subrange(at, at + 4)) == b[at] + 0x100 * (b[at + 1]
            + 0x100 * (b[at + 2] + 0x100 * b[at + 3])),
        at + 8 <= b.len() ==> little_endian(b.subrange(at, at + 8)) == eight_bytes(b, at),
{
    if at + 2 <= b.len() {
        first_byte(b, at, at + 2);
        first_byte(b, at + 1, at + 2);
        no_byte(b, at + 2);
    }
    if at + 4 <= b.len() {
        first_byte(b, at, at + 4);
        first_byte(b, at + 1, at + 4);
        first_byte(b, at + 2, at + 4);
        first_byte(b, at + 3, at + 4);
        no_byte(b, at + 4);
    }
    if at + 8 <= b.len() {
        first_byte(b, at, at + 8);
        first_byte(b, at + 1, at + 8);
        first_byte(b, at + 2, at + 8);
        first_byte(b, at + 3, at + 8);
        first_byte(b, at + 4, at + 8);
        first_byte(b, at + 5, at + 8);
        first_byte(b, at + 6, at + 8);
        first_byte(b, at + 7, at + 8);
        no_byte(b, at + 8);
    }
}

/// A size is read as it was written, and nothing else is read as one.
pub proof fn a_size_reads_as_it_was_written(b: Seq<u8>, at: int, n: int, end: int)
    requires
        0 <= at,
    ensures
        size_at(b, at) == Some((n, end)) <==> spells_size(b, at, n, end),
{
    few_bytes(b, at + 1);
}

/// A value is read as it was written, and nothing else is read as one.
pub proof fn a_value_reads_as_it_was_written(b: Seq<u8>, at: int, v: ValueModel, end: int)
    requires
        0 <= at,
    ensures
        value_at(b, at) == Some((v, end)) <==> spells_value(b, at, v, end),
{
    few_bytes(b, at + 1);
    aligning_moves_to_the_least_multiple(at + 1, 8, end - 8);
    few_bytes(b, aligned(at + 1, 8));
    if spells_value(b, at, v, end) {
        if v is Double {
            aligning_moves_to_the_least_multiple(at + 1, 8, end - 8);
            assert(aligned(at + 1, 8) == end - 8);
        }
        if v is Text {
            let s = v->Text_0;
            let start = choose|start: int|
                #[trigger] spells_size(b, at + 1, end - start, start) && start <= end
                    && vstd::utf8::valid_utf8(b.subrange(start, end)) && s
                    == vstd::utf8::decode_utf8(b.subrange(start, end));
            a_size_reads_as_it_was_written(b, at + 1, end - start, start);
        }
    }
    if value_at(b, at) == Some((v, end)) && b[at] == T_STRING {
        let (n, start) = size_at(b, at + 1)->0;
        a_size_reads_as_it_was_written(b, at + 1, n, start);
        assert(spells_size(b, at + 1, end - start, start));
    }
}

/// A map is read as it was written: a tag, how many entries there are, and each
/// entry's key and value in turn, the key of entry `i` from `ends[i]` to
/// `keys[i]` and its value from there to `ends[i + 1]`.
pub proof fn a_map_reads_as_it_was_written(
    b: Seq<u8>,
    e: Seq<(Seq<char>, ValueModel)>,
    keys: Seq<int>,
    ends: Seq<int>,
)
    requires
        keys.len() == e.len(),
        ends.len() == e.len() + 1,
        b.len() > 0,
        b[0] == 13,
        spells_size(b, 1, e.len() as int, ends[0]),
        forall|i: int|
            #![trigger e[i]]
            0 <= i < e.len() ==> spells_value(b, ends[i], ValueModel::Text(e[i].0), keys[i])
                && spells_value(b, keys[i], e[i].1, ends[i + 1]),
    ensures
        entries(b) == e,
{
    a_size_reads_as_it_was_written(b, 1, e.len() as int, ends[0]);
    entries_from(b, e, keys, ends, 0);
    assert(e.skip(0) == e);
}

proof fn entries_from(
    b: Seq<u8>,
    e: Seq<(Seq<char>, ValueModel)>,
    keys: Seq<int>,
    ends: Seq<int>,
    k: int,
)
    requires
        0 <= k <= e.len(),
        keys.len() == e.len(),
        ends.len() == e.len() + 1,
        forall|i: int|
            #![trigger e[i]]
            0 <= i < e.len() ==> spells_value(b, ends[i], ValueModel::Text(e[i].0), keys[i])
                && spells_value(b, keys[i], e[i].1, ends[i + 1]),
    ensures
        entries_at(b, ends[k], e.len() - k) == e.skip(k),
    decreases e.len() - k,
{
    if k < e.len() {
        entries_from(b, e, keys, ends, k + 1);
        let i = k;
        assert(spells_value(b, ends[i], ValueModel::Text(e[i].0), keys[i]));
        a_value_reads_as_it_was_written(b, ends[i], ValueModel::Text(e[i].0), keys[i]);
        a_value_reads_as_it_was_written(b, keys[i], e[i].1, ends[i + 1]);
        assert(e.skip(k) =~= seq![e[k]] + e.skip(k + 1));
    }
}

/// Of entries with one key the last counts.
pub proof fn the_last_entry_counts(e: Seq<(Seq<char>, ValueModel)>, key: Seq<char>, i: int)
    ensures
        0 <= i < e.len() && e[i].0 == key && (forall|j: int|
            i < j < e.len() ==> (#[trigger] e[j]).0 != key) ==> lookup(e, key) == Some(e[i].1),
        (forall|j: int| 0 <= j < e.len() ==> (#[trigger] e[j]).0 != key) ==> lookup(e, key)
            is None,
    decreases e.len(),
{
    if e.len() > 0 {
        let d = e.drop_last();
        the_last_entry_counts(d, key, i);
        if 0 <= i < e.len() && e[i].0 == key && (forall|j: int|
            i < j < e.len() ==> (#[trigger] e[j]).0 != key) {
            if i < e.len() - 1 {
                assert(e[e.len() - 1].0 != key);
                assert(d[i] == e[i]);
                assert forall|j: int| i < j < d.len() implies (#[trigger] d[j]).0 != key by {
                    assert(d[j] == e[j]);
                }
            }
        }
        if forall|j: int| 0 <= j < e.len() ==> (#[trigger] e[j]).0 != key {
            assert(e[e.len() - 1].0 != key);
            assert forall|j: int| 0 <= j < d.len() implies (#[trigger] d[j]).0 != key by {
                assert(d[j] == e[j]);
            }
        }
    }
}

/// A text counts unless it is empty, a ratio where it is a positive number:
/// a double by its bits, which for positive ones are those between zero's and
/// infinity's, or a whole number. A value of another kind counts for nothing.
pub proof fn which_values_count(s: Seq<char>, bits: u64, i: i64, t: bool)
    ensures
        text_of(Some(ValueModel::Text(s))) == if s.len() > 0 {
            Some(s)
        } else {
            None
        },
        text_of(Some(ValueModel::Int(i as int))) is None,
        text_of(None) is None,
        ratio_of(Some(ValueModel::Double(bits as int))) == if 0 < bits < 0x7ff0_0000_0000_0000 {
            Some(Ratio::Double(bits))
        } else {
            None
        },
        ratio_of(Some(ValueModel::Int(i as int))) == if i > 0 {
            Some(Ratio::Whole(i))
        } else {
            None
        },
        ratio_of(Some(ValueModel::Text(s))) is None,
        ratio_of(Some(ValueModel::Bool(t))) is None,
        ratio_of(None) is None,
{
}

/// Where a value cannot be read the reader stops behind what it took: the tag;
/// for a double that is cut short, the padding before it where there is that
/// much; for a text, its size where that can be read, and its bytes where they
/// are there and only not UTF-8.
pub proof fn where_reading_stops(b: Seq<u8>, at: int, n: int, start: int)
    requires
        0 <= at < b.len(),
    ensures
        b[at] != 6 && b[at] != 7 ==> value_stop(b, at) == at + 1,
        b[at] == 6 && start % 8 == 0 && at + 1 <= start < at + 9 ==> value_stop(b, at)
            == if start <= b.len() {
            start
        } else {
            at + 1
        },
        b[at] == 7 && spells_size(b, at + 1, n, start) ==> value_stop(b, at) == if start + n
            <= b.len() {
            start + n
        } else {
            start
        },
        b[at] == 7 && at + 1 == b.len() ==> value_stop(b, at) == at + 1,
        size_stop(b, at) == at + 1,
        size_stop(b, b.len() as int) == b.len(),
{
    aligning_moves_to_the_least_multiple(at + 1, 8, start);
    a_size_reads_as_it_was_written(b, at + 1, n, start);
    if b[at] == 6 && start % 8 == 0 && at + 1 <= start < at + 9 {
        assert(aligned(at + 1, 8) == start);
    }
}

} // verus!
