//! AMF0, as far as a publisher speaks it.
//!
//! A number is held as the 64 bits of its IEEE 754 form, which is also how it
//! travels.

use crate::bytes::{be16, be16_bytes, be64, be64_bytes, concat_assoc, lemma_be16_low, put};
use super::RtmpError;
use crate::text::{bytes_eq, utf8_text};
use vstd::prelude::*;
use vstd::string::*;
use vstd::utf8::{decode_utf8, encode_utf8, valid_utf8};

verus! {

broadcast use concat_assoc;

/// The bits of 0.
pub const NUMBER_0: u64 = 0;

/// The bits of 1.
pub const NUMBER_1: u64 = 0x3ff0_0000_0000_0000;

/// The bits of 2.
pub const NUMBER_2: u64 = 0x4000_0000_0000_0000;

/// The bits of 7.
pub const NUMBER_7: u64 = 0x401c_0000_0000_0000;

/// The bits of 10.
pub const NUMBER_10: u64 = 0x4024_0000_0000_0000;

/// The bits of 15.
pub const NUMBER_15: u64 = 0x402e_0000_0000_0000;

/// A decoded value.
#[derive(Debug)]
pub enum Amf0 {
    Number(u64),
    Bool(bool),
    Text(String),
    Object(Vec<(String, Amf0)>),
    Null,
}

/// A decoded value, as contracts speak of it.
pub enum AmfValue {
    Number(u64),
    Bool(bool),
    Text(Seq<char>),
    Object(Seq<(Seq<char>, AmfValue)>),
    Null,
}

impl Amf0 {
    pub open spec fn view(self) -> AmfValue
        decreases self,
    {
        match self {
            Amf0::Number(bits) => AmfValue::Number(bits),
            Amf0::Bool(b) => AmfValue::Bool(b),
            Amf0::Text(s) => AmfValue::Text(s@),
            Amf0::Object(props) => AmfValue::Object(
                Seq::new(
                    props@.len(),
                    |i: int|
                        if 0 <= i < props@.len() {
                            (props@[i].0@, props@[i].1.view())
                        } else {
                            (Seq::empty(), AmfValue::Null)
                        },
                ),
            ),
            Amf0::Null => AmfValue::Null,
        }
    }
}

/// The properties of a decoded object.
pub open spec fn props_view(props: Seq<(String, Amf0)>) -> Seq<(Seq<char>, AmfValue)> {
    Seq::new(props.len(), |i: int| (props[i].0@, props[i].1.view()))
}

/// An object's view is made of its properties' views.
proof fn lemma_object_view(props: Vec<(String, Amf0)>)
    ensures
        Amf0::Object(props).view() == AmfValue::Object(props_view(props@)),
{
    let seen = Amf0::Object(props).view();
    assert(seen->Object_0 =~= props_view(props@));
}

/// A length-prefixed text: 16 bits of length, then UTF-8.
pub open spec fn sized_text(s: Seq<char>) -> Seq<u8> {
    be16_bytes(encode_utf8(s).len() as int) + encode_utf8(s)
}

/// A string value.
pub open spec fn string_bytes(s: Seq<char>) -> Seq<u8> {
    seq![2u8] + sized_text(s)
}

/// A number value.
pub open spec fn number_bytes(bits: u64) -> Seq<u8> {
    seq![0u8] + be64_bytes(bits as int)
}

/// A boolean value.
pub open spec fn bool_bytes(b: bool) -> Seq<u8> {
    seq![
        1u8,
        if b {
            1u8
        } else {
            0u8
        },
    ]
}

/// The properties of an object, each a name and an encoded value.
pub open spec fn props_bytes(props: Seq<(Seq<char>, Seq<u8>)>) -> Seq<u8>
    decreases props.len(),
{
    if props.len() == 0 {
        Seq::empty()
    } else {
        props_bytes(props.drop_last()) + (sized_text(props.last().0) + props.last().1)
    }
}

/// Names and encoded values, as contracts speak of them.
pub open spec fn encoded_props(props: Seq<(&str, Vec<u8>)>) -> Seq<(Seq<char>, Seq<u8>)> {
    Seq::new(props.len(), |i: int| (props[i].0@, props[i].1@))
}

/// An object value: its properties, an empty name, and the end mark.
pub open spec fn object_bytes(props: Seq<(Seq<char>, Seq<u8>)>) -> Seq<u8> {
    seq![3u8] + props_bytes(props) + seq![0u8, 0u8, 9u8]
}

/// A command: its name, its transaction number, and its arguments.
pub open spec fn invoke_bytes(name: Seq<char>, trans: u64, props: Seq<u8>, args: Seq<u8>) -> Seq<
    u8,
> {
    string_bytes(name) + number_bytes(trans) + props + args
}

fn put_sized_text(out: &mut Vec<u8>, s: &str)
    ensures
        final(out)@ == old(out)@ + sized_text(s@),
{
    let bytes: &[u8] = s.as_bytes();
    proof {
        lemma_be16_low(bytes@.len() as int);
    }
    be16(out, (bytes.len() as u64 % 0x1_0000) as u16);
    put(out, bytes);
}

/// Encode a string. Only the low 16 bits of its length are held.
pub fn amf0_string(s: &str) -> (out: Vec<u8>)
    ensures
        out@ == string_bytes(s@),
{
    let mut out: Vec<u8> = vec![2];
    put_sized_text(&mut out, s);
    assert(out@ =~= string_bytes(s@));
    out
}

/// Encode the number with these bits.
pub fn amf0_number(bits: u64) -> (out: Vec<u8>)
    ensures
        out@ == number_bytes(bits),
{
    let mut out: Vec<u8> = vec![0];
    be64(&mut out, bits);
    assert(out@ =~= number_bytes(bits));
    out
}

/// Encode a boolean.
pub fn amf0_bool(b: bool) -> (out: Vec<u8>)
    ensures
        out@ == bool_bytes(b),
{
    let out: Vec<u8> = vec![
        1,
        if b {
            1
        } else {
            0
        },
    ];
    assert(out@ =~= bool_bytes(b));
    out
}

/// Encode the null value.
pub fn amf0_null() -> (out: Vec<u8>)
    ensures
        out@ == seq![5u8],
{
    let out: Vec<u8> = vec![5];
    assert(out@ =~= seq![5u8]);
    out
}

/// Encode an object from its names and encoded values.
pub fn amf0_object(props: &[(&str, Vec<u8>)]) -> (out: Vec<u8>)
    ensures
        out@ == object_bytes(encoded_props(props@)),
{
    let ghost all = encoded_props(props@);
    let mut out: Vec<u8> = vec![3];
    let mut i: usize = 0;
    assert(out@ =~= seq![3u8] + props_bytes(all.take(0)));
    while i < props.len()
        invariant
            i <= props@.len(),
            all == encoded_props(props@),
            out@ == seq![3u8] + props_bytes(all.take(i as int)),
        decreases props@.len() - i,
    {
        put_sized_text(&mut out, props[i].0);
        put(&mut out, props[i].1.as_slice());
        i = i + 1;
        proof {
            let t = all.take(i as int);
            assert(t.drop_last() =~= all.take(i - 1));
            assert(t.last() == (props@[i - 1].0@, props@[i - 1].1@));
        }
    }
    assert(all.take(i as int) =~= all);
    put(&mut out, &[0, 0, 9]);
    assert(out@ =~= object_bytes(all));
    out
}

/// Encode a command.
pub fn amf0_invoke(name: &str, trans: u64, props: &[u8], args: &[u8]) -> (out: Vec<u8>)
    ensures
        out@ == invoke_bytes(name@, trans, props@, args@),
{
    let mut out: Vec<u8> = amf0_string(name);
    let number: Vec<u8> = amf0_number(trans);
    put(&mut out, number.as_slice());
    put(&mut out, props);
    put(&mut out, args);
    out
}

/// The unsigned number that the bytes `from..from + n` stand for, most
/// significant byte first.
pub open spec fn uint_at(buf: Seq<u8>, from: int, n: nat) -> nat {
    crate::bytes::be_value(buf.subrange(from, from + n))
}

/// The lower-case hexadecimal digit `d`.
pub open spec fn hex_digit(d: int) -> char {
    if d < 10 {
        ('0' as int + d) as char
    } else {
        ('a' as int + d - 10) as char
    }
}

/// A byte in hexadecimal, `0x` first, without leading zeros.
pub open spec fn hex_byte(b: u8) -> Seq<char> {
    if b < 16 {
        seq!['0', 'x', hex_digit(b as int)]
    } else {
        seq!['0', 'x', hex_digit(b as int / 16), hex_digit(b as int % 16)]
    }
}

/// What decoding at `pos` gives: the value and where it ends, or why there is
/// none.
pub open spec fn decoded(buf: Seq<u8>, pos: int) -> Result<(AmfValue, int), Seq<char>>
    decreases buf.len() - pos, 1nat,
{
    if pos < 0 || pos >= buf.len() {
        Err("amf0: truncated type"@)
    } else {
        let t = buf[pos];
        let at = pos + 1;
        let left = buf.len() - at;
        if t == 0 {
            if left < 8 {
                Err("amf0: truncated number"@)
            } else {
                Ok((AmfValue::Number(uint_at(buf, at, 8) as u64), at + 8))
            }
        } else if t == 1 {
            if left < 1 {
                Err("amf0: truncated bool"@)
            } else {
                Ok((AmfValue::Bool(buf[at] != 0), at + 1))
            }
        } else if t == 2 {
            if left < 2 {
                Err("amf0: truncated str len"@)
            } else {
                decoded_text(buf, at + 2, uint_at(buf, at, 2) as int, "amf0: truncated str"@,
                    "amf0: str utf8"@)
            }
        } else if t == 3 {
            match decoded_props(buf, at, false) {
                Err(e) => Err(e),
                Ok((props, end)) => Ok((AmfValue::Object(props), end)),
            }
        } else if t == 5 || t == 6 {
            Ok((AmfValue::Null, at))
        } else if t == 8 {
            if left < 4 {
                Err("amf0: truncated ecma count"@)
            } else {
                match decoded_props(buf, at + 4, true) {
                    Err(e) => Err(e),
                    Ok((props, end)) => Ok((AmfValue::Object(props), end)),
                }
            }
        } else if t == 12 {
            if left < 4 {
                Err("amf0: truncated longstr len"@)
            } else {
                decoded_text(buf, at + 4, uint_at(buf, at, 4) as int, "amf0: truncated longstr"@,
                    "amf0: longstr utf8"@)
            }
        } else {
            Err("amf0: unsupported type "@ + hex_byte(t))
        }
    }
}

/// The text of `n` bytes at `at`, or the refusal for too few bytes or for
/// bytes that are not UTF-8.
pub open spec fn decoded_text(
    buf: Seq<u8>,
    at: int,
    n: int,
    truncated: Seq<char>,
    not_utf8: Seq<char>,
) -> Result<(AmfValue, int), Seq<char>> {
    if buf.len() - at < n {
        Err(truncated)
    } else if !valid_utf8(buf.subrange(at, at + n)) {
        Err(not_utf8)
    } else {
        Ok((AmfValue::Text(decode_utf8(buf.subrange(at, at + n))), at + n))
    }
}

/// The properties from `pos` to the end mark. An ECMA array differs from an
/// object in its messages only.
pub open spec fn decoded_props(buf: Seq<u8>, pos: int, ecma: bool) -> Result<
    (Seq<(Seq<char>, AmfValue)>, int),
    Seq<char>,
>
    decreases buf.len() - pos, 0nat,
{
    if buf.len() - pos < 2 {
        Err(
            if ecma {
                "amf0: truncated ecma key len"@
            } else {
                "amf0: truncated obj key len"@
            },
        )
    } else {
        let n = uint_at(buf, pos, 2) as int;
        let at = pos + 2;
        if n == 0 {
            if at >= buf.len() {
                Err(
                    if ecma {
                        "amf0: truncated ecma end"@
                    } else {
                        "amf0: truncated obj end"@
                    },
                )
            } else if buf[at] != 9 {
                Err(
                    if ecma {
                        "amf0: bad ecma end"@
                    } else {
                        "amf0: bad object end"@
                    },
                )
            } else {
                Ok((Seq::empty(), at + 1))
            }
        } else {
            match decoded_text(buf, at, n, "amf0: truncated key"@, "amf0: key utf8"@) {
                Err(e) => Err(e),
                Ok((key, after_key)) => {
                    if after_key <= pos || after_key > buf.len() {
                        Err("amf0: truncated key"@)
                    } else {
                        match decoded(buf, after_key) {
                            Err(e) => Err(e),
                            Ok((v, end)) => {
                                if end <= after_key || end > buf.len() {
                                    Err("amf0: truncated key"@)
                                } else {
                                    match decoded_props(buf, end, ecma) {
                                        Err(e) => Err(e),
                                        Ok((rest, last)) => Ok(
                                            (seq![(key->Text_0, v)] + rest, last),
                                        ),
                                    }
                                }
                            },
                        }
                    }
                },
            }
        }
    }
}

/// Decoding moves forward and stays within the bytes.
pub proof fn lemma_decoded_advances(buf: Seq<u8>, pos: int)
    requires
        0 <= pos,
    ensures
        decoded(buf, pos) matches Ok(d) ==> pos < d.1 <= buf.len(),
    decreases buf.len() - pos, 1nat,
{
    if pos < buf.len() {
        let at = pos + 1;
        if buf[pos] == 3 {
            lemma_props_advance(buf, at, false);
        }
        if buf[pos] == 8 && buf.len() - at >= 4 {
            lemma_props_advance(buf, at + 4, true);
        }
    }
}

/// Decoding properties moves forward and stays within the bytes.
pub proof fn lemma_props_advance(buf: Seq<u8>, pos: int, ecma: bool)
    requires
        0 <= pos,
    ensures
        decoded_props(buf, pos, ecma) matches Ok(d) ==> pos < d.1 <= buf.len(),
    decreases buf.len() - pos, 0nat,
{
    if buf.len() - pos >= 2 {
        let n = uint_at(buf, pos, 2) as int;
        let at = pos + 2;
        if n > 0 && buf.len() - at >= n {
            lemma_decoded_advances(buf, at + n);
            match decoded(buf, at + n) {
                Ok((v, end)) => {
                    lemma_props_advance(buf, end, ecma);
                },
                Err(_) => {},
            }
        }
    }
}

/// The number that `n` bytes at `from` stand for.
fn read_uint(buf: &[u8], from: usize, n: usize) -> (v: u64)
    requires
        n <= 8,
        from + n <= buf@.len(),
    ensures
        v == uint_at(buf@, from as int, n as nat),
        n <= 2 ==> v < 0x1_0000,
        n <= 4 ==> v < 0x1_0000_0000,
{
    let ghost all = buf@.subrange(from as int, from + n);
    let mut v: u64 = 0;
    let mut i: usize = 0;
    let mut limit: u128 = 1;
    let len: usize = buf.len();
    while i < n
        invariant
            i <= n <= 8,
            from + n <= len == buf@.len(),
            all == buf@.subrange(from as int, from + n),
            v == crate::bytes::be_value(all.take(i as int)),
            v < limit,
            limit == pow256(i as nat),
        decreases n - i,
    {
        proof {
            lemma_pow256(i as nat);
            let t = all.take(i + 1);
            assert(t.drop_last() =~= all.take(i as int));
            assert(t.last() == buf@[from + i]);
        }
        v = v * 0x100 + buf[from + i] as u64;
        limit = limit * 0x100;
        i = i + 1;
    }
    proof {
        assert(all.take(n as int) =~= all);
        lemma_pow256(n as nat);
    }
    v
}

/// 256 to the power of `n`, up to the eighth.
spec fn pow256(n: nat) -> int {
    if n == 0 {
        1
    } else if n == 1 {
        0x100
    } else if n == 2 {
        0x1_0000
    } else if n == 3 {
        0x100_0000
    } else if n == 4 {
        0x1_0000_0000
    } else if n == 5 {
        0x100_0000_0000
    } else if n == 6 {
        0x1_0000_0000_0000
    } else if n == 7 {
        0x100_0000_0000_0000
    } else {
        0x1_0000_0000_0000_0000
    }
}

proof fn lemma_pow256(n: nat)
    ensures
        n < 8 ==> pow256(n) <= 0x100_0000_0000_0000 && pow256((n + 1) as nat)
            == pow256(n) * 0x100,
        n <= 2 ==> pow256(n) <= 0x1_0000,
        n <= 4 ==> pow256(n) <= 0x1_0000_0000,
        pow256(n) <= 0x1_0000_0000_0000_0000,
{
}

fn hex(d: u8) -> (c: char)
    requires
        d < 16,
    ensures
        c == hex_digit(d as int),
{
    if d < 10 {
        (48 + d) as char
    } else {
        (87 + d) as char
    }
}

fn unsupported(t: u8) -> (s: String)
    ensures
        s@ == "amf0: unsupported type "@ + hex_byte(t),
{
    let mut s: String = "amf0: unsupported type ".to_owned();
    let ghost head = s@;
    s.push('0');
    s.push('x');
    if t >= 16 {
        s.push(hex(t / 16));
    }
    s.push(hex(t % 16));
    assert(s@ =~= head + hex_byte(t));
    s
}

/// Whether an outcome is the one the contract names.
pub open spec fn decode_matches(
    r: Result<(Amf0, usize), String>,
    expected: Result<(AmfValue, int), Seq<char>>,
) -> bool {
    match (r, expected) {
        (Ok(got), Ok(want)) => got.0.view() == want.0 && got.1 == want.1,
        (Err(e), Err(why)) => e@ == why,
        _ => false,
    }
}

fn decode_text(buf: &[u8], at: usize, n: usize, truncated: &str, not_utf8: &str) -> (r: Result<
    (String, usize),
    String,
>)
    requires
        at <= buf@.len(),
    ensures
        match (r, decoded_text(buf@, at as int, n as int, truncated@, not_utf8@)) {
            (Ok(got), Ok(want)) => AmfValue::Text(got.0@) == want.0 && got.1 == want.1 && got.1
                <= buf@.len(),
            (Err(e), Err(why)) => e@ == why,
            _ => false,
        },
{
    if buf.len() - at < n {
        return Err(truncated.to_owned());
    }
    let bytes: &[u8] = vstd::slice::slice_subrange(buf, at, at + n);
    match utf8_text(bytes) {
        Some(s) => Ok((s, at + n)),
        None => Err(not_utf8.to_owned()),
    }
}

/// Decode the properties from `pos` to the end mark.
fn decode_props(buf: &[u8], pos: usize, ecma: bool) -> (r: Result<
    (Vec<(String, Amf0)>, usize),
    String,
>)
    requires
        pos <= buf@.len(),
    ensures
        match (r, decoded_props(buf@, pos as int, ecma)) {
            (Ok(got), Ok(want)) => props_view(got.0@) == want.0 && got.1 == want.1 && got.1
                <= buf@.len(),
            (Err(e), Err(why)) => e@ == why,
            _ => false,
        },
    decreases buf@.len() - pos, 0nat,
{
    let mut props: Vec<(String, Amf0)> = Vec::new();
    let mut at: usize = pos;
    assert(props_view(props@) =~= Seq::empty());
    loop
        invariant
            pos <= at <= buf@.len(),
            match decoded_props(buf@, at as int, ecma) {
                Ok(rest) => decoded_props(buf@, pos as int, ecma) == Ok::<
                    (Seq<(Seq<char>, AmfValue)>, int),
                    Seq<char>,
                >((props_view(props@) + rest.0, rest.1)),
                Err(e) => decoded_props(buf@, pos as int, ecma) == Err::<
                    (Seq<(Seq<char>, AmfValue)>, int),
                    Seq<char>,
                >(e),
            },
        decreases buf@.len() - at,
    {
        if buf.len() - at < 2 {
            return Err(
                if ecma {
                    "amf0: truncated ecma key len".to_owned()
                } else {
                    "amf0: truncated obj key len".to_owned()
                },
            );
        }
        let n: usize = read_uint(buf, at, 2) as usize;
        let key_at: usize = at + 2;
        if n == 0 {
            if key_at >= buf.len() {
                return Err(
                    if ecma {
                        "amf0: truncated ecma end".to_owned()
                    } else {
                        "amf0: truncated obj end".to_owned()
                    },
                );
            }
            if buf[key_at] != 9 {
                return Err(
                    if ecma {
                        "amf0: bad ecma end".to_owned()
                    } else {
                        "amf0: bad object end".to_owned()
                    },
                );
            }
            assert(props_view(props@) + Seq::<(Seq<char>, AmfValue)>::empty() =~= props_view(props@));
            return Ok((props, key_at + 1));
        }
        let (key, value_at): (String, usize) = match decode_text(
            buf,
            key_at,
            n,
            "amf0: truncated key",
            "amf0: key utf8",
        ) {
            Ok(k) => k,
            Err(e) => return Err(e),
        };
        proof {
            lemma_decoded_advances(buf@, value_at as int);
        }
        let (value, next): (Amf0, usize) = match amf0_decode(buf, value_at) {
            Ok(v) => v,
            Err(e) => return Err(e),
        };
        let ghost before = props_view(props@);
        let ghost item = (key@, value.view());
        props.push((key, value));
        proof {
            assert(props_view(props@) =~= before.push(item));
            match decoded_props(buf@, next as int, ecma) {
                Ok(rest) => {
                    assert(before + (seq![item] + rest.0) =~= props_view(props@) + rest.0);
                },
                Err(_) => {},
            }
        }
        at = next;
    }
}

/// Decode one value at `pos`: the value and where it ends.
pub fn amf0_decode(buf: &[u8], pos: usize) -> (r: Result<(Amf0, usize), String>)
    ensures
        decode_matches(r, decoded(buf@, pos as int)),
        r matches Ok(d) ==> pos < d.1 <= buf@.len(),
    decreases buf@.len() - pos, 1nat,
{
    proof {
        lemma_decoded_advances(buf@, pos as int);
    }
    if pos >= buf.len() {
        return Err("amf0: truncated type".to_owned());
    }
    let t: u8 = buf[pos];
    let at: usize = pos + 1;
    let left: usize = buf.len() - at;
    if t == 0 {
        if left < 8 {
            return Err("amf0: truncated number".to_owned());
        }
        Ok((Amf0::Number(read_uint(buf, at, 8)), at + 8))
    } else if t == 1 {
        if left < 1 {
            return Err("amf0: truncated bool".to_owned());
        }
        Ok((Amf0::Bool(buf[at] != 0), at + 1))
    } else if t == 2 {
        if left < 2 {
            return Err("amf0: truncated str len".to_owned());
        }
        let n: usize = read_uint(buf, at, 2) as usize;
        match decode_text(buf, at + 2, n, "amf0: truncated str", "amf0: str utf8") {
            Ok((s, end)) => Ok((Amf0::Text(s), end)),
            Err(e) => Err(e),
        }
    } else if t == 3 {
        match decode_props(buf, at, false) {
            Ok((props, end)) => {
                proof {
                    lemma_object_view(props);
                }
                Ok((Amf0::Object(props), end))
            },
            Err(e) => Err(e),
        }
    } else if t == 5 || t == 6 {
        Ok((Amf0::Null, at))
    } else if t == 8 {
        if left < 4 {
            return Err("amf0: truncated ecma count".to_owned());
        }
        match decode_props(buf, at + 4, true) {
            Ok((props, end)) => {
                proof {
                    lemma_object_view(props);
                }
                Ok((Amf0::Object(props), end))
            },
            Err(e) => Err(e),
        }
    } else if t == 12 {
        if left < 4 {
            return Err("amf0: truncated longstr len".to_owned());
        }
        let n: usize = read_uint(buf, at, 4) as usize;
        match decode_text(buf, at + 4, n, "amf0: truncated longstr", "amf0: longstr utf8") {
            Ok((s, end)) => Ok((Amf0::Text(s), end)),
            Err(e) => Err(e),
        }
    } else {
        Err(unsupported(t))
    }
}

/// The name and the transaction number of a command, or why there are none.
pub open spec fn command_of(payload: Seq<u8>) -> Result<(Seq<char>, u64), Seq<char>> {
    match decoded(payload, 0) {
        Err(e) => Err("amf0 name: "@ + e),
        Ok((AmfValue::Text(name), pos)) => match decoded(payload, pos) {
            Err(e) => Err("amf0 trans: "@ + e),
            Ok((AmfValue::Number(bits), end)) => Ok((name, bits)),
            Ok(other) => Err("amf0: trans not a number"@),
        },
        Ok(other) => Err("amf0: command name not a string"@),
    }
}

/// Read the name and the transaction number of a command.
pub fn amf0_command_name_trans(payload: &[u8]) -> (r: Result<(String, u64), RtmpError>)
    ensures
        match (r, command_of(payload@)) {
            (Ok(got), Ok(want)) => got.0@ == want.0 && got.1 == want.1,
            (Err(RtmpError::Protocol(e)), Err(why)) => e@ == why,
            _ => false,
        },
{
    let (name, pos): (String, usize) = match amf0_decode(payload, 0) {
        Ok((Amf0::Text(name), pos)) => (name, pos),
        Ok(_) => return Err(
            RtmpError::Protocol("amf0: command name not a string".to_owned()),
        ),
        Err(e) => return Err(RtmpError::Protocol("amf0 name: ".to_owned().concat(e.as_str()))),
    };
    match amf0_decode(payload, pos) {
        Ok((Amf0::Number(bits), _)) => Ok((name, bits)),
        Ok(_) => Err(RtmpError::Protocol("amf0: trans not a number".to_owned())),
        Err(e) => Err(RtmpError::Protocol("amf0 trans: ".to_owned().concat(e.as_str()))),
    }
}

/// Whether the number with these bits is within a millionth of `1`.
pub open spec fn near_one(bits: u64) -> bool {
    0x3fef_fffd_e721_0bea <= bits <= 0x3ff0_0001_0c6f_7a0b
}

/// Whether the number with these bits is within a millionth of `2`.
pub open spec fn near_two(bits: u64) -> bool {
    0x3fff_fffe_f390_85f5 <= bits <= 0x4000_0000_8637_bd05
}

/// `m` halved `k` times, fractions dropped.
pub open spec fn halved(m: int, k: int) -> int
    decreases k,
{
    if k <= 0 {
        m
    } else {
        halved(m / 2, k - 1)
    }
}

/// The number with these bits as an unsigned 32-bit integer: fractions are
/// dropped, what is negative or not a number is zero, what is too large is
/// the largest.
pub open spec fn number_to_u32(bits: u64) -> u32 {
    let sign = bits / 0x8000_0000_0000_0000;
    let exponent = (bits / 0x10_0000_0000_0000) % 0x800;
    let fraction = bits % 0x10_0000_0000_0000;
    if sign == 1 || exponent < 1023 || (exponent == 2047 && fraction != 0) {
        0
    } else if exponent >= 1055 {
        0xffff_ffff
    } else {
        halved(0x10_0000_0000_0000 + fraction, 1075 - exponent) as u32
    }
}

/// A number of 53 bits halved at least 21 times fits in 32 bits.
proof fn lemma_halved_bound(m: int, k: int, limit: int)
    requires
        0 <= m < limit,
        k >= 0,
    ensures
        0 <= halved(m, k) <= m,
        k >= 21 && limit <= 0x20_0000_0000_0000 ==> halved(m, k) <= 0xffff_ffff,
    decreases k,
{
    if k > 0 {
        lemma_halved_bound(m / 2, k - 1, limit);
        if k >= 21 && limit <= 0x20_0000_0000_0000 {
            reveal_with_fuel(halved, 22);
            let t = m / 2 / 2 / 2 / 2 / 2 / 2 / 2 / 2 / 2 / 2 / 2 / 2 / 2 / 2 / 2 / 2 / 2 / 2 / 2 / 2
                / 2;
            assert(t <= 0xffff_ffff);
            assert(halved(m, k) == halved(t, k - 21));
            lemma_halved_small(t, k - 21);
        }
    }
}

proof fn lemma_halved_small(m: int, k: int)
    requires
        0 <= m,
        k >= 0,
    ensures
        0 <= halved(m, k) <= m,
    decreases k,
{
    if k > 0 {
        lemma_halved_small(m / 2, k - 1);
    }
}

/// The number with these bits as an unsigned 32-bit integer.
pub fn truncate_number(bits: u64) -> (r: u32)
    ensures
        r == number_to_u32(bits),
{
    let sign: u64 = bits / 0x8000_0000_0000_0000;
    let exponent: u64 = (bits / 0x10_0000_0000_0000) % 0x800;
    let fraction: u64 = bits % 0x10_0000_0000_0000;
    if sign == 1 || exponent < 1023 || (exponent == 2047 && fraction != 0) {
        return 0;
    }
    if exponent >= 1055 {
        return 0xffff_ffff;
    }
    let mut m: u64 = 0x10_0000_0000_0000 + fraction;
    let mut k: u64 = 1075 - exponent;
    proof {
        lemma_halved_bound(m as int, k as int, 0x20_0000_0000_0000);
    }
    let ghost goal = halved(m as int, k as int);
    while k > 0
        invariant
            halved(m as int, k as int) == goal,
        decreases k,
    {
        m = m / 2;
        k = k - 1;
    }
    m as u32
}

/// The stream a reply to `createStream` names: its fourth value, when that is
/// a number.
pub open spec fn created_stream(payload: Seq<u8>) -> Option<u32> {
    match decoded(payload, 0) {
        Err(_) => None,
        Ok((_, a)) => match decoded(payload, a) {
            Err(_) => None,
            Ok((_, b)) => match decoded(payload, b) {
                Err(_) => None,
                Ok((_, c)) => match decoded(payload, c) {
                    Ok((AmfValue::Number(bits), _)) => Some(number_to_u32(bits)),
                    _ => None,
                },
            },
        },
    }
}

/// Read the stream a reply to `createStream` names.
pub fn amf0_create_stream_id(payload: &[u8]) -> (r: Option<u32>)
    ensures
        r == created_stream(payload@),
{
    let a: usize = match amf0_decode(payload, 0) {
        Ok((_, a)) => a,
        Err(_) => return None,
    };
    let b: usize = match amf0_decode(payload, a) {
        Ok((_, b)) => b,
        Err(_) => return None,
    };
    let c: usize = match amf0_decode(payload, b) {
        Ok((_, c)) => c,
        Err(_) => return None,
    };
    match amf0_decode(payload, c) {
        Ok((Amf0::Number(bits), _)) => Some(truncate_number(bits)),
        _ => None,
    }
}

/// Whether `needle` stands somewhere in `payload`.
pub open spec fn contains_bytes(payload: Seq<u8>, needle: Seq<u8>) -> bool {
    exists|i: int|
        0 <= i && i + needle.len() <= payload.len() && #[trigger] payload.subrange(
            i,
            i + needle.len(),
        ) == needle
}

/// Whether a text stands somewhere in `payload`.
pub fn amf0_payload_contains(payload: &[u8], needle: &str) -> (r: bool)
    requires
        needle@.len() > 0,
    ensures
        r == contains_bytes(payload@, encode_utf8(needle@)),
{
    let n: &[u8] = needle.as_bytes();
    if payload.len() < n.len() {
        return false;
    }
    let total: usize = payload.len();
    let last: usize = total - n.len();
    let mut i: usize = 0;
    loop
        invariant
            i <= last,
            last + n@.len() == total == payload@.len(),
            n@ == encode_utf8(needle@),
            forall|k: int| 0 <= k < i ==> #[trigger] payload@.subrange(k, k + n@.len()) != n@,
        decreases last - i,
    {
        if bytes_eq(vstd::slice::slice_subrange(payload, i, i + n.len()), n) {
            assert(payload@.subrange(i as int, i + n@.len()) == n@);
            return true;
        }
        if i == last {
            assert forall|k: int| 0 <= k && k + n@.len() <= payload@.len() implies
                #[trigger] payload@.subrange(k, k + n@.len()) != n@ by {}
            return false;
        }
        i = i + 1;
    }
}

/// What is encoded as a string reads back, whatever follows it.
pub proof fn law_string_reads_back(s: Seq<char>, rest: Seq<u8>)
    requires
        encode_utf8(s).len() < 0x1_0000,
    ensures
        decoded(string_bytes(s) + rest, 0) == Ok::<(AmfValue, int), Seq<char>>(
            (AmfValue::Text(s), string_bytes(s).len() as int),
        ),
{
    let n = encode_utf8(s).len() as int;
    let buf = string_bytes(s) + rest;
    assert(buf.subrange(1, 3) =~= be16_bytes(n));
    lemma_be16_value(n);
    assert(buf.subrange(3, 3 + n) =~= encode_utf8(s));
    vstd::utf8::encode_utf8_valid_utf8(s);
    vstd::utf8::encode_utf8_decode_utf8(s);
}

/// What is encoded as a number reads back, whatever follows it.
pub proof fn law_number_reads_back(bits: u64, rest: Seq<u8>)
    ensures
        decoded(number_bytes(bits) + rest, 0) == Ok::<(AmfValue, int), Seq<char>>(
            (AmfValue::Number(bits), 9),
        ),
{
    let buf = number_bytes(bits) + rest;
    assert(buf.subrange(1, 9) =~= be64_bytes(bits as int));
    crate::bytes::lemma_be64_value(bits as int);
}

proof fn lemma_be16_value(n: int)
    requires
        0 <= n < 0x1_0000,
    ensures
        crate::bytes::be_value(be16_bytes(n)) == n,
{
    reveal_with_fuel(crate::bytes::be_value, 3);
    let s = be16_bytes(n);
    assert(s.drop_last() =~= seq![s[0]]);
    assert(s.drop_last().drop_last() =~= Seq::<u8>::empty());
}

/// Decoding looks at nothing before the place it starts from.
pub proof fn lemma_decoded_shift(pre: Seq<u8>, buf: Seq<u8>, pos: int)
    requires
        0 <= pos,
    ensures
        decoded(pre + buf, pre.len() + pos) == (match decoded(buf, pos) {
            Ok((v, end)) => Ok::<(AmfValue, int), Seq<char>>((v, pre.len() + end)),
            Err(e) => Err(e),
        }),
    decreases buf.len() - pos, 1nat,
{
    let all = pre + buf;
    let k = pre.len() as int;
    if pos < buf.len() {
        let at = pos + 1;
        assert(forall|i: int, n: int|
            0 <= i && 0 <= n && i + n <= buf.len() ==> #[trigger] all.subrange(k + i, k + i + n)
                == buf.subrange(i, i + n)) by {
            assert forall|i: int, n: int| 0 <= i && 0 <= n && i + n <= buf.len() implies
                #[trigger] all.subrange(k + i, k + i + n) == buf.subrange(i, i + n) by {
                assert(all.subrange(k + i, k + i + n) =~= buf.subrange(i, i + n));
            }
        }
        if buf[pos] == 3 {
            lemma_props_shift(pre, buf, at, false);
        }
        if buf[pos] == 8 && buf.len() - at >= 4 {
            lemma_props_shift(pre, buf, at + 4, true);
        }
        if buf[pos] == 0 && buf.len() - at >= 8 {
            assert(all.subrange(k + at, k + at + 8) =~= buf.subrange(at, at + 8));
        }
        if buf[pos] == 2 && buf.len() - at >= 2 {
            lemma_text_shift(pre, buf, at, 2, "amf0: truncated str"@, "amf0: str utf8"@);
        }
        if buf[pos] == 12 && buf.len() - at >= 4 {
            lemma_text_shift(pre, buf, at, 4, "amf0: truncated longstr"@, "amf0: longstr utf8"@);
        }
    }
}

proof fn lemma_text_shift(
    pre: Seq<u8>,
    buf: Seq<u8>,
    at: int,
    w: nat,
    truncated: Seq<char>,
    not_utf8: Seq<char>,
)
    requires
        0 <= at,
        at + w <= buf.len(),
    ensures
        uint_at(pre + buf, pre.len() + at, w) == uint_at(buf, at, w),
        ({
            let n = uint_at(buf, at, w) as int;
            decoded_text(pre + buf, pre.len() + at + w, n, truncated, not_utf8) == (
            match decoded_text(buf, at + w, n, truncated, not_utf8) {
                Ok((v, end)) => Ok::<(AmfValue, int), Seq<char>>((v, pre.len() + end)),
                Err(e) => Err(e),
            })
        }),
{
    let all = pre + buf;
    let k = pre.len() as int;
    assert(all.subrange(k + at, k + at + w) =~= buf.subrange(at, at + w));
    let n = uint_at(buf, at, w) as int;
    if buf.len() - (at + w) >= n {
        assert(all.subrange(k + at + w, k + at + w + n) =~= buf.subrange(at + w, at + w + n));
    }
}

proof fn lemma_props_shift(pre: Seq<u8>, buf: Seq<u8>, pos: int, ecma: bool)
    requires
        0 <= pos,
    ensures
        decoded_props(pre + buf, pre.len() + pos, ecma) == (match decoded_props(buf, pos, ecma) {
            Ok((v, end)) => Ok::<(Seq<(Seq<char>, AmfValue)>, int), Seq<char>>((v, pre.len() + end)),
            Err(e) => Err(e),
        }),
    decreases buf.len() - pos, 0nat,
{
    let all = pre + buf;
    let k = pre.len() as int;
    if buf.len() - pos >= 2 {
        lemma_text_shift(pre, buf, pos, 2, "amf0: truncated key"@, "amf0: key utf8"@);
        let n = uint_at(buf, pos, 2) as int;
        let at = pos + 2;
        if n > 0 && buf.len() - at >= n {
            lemma_decoded_shift(pre, buf, at + n);
            lemma_decoded_advances(buf, at + n);
            match decoded(buf, at + n) {
                Ok((v, end)) => {
                    lemma_props_shift(pre, buf, end, ecma);
                },
                Err(_) => {},
            }
        }
    }
}

/// A command reads back: its name and its transaction number.
pub proof fn law_command_reads_back(name: Seq<char>, trans: u64, props: Seq<u8>, args: Seq<u8>)
    requires
        encode_utf8(name).len() < 0x1_0000,
    ensures
        command_of(invoke_bytes(name, trans, props, args)) == Ok::<(Seq<char>, u64), Seq<char>>(
            (name, trans),
        ),
{
    let head = string_bytes(name);
    let tail = number_bytes(trans) + (props + args);
    law_string_reads_back(name, tail);
    law_number_reads_back(trans, props + args);
    lemma_decoded_shift(head, tail, 0);
    assert(invoke_bytes(name, trans, props, args) =~= head + tail);
}

proof fn lemma_same_bytes(short: Seq<u8>, long: Seq<u8>, from: int, to: int)
    requires
        short.len() <= long.len(),
        long.take(short.len() as int) == short,
        0 <= from <= to <= short.len(),
    ensures
        short.subrange(from, to) == long.subrange(from, to),
        forall|i: int| 0 <= i < short.len() ==> short[i] == long[i],
{
    assert forall|i: int| 0 <= i < short.len() implies short[i] == long[i] by {
        assert(short[i] == long.take(short.len() as int)[i]);
    }
    assert(short.subrange(from, to) =~= long.subrange(from, to));
}

/// What more bytes behind a value change of it: nothing.
proof fn lemma_value_extends(short: Seq<u8>, long: Seq<u8>, pos: int)
    requires
        short.len() <= long.len(),
        long.take(short.len() as int) == short,
        0 <= pos,
        decoded(short, pos) is Ok,
    ensures
        decoded(long, pos) == decoded(short, pos),
    decreases short.len() - pos, 1nat,
{
    lemma_same_bytes(short, long, 0, 0);
    let at = pos + 1;
    let t = short[pos];
    if t == 0 {
        lemma_same_bytes(short, long, at, at + 8);
    } else if t == 2 {
        lemma_same_bytes(short, long, at, at + 2);
        let n = uint_at(short, at, 2) as int;
        lemma_same_bytes(short, long, at + 2, at + 2 + n);
    } else if t == 3 {
        lemma_props_extend(short, long, at, false);
    } else if t == 8 {
        lemma_props_extend(short, long, at + 4, true);
    } else if t == 12 {
        lemma_same_bytes(short, long, at, at + 4);
        let n = uint_at(short, at, 4) as int;
        lemma_same_bytes(short, long, at + 4, at + 4 + n);
    }
}

proof fn lemma_props_extend(short: Seq<u8>, long: Seq<u8>, pos: int, ecma: bool)
    requires
        short.len() <= long.len(),
        long.take(short.len() as int) == short,
        0 <= pos,
        decoded_props(short, pos, ecma) is Ok,
    ensures
        decoded_props(long, pos, ecma) == decoded_props(short, pos, ecma),
    decreases short.len() - pos, 0nat,
{
    lemma_same_bytes(short, long, pos, pos + 2);
    let n = uint_at(short, pos, 2) as int;
    let at = pos + 2;
    if n > 0 {
        lemma_same_bytes(short, long, at, at + n);
        lemma_decoded_advances(short, at + n);
        lemma_value_extends(short, long, at + n);
        let end = decoded(short, at + n)->Ok_0.1;
        lemma_props_extend(short, long, end, ecma);
    }
}

/// What is cut off behind a value changes nothing of it.
proof fn lemma_value_narrows(short: Seq<u8>, long: Seq<u8>, pos: int)
    requires
        short.len() <= long.len(),
        long.take(short.len() as int) == short,
        0 <= pos,
        decoded(long, pos) matches Ok(d) && d.1 <= short.len(),
    ensures
        decoded(short, pos) == decoded(long, pos),
    decreases long.len() - pos, 1nat,
{
    lemma_decoded_advances(long, pos);
    lemma_same_bytes(short, long, 0, 0);
    let at = pos + 1;
    let t = long[pos];
    if t == 0 {
        lemma_same_bytes(short, long, at, at + 8);
    } else if t == 2 {
        lemma_same_bytes(short, long, at, at + 2);
        let n = uint_at(long, at, 2) as int;
        lemma_same_bytes(short, long, at + 2, at + 2 + n);
    } else if t == 3 {
        lemma_props_narrow(short, long, at, false);
    } else if t == 8 {
        lemma_props_advance(long, at + 4, true);
        lemma_props_narrow(short, long, at + 4, true);
    } else if t == 12 {
        lemma_same_bytes(short, long, at, at + 4);
        let n = uint_at(long, at, 4) as int;
        lemma_same_bytes(short, long, at + 4, at + 4 + n);
    }
}

proof fn lemma_props_narrow(short: Seq<u8>, long: Seq<u8>, pos: int, ecma: bool)
    requires
        short.len() <= long.len(),
        long.take(short.len() as int) == short,
        0 <= pos,
        decoded_props(long, pos, ecma) matches Ok(d) && d.1 <= short.len(),
    ensures
        decoded_props(short, pos, ecma) == decoded_props(long, pos, ecma),
    decreases long.len() - pos, 0nat,
{
    lemma_props_advance(long, pos, ecma);
    let n = uint_at(long, pos, 2) as int;
    let at = pos + 2;
    if n > 0 {
        lemma_decoded_advances(long, at + n);
        let end = decoded(long, at + n)->Ok_0.1;
        lemma_props_advance(long, end, ecma);
        lemma_same_bytes(short, long, pos, at);
        lemma_same_bytes(short, long, at, at + n);
        lemma_value_narrows(short, long, at + n);
        lemma_props_narrow(short, long, end, ecma);
    } else {
        lemma_same_bytes(short, long, pos, at);
    }
}

/// A value is read from its own bytes and from no others: what stands behind it
/// does not matter, and a value that is cut short is refused.
pub proof fn law_a_value_is_its_own_bytes(buf: Seq<u8>, pos: int, behind: Seq<u8>, cut: int)
    requires
        0 <= pos,
        decoded(buf, pos) matches Ok(d) && 0 <= cut < d.1,
    ensures
        ({
            let end = decoded(buf, pos)->Ok_0.1;
            &&& pos < end <= buf.len()
            &&& decoded(buf.take(end), pos) == decoded(buf, pos)
            &&& decoded(buf.take(end) + behind, pos) == decoded(buf, pos)
            &&& decoded(buf.take(cut), pos) is Err
        }),
{
    lemma_decoded_advances(buf, pos);
    let end = decoded(buf, pos)->Ok_0.1;
    let own = buf.take(end);
    lemma_value_narrows(own, buf, pos);
    assert((own + behind).take(end) =~= own);
    lemma_value_extends(own, own + behind, pos);
    let short = buf.take(cut);
    if decoded(short, pos) is Ok {
        lemma_decoded_advances(short, pos);
        lemma_value_extends(short, buf, pos);
    }
}

} // verus!
