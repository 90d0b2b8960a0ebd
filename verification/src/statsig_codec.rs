//! The form in which a web view keeps the values of its local storage.

use crate::json::{parse_json, print_json, Json, JsonView};
use crate::text::{chars_of, string_from_utf8};
use crate::{json, text};
use vstd::prelude::*;
use vstd::string::*;
use vstd::utf8::*;

verus! {

/// How the characters of a value are kept.
#[derive(Debug, Clone, Copy, PartialEq, Eq, Structural)]
pub enum CodexDesktopStatsigWrapperEncoding {
    Utf8,
    Utf16Le,
}

/// The UTF-16 units of a character.
pub open spec fn units_of(c: char) -> Seq<u16> {
    let n = c as int;
    if n < 0x1_0000 {
        seq![n as u16]
    } else {
        seq![
            (0xd800 + (n - 0x1_0000) / 0x400) as u16,
            (0xdc00 + (n - 0x1_0000) % 0x400) as u16,
        ]
    }
}

/// The UTF-16 units of a text.
pub open spec fn utf16(s: Seq<char>) -> Seq<u16>
    decreases s.len(),
{
    if s.len() == 0 {
        Seq::empty()
    } else {
        utf16(s.drop_last()) + units_of(s.last())
    }
}

/// Units as bytes, the lower one first.
pub open spec fn unit_bytes(units: Seq<u16>) -> Seq<u8> {
    Seq::new(
        units.len() * 2,
        |i: int|
            if i % 2 == 0 {
                (units[i / 2] % 256) as u8
            } else {
                (units[i / 2] / 256) as u8
            },
    )
}

/// Bytes as units.
pub open spec fn byte_units(bytes: Seq<u8>) -> Seq<u16> {
    Seq::new(
        bytes.len() / 2,
        |i: int| (bytes[2 * i] as int + 256 * bytes[2 * i + 1]) as u16,
    )
}

/// The text that units stand for; `None` where a half of a pair stands alone.
pub open spec fn utf16_text(units: Seq<u16>) -> Option<Seq<char>> {
    if exists|s: Seq<char>| #[trigger] utf16(s) == units {
        Some(choose|s: Seq<char>| #[trigger] utf16(s) == units)
    } else {
        None
    }
}

/// `String::from_utf16` gives the string whose UTF-16 units the slice holds, where they are those
/// of one.
#[verifier::external_body]
fn string_from_utf16(units: &Vec<u16>) -> (r: Option<String>)
    ensures
        match r {
            Some(s) => utf16(s@) == units@,
            None => forall|s: Seq<char>| #[trigger] utf16(s) != units@,
        },
{
    String::from_utf16(units).ok()
}

/// A character is told by its first unit, and by the second where there is one.
proof fn lemma_units(a: char, b: char)
    ensures
        units_of(a).len() == 1 || units_of(a).len() == 2,
        units_of(a).len() == 1 ==> !(0xdc00 <= units_of(a)[0] < 0xe000),
        units_of(a).len() == 2 ==> 0xdc00 <= units_of(a)[1] < 0xe000,
        units_of(a) == units_of(b) ==> a == b,
{
    if units_of(a) == units_of(b) {
        assert(units_of(a)[0] == units_of(b)[0]);
        if a as int >= 0x1_0000 {
            assert(units_of(a)[1] == units_of(b)[1]);
        }
    }
}

/// No two texts have the same units.
proof fn lemma_utf16_injective(a: Seq<char>, b: Seq<char>)
    requires
        utf16(a) == utf16(b),
    ensures
        a == b,
    decreases a.len(),
{
    if a.len() == 0 {
        if b.len() > 0 {
            lemma_units(b.last(), b.last());
            assert(utf16(b).len() > 0);
        }
        assert(a =~= b);
    } else if b.len() == 0 {
        lemma_units(a.last(), a.last());
        assert(utf16(a).len() > 0);
    } else {
        let x = units_of(a.last());
        let y = units_of(b.last());
        let fa = utf16(a.drop_last());
        let fb = utf16(b.drop_last());
        lemma_units(a.last(), b.last());
        lemma_units(b.last(), a.last());
        let all = utf16(a);
        assert(all.last() == x.last());
        assert(all.last() == y.last());
        assert(x.len() == y.len());
        assert(fa =~= all.take(all.len() - x.len()));
        assert(fb =~= all.take(all.len() - x.len()));
        assert(x =~= all.skip(all.len() - x.len()));
        assert(y =~= all.skip(all.len() - x.len()));
        lemma_utf16_injective(a.drop_last(), b.drop_last());
        assert(a =~= a.drop_last().push(a.last()));
        assert(b =~= b.drop_last().push(b.last()));
    }
}

/// The text of the units of a text is that text.
proof fn lemma_utf16_text(s: Seq<char>)
    ensures
        utf16_text(utf16(s)) == Some(s),
{
    let t = choose|t: Seq<char>| #[trigger] utf16(t) == utf16(s);
    assert(utf16(t) == utf16(s));
    lemma_utf16_injective(t, s);
}

/// Units read back from their bytes.
proof fn lemma_unit_bytes(units: Seq<u16>)
    ensures
        byte_units(unit_bytes(units)) == units,
        unit_bytes(units).len() == 2 * units.len(),
{
    let bytes = unit_bytes(units);
    assert forall|i: int| 0 <= i < units.len() implies byte_units(bytes)[i] == units[i] by {
        assert((2 * i) / 2 == i && (2 * i) % 2 == 0);
        assert((2 * i + 1) / 2 == i && (2 * i + 1) % 2 == 1);
        assert(bytes[2 * i] == (units[i] % 256) as u8);
        assert(bytes[2 * i + 1] == (units[i] / 256) as u8);
    }
    assert(byte_units(bytes) =~= units);
}

/// A value that was read: with a byte before its text, where there was one, and how the text was
/// kept.
#[derive(Debug)]
pub struct StoredValue {
    pub prefix: Option<u8>,
    pub encoding: CodexDesktopStatsigWrapperEncoding,
    pub value: Json,
}

/// What a [`StoredValue`] stands for.
pub struct StoredView {
    pub prefix: Option<u8>,
    pub encoding: CodexDesktopStatsigWrapperEncoding,
    pub value: JsonView,
}

impl StoredValue {
    pub open spec fn view(&self) -> StoredView {
        StoredView { prefix: self.prefix, encoding: self.encoding, value: self.value@ }
    }
}

/// What an optional stored value stands for.
pub open spec fn stored_option(value: Option<StoredValue>) -> Option<StoredView> {
    match value {
        Some(value) => Some(value@),
        None => None,
    }
}

/// The byte before a text, where there is one.
pub open spec fn prefix_of(bytes: Seq<u8>) -> Option<u8> {
    if bytes.len() > 0 && (bytes[0] == 0 || bytes[0] == 1) {
        Some(bytes[0])
    } else {
        None
    }
}

/// The bytes of a text.
pub open spec fn rest_of(bytes: Seq<u8>) -> Seq<u8> {
    if prefix_of(bytes) is Some {
        bytes.skip(1)
    } else {
        bytes
    }
}

/// The value of bytes as UTF-8.
pub open spec fn utf8_value(bytes: Seq<u8>) -> Option<JsonView> {
    if valid_utf8(bytes) {
        json::json_text(decode_utf8(bytes))
    } else {
        None
    }
}

/// The value of bytes as UTF-16.
pub open spec fn utf16_value(bytes: Seq<u8>) -> Option<JsonView> {
    if bytes.len() % 2 == 0 {
        match utf16_text(byte_units(bytes)) {
            Some(text) => json::json_text(text),
            None => None,
        }
    } else {
        None
    }
}

/// The value that bytes stand for: as UTF-8 where that gives one, else as UTF-16.
pub open spec fn decoded(bytes: Seq<u8>) -> Option<StoredView> {
    let rest = rest_of(bytes);
    match utf8_value(rest) {
        Some(value) => Some(
            StoredView {
                prefix: prefix_of(bytes),
                encoding: CodexDesktopStatsigWrapperEncoding::Utf8,
                value,
            },
        ),
        None => match utf16_value(rest) {
            Some(value) => Some(
                StoredView {
                    prefix: prefix_of(bytes),
                    encoding: CodexDesktopStatsigWrapperEncoding::Utf16Le,
                    value,
                },
            ),
            None => None,
        },
    }
}

/// The bytes that follow a position.
fn bytes_from(bytes: &Vec<u8>, from: usize) -> (r: Vec<u8>)
    requires
        from <= bytes@.len(),
    ensures
        r@ == bytes@.skip(from as int),
{
    let mut out: Vec<u8> = Vec::new();
    let mut i: usize = from;
    while i < bytes.len()
        invariant
            from <= i <= bytes@.len(),
            out@ =~= bytes@.subrange(from as int, i as int),
        decreases bytes@.len() - i,
    {
        out.push(bytes[i]);
        i += 1;
    }
    assert(out@ =~= bytes@.skip(from as int));
    out
}

/// Bytes as units.
fn units_from(bytes: &Vec<u8>) -> (r: Vec<u16>)
    requires
        bytes@.len() % 2 == 0,
    ensures
        r@ == byte_units(bytes@),
{
    let mut out: Vec<u16> = Vec::new();
    let mut i: usize = 0;
    while i < bytes.len()
        invariant
            i <= bytes@.len(),
            i % 2 == 0,
            bytes@.len() % 2 == 0,
            out@ =~= byte_units(bytes@).take(i as int / 2),
        decreases bytes@.len() - i,
    {
        let unit: u16 = bytes[i] as u16 + 256 * (bytes[i + 1] as u16);
        let ghost at = i as int / 2;
        assert(byte_units(bytes@)[at] == unit) by {
            assert(2 * at == i);
        }
        out.push(unit);
        i += 2;
        assert(i as int / 2 == at + 1);
    }
    assert(out@ =~= byte_units(bytes@));
    out
}

/// Reads a value. A byte before its text is kept, so that it can be written again.
pub fn decode_codex_desktop_statsig_wrapper(bytes: &Vec<u8>) -> (r: Option<StoredValue>)
    ensures
        stored_option(r) == decoded(bytes@),
{
    let prefix = if !bytes.is_empty() && (bytes[0] == 0 || bytes[0] == 1) {
        Some(bytes[0])
    } else {
        None
    };
    assert(bytes@.skip(0) =~= bytes@);
    let rest = if prefix.is_some() {
        bytes_from(bytes, 1)
    } else {
        bytes_from(bytes, 0)
    };
    assert(rest@ == rest_of(bytes@));
    let units = if rest.len() % 2 == 0 {
        Some(units_from(&rest))
    } else {
        None
    };
    if let Some(text) = string_from_utf8(rest) {
        if let Some(value) = parse_json(text.as_str()) {
            return Some(
                StoredValue { prefix, encoding: CodexDesktopStatsigWrapperEncoding::Utf8, value },
            );
        }
    }
    if let Some(units) = units {
        if let Some(text) = string_from_utf16(&units) {
            proof {
                lemma_utf16_text(text@);
            }
            if let Some(value) = parse_json(text.as_str()) {
                return Some(
                    StoredValue {
                        prefix,
                        encoding: CodexDesktopStatsigWrapperEncoding::Utf16Le,
                        value,
                    },
                );
            }
        }
    }
    None
}

/// The bytes of a text.
pub open spec fn text_bytes(
    s: Seq<char>,
    encoding: CodexDesktopStatsigWrapperEncoding,
) -> Seq<u8> {
    match encoding {
        CodexDesktopStatsigWrapperEncoding::Utf8 => encode_utf8(s),
        CodexDesktopStatsigWrapperEncoding::Utf16Le => unit_bytes(utf16(s)),
    }
}

/// The bytes that stand for a value.
pub open spec fn encoded(
    prefix: Option<u8>,
    encoding: CodexDesktopStatsigWrapperEncoding,
    value: JsonView,
) -> Seq<u8> {
    let bytes = text_bytes(json::printed(value), encoding);
    match prefix {
        Some(prefix) => seq![prefix] + bytes,
        None => bytes,
    }
}

/// Whether a byte is one that can stand before a text.
pub open spec fn is_prefix(prefix: Option<u8>) -> bool {
    match prefix {
        Some(prefix) => prefix == 0 || prefix == 1,
        None => true,
    }
}

/// Adds the UTF-16 units of a text as bytes.
fn push_utf16(out: &mut Vec<u8>, s: &str)
    ensures
        final(out)@ == old(out)@ + unit_bytes(utf16(s@)),
{
    let ghost before = out@;
    let chars = chars_of(s);
    let mut i: usize = 0;
    assert(s@.take(0) =~= Seq::<char>::empty());
    assert(unit_bytes(utf16(s@.take(0))) =~= Seq::<u8>::empty());
    while i < chars.len()
        invariant
            chars@ == s@,
            i <= chars@.len(),
            out@ =~= before + unit_bytes(utf16(s@.take(i as int))),
        decreases chars@.len() - i,
    {
        let ghost done = utf16(s@.take(i as int));
        proof {
            assert(s@.take(i + 1).drop_last() =~= s@.take(i as int));
            assert(s@.take(i + 1).last() == chars@[i as int]);
        }
        let c = chars[i];
        let n: u32 = c as u32;
        proof {
            lemma_char_range(c);
        }
        if n < 0x1_0000 {
            let unit: u16 = n as u16;
            push_unit(out, unit);
            proof {
                assert(units_of(chars@[i as int]) =~= seq![unit]);
                lemma_bytes_push(done, unit);
                assert(done + seq![unit] =~= done.push(unit));
            }
        } else {
            let high: u16 = (0xd800 + (n - 0x1_0000) / 0x400) as u16;
            let low: u16 = (0xdc00 + (n - 0x1_0000) % 0x400) as u16;
            push_unit(out, high);
            push_unit(out, low);
            proof {
                assert(units_of(chars@[i as int]) =~= seq![high, low]);
                lemma_bytes_push(done, high);
                lemma_bytes_push(done.push(high), low);
                assert(done + seq![high, low] =~= done.push(high).push(low));
            }
        }
        i += 1;
    }
    assert(s@.take(i as int) =~= s@);
}

/// The number of a character.
proof fn lemma_char_range(c: char)
    ensures
        c as u32 as int == c as int,
        c as int <= 0x10_ffff,
{
}

/// One more unit is two more bytes.
proof fn lemma_bytes_push(units: Seq<u16>, unit: u16)
    ensures
        unit_bytes(units.push(unit)) == unit_bytes(units).push((unit % 256) as u8).push(
            (unit / 256) as u8,
        ),
{
    let all = unit_bytes(units.push(unit));
    let made = unit_bytes(units).push((unit % 256) as u8).push((unit / 256) as u8);
    assert(all.len() == made.len());
    assert forall|i: int| 0 <= i < all.len() implies all[i] == made[i] by {
        if i < 2 * units.len() {
            assert(i / 2 < units.len());
            assert(units.push(unit)[i / 2] == units[i / 2]);
        } else {
            assert(i / 2 == units.len());
        }
    }
    assert(all =~= made);
}

/// Adds a unit as two bytes.
fn push_unit(out: &mut Vec<u8>, unit: u16)
    ensures
        final(out)@ == old(out)@.push((unit % 256) as u8).push((unit / 256) as u8),
{
    out.push((unit % 256) as u8);
    out.push((unit / 256) as u8);
}

/// Adds the UTF-8 bytes of a text.
fn push_utf8(out: &mut Vec<u8>, s: &str)
    ensures
        final(out)@ == old(out)@ + encode_utf8(s@),
{
    let ghost before = out@;
    let bytes = s.as_bytes();
    let mut i: usize = 0;
    while i < bytes.len()
        invariant
            i <= bytes@.len(),
            bytes@ == encode_utf8(s@),
            out@ =~= before + bytes@.take(i as int),
        decreases bytes@.len() - i,
    {
        out.push(bytes[i]);
        i += 1;
    }
    assert(bytes@.take(i as int) =~= bytes@);
}

/// Writes a value in the form in which it was read. A plain value is read back from that as it was.
pub fn encode_codex_desktop_statsig_wrapper(
    prefix: Option<u8>,
    encoding: CodexDesktopStatsigWrapperEncoding,
    value: &Json,
) -> (r: Vec<u8>)
    ensures
        r@ == encoded(prefix, encoding, value@),
        json::plain(value@, 127) && is_prefix(prefix) ==> decoded(r@) == Some(
            StoredView { prefix, encoding, value: value@ },
        ),
{
    let text = print_json(value);
    let mut out: Vec<u8> = Vec::new();
    if let Some(prefix) = prefix {
        out.push(prefix);
    }
    let ghost front = out@;
    match encoding {
        CodexDesktopStatsigWrapperEncoding::Utf8 => {
            push_utf8(&mut out, text.as_str());
        },
        CodexDesktopStatsigWrapperEncoding::Utf16Le => {
            push_utf16(&mut out, text.as_str());
        },
    }
    proof {
        let bytes = text_bytes(text@, encoding);
        assert(prefix is None ==> front + bytes =~= bytes);
        assert(prefix is Some ==> front =~= seq![prefix->Some_0]);
        if json::plain(value@, 127) && is_prefix(prefix) {
            lemma_first_byte(text@, encoding);
            assert(out@ == front + bytes);
            if prefix is Some {
                assert(out@[0] == prefix->Some_0);
                assert(out@.skip(1) =~= bytes);
            } else {
                assert(out@[0] == bytes[0]);
            }
            assert(rest_of(out@) == bytes);
            assert(prefix_of(out@) == prefix);
            match encoding {
                CodexDesktopStatsigWrapperEncoding::Utf8 => {
                    encode_utf8_valid_utf8(text@);
                    encode_utf8_decode_utf8(text@);
                },
                CodexDesktopStatsigWrapperEncoding::Utf16Le => {
                    lemma_unit_bytes(utf16(text@));
                    lemma_utf16_text(text@);
                    if valid_utf8(bytes) {
                        lemma_nul_second(text@, bytes);
                        assert(json::json_text(decode_utf8(bytes)) is None);
                    }
                    assert(utf8_value(bytes) is None);
                },
            }
        }
    }
    out
}

/// The bytes of a text that starts with a visible ASCII character start with that character.
proof fn lemma_first_byte(s: Seq<char>, encoding: CodexDesktopStatsigWrapperEncoding)
    requires
        s.len() > 0,
        '!' <= s[0] && s[0] <= '~',
    ensures
        text_bytes(s, encoding).len() > 0,
        text_bytes(s, encoding)[0] == s[0] as u8,
        encoding is Utf16Le ==> text_bytes(s, encoding).len() > 1 && text_bytes(s, encoding)[1]
            == 0u8,
{
    match encoding {
        CodexDesktopStatsigWrapperEncoding::Utf8 => {
            lemma_first_utf8(s);
        },
        CodexDesktopStatsigWrapperEncoding::Utf16Le => {
            lemma_first_unit(s);
            let units = utf16(s);
            assert(units[0] == s[0] as u16);
            let n = s[0] as int;
            assert(33 <= n <= 126);
            assert(units[0] as int == n);
            assert(units[0] % 256 == n && units[0] / 256 == 0);
        },
    }
}

/// The first UTF-8 byte of a text that starts with an ASCII character.
proof fn lemma_first_utf8(s: Seq<char>)
    requires
        s.len() > 0,
        '!' <= s[0] && s[0] <= '~',
    ensures
        encode_utf8(s).len() > 0,
        encode_utf8(s)[0] == s[0] as u8,
{
    encode_utf8_first_scalar(s);
    let c = s[0] as u32;
    assert(33 <= c <= 126);
    assert(encode_scalar(c) =~= seq![leading_byte_width_1(c)]);
    assert((c & 0x7F) as u8 == c as u8) by (bit_vector)
        requires
            33 <= c <= 126,
    ;
}

/// The first unit of a text that starts with an ASCII character.
proof fn lemma_first_unit(s: Seq<char>)
    requires
        s.len() > 0,
        '!' <= s[0] && s[0] <= '~',
    ensures
        utf16(s).len() > 0,
        utf16(s)[0] == s[0] as u16,
    decreases s.len(),
{
    if s.len() == 1 {
        assert(s.drop_last() =~= Seq::<char>::empty());
        assert(utf16(s.drop_last()) =~= Seq::<u16>::empty());
        assert(utf16(s) =~= units_of(s[0]));
    } else {
        assert(s.drop_last()[0] == s[0]);
        lemma_first_unit(s.drop_last());
    }
}

/// Bytes whose first is an ASCII character and whose second is 0 are a text with these two
/// characters in front.
proof fn lemma_nul_second(s: Seq<char>, bytes: Seq<u8>)
    requires
        valid_utf8(bytes),
        s.len() > 0,
        '!' <= s[0] && s[0] <= '~',
        bytes.len() > 1,
        bytes[0] == s[0] as u8,
        bytes[1] == 0u8,
    ensures
        decode_utf8(bytes).len() > 1,
        decode_utf8(bytes)[0] == s[0],
        decode_utf8(bytes)[1] == '\0',
{
    let text = decode_utf8(bytes);
    lemma_ascii_first(bytes);
    let rest = pop_first_scalar(bytes);
    assert(rest =~= bytes.skip(1));
    assert(rest[0] == 0u8);
    lemma_ascii_first(rest);
    assert(text =~= seq![bytes[0] as char] + decode_utf8(rest));
    assert(decode_utf8(rest)[0] == 0u8 as char);
}

/// The first character of bytes whose first one is ASCII.
proof fn lemma_ascii_first(bytes: Seq<u8>)
    requires
        valid_utf8(bytes),
        bytes.len() > 0,
        bytes[0] < 0x80,
    ensures
        pop_first_scalar(bytes) == bytes.skip(1),
        valid_utf8(bytes.skip(1)),
        decode_utf8(bytes) == seq![bytes[0] as char] + decode_utf8(bytes.skip(1)),
{
    let b = bytes[0];
    assert(b & 0x80 == 0) by (bit_vector)
        requires
            b < 0x80,
    ;
    assert((b & 0x7F) as u32 == b as u32) by (bit_vector)
        requires
            b < 0x80,
    ;
    assert(is_leading_byte_width_1(b));
    assert(pop_first_scalar(bytes) =~= bytes.skip(1));
}

} // verus!
