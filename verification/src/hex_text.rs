//! Text/hex conversion: UTF-8 bytes rendered as lowercase hex digit pairs,
//! and the strict inverse — an odd length, a non-hex digit or bytes that
//! are not valid UTF-8 are each an error. Encoding then decoding gives the
//! original text back, proved in [`lemma_hex_round_trip`].

use vstd::prelude::*;
use vstd::string::{StrSliceExecFns, StringSliceAdditionalSpecFns};
use vstd::utf8::{
    decode_utf8, encode_utf8, encode_utf8_decode_utf8, encode_utf8_valid_utf8,
    is_ascii_chars_encode_utf8, valid_utf8,
};
use crate::clock::{inc32, spec_inc32};

verus! {

/// The lowercase hex digit of a nibble.
pub open spec fn spec_hex_digit(d: u8) -> u8
    recommends
        d < 16,
{
    if d < 10 {
        (48 + d) as u8
    } else {
        (87 + d) as u8
    }
}

/// The bytes of `bs` as ASCII hex digit pairs, high nibble first.
pub open spec fn spec_hex_ascii(bs: Seq<u8>) -> Seq<u8>
    decreases bs.len(),
{
    if bs.len() == 0 {
        Seq::empty()
    } else {
        seq![spec_hex_digit(bs.first() / 16), spec_hex_digit(bs.first() % 16)] + spec_hex_ascii(
            bs.drop_first(),
        )
    }
}

/// ASCII bytes read as characters.
pub open spec fn ascii_chars(s: Seq<u8>) -> Seq<char> {
    Seq::new(s.len(), |i: int| s[i] as char)
}

/// The text a byte sequence encodes in hex.
pub open spec fn spec_hex_text(t: Seq<char>) -> Seq<char> {
    ascii_chars(spec_hex_ascii(encode_utf8(t)))
}

/// The nibble a hex digit stands for; upper and lower case both count.
pub open spec fn spec_hex_val(c: char) -> Option<u8> {
    let u = c as u32;
    if 48 <= u && u <= 57 {
        Some((u - 48) as u8)
    } else if 97 <= u && u <= 102 {
        Some((u - 87) as u8)
    } else if 65 <= u && u <= 70 {
        Some((u - 55) as u8)
    } else {
        None
    }
}

/// The bytes a hex string spells, or nothing on an odd length or a
/// non-hex character.
pub open spec fn spec_decode_hex(s: Seq<char>) -> Option<Seq<u8>>
    decreases s.len(),
{
    if s.len() % 2 != 0 {
        None
    } else if s.len() == 0 {
        Some(Seq::empty())
    } else {
        match (spec_hex_val(s[0]), spec_hex_val(s[1])) {
            (Some(hi), Some(lo)) => match spec_decode_hex(s.skip(2)) {
                Some(rest) => Some(seq![(hi * 16 + lo) as u8] + rest),
                None => None,
            },
            _ => None,
        }
    }
}

/// Hex encoding writes two digits per byte.
pub proof fn lemma_hex_ascii_len(bs: Seq<u8>)
    ensures
        spec_hex_ascii(bs).len() == 2 * bs.len(),
    decreases bs.len(),
{
    if bs.len() > 0 {
        lemma_hex_ascii_len(bs.drop_first());
    }
}

/// Hex digits are ASCII.
pub proof fn lemma_hex_ascii_is_ascii(bs: Seq<u8>)
    ensures
        forall|i: int| 0 <= i < spec_hex_ascii(bs).len() ==> #[trigger] spec_hex_ascii(bs)[i] < 128,
    decreases bs.len(),
{
    if bs.len() > 0 {
        lemma_hex_ascii_is_ascii(bs.drop_first());
        assert forall|i: int|
            0 <= i < spec_hex_ascii(bs).len() implies #[trigger] spec_hex_ascii(bs)[i] < 128 by {
            if i >= 2 {
                assert(spec_hex_ascii(bs)[i] == spec_hex_ascii(bs.drop_first())[i - 2]);
            }
        }
    }
}

/// A sequence of ASCII bytes is valid UTF-8 and decodes to its own
/// characters.
pub proof fn lemma_ascii_decode(s: Seq<u8>)
    requires
        forall|i: int| 0 <= i < s.len() ==> #[trigger] s[i] < 128,
    ensures
        valid_utf8(s),
        decode_utf8(s) == ascii_chars(s),
{
    let c = ascii_chars(s);
    assert(vstd::utf8::is_ascii_chars(c)) by {
        assert forall|i: int| 0 <= i < c.len() implies ((#[trigger] c[i]) as u32) < 128 by {
            assert(s[i] < 128);
        }
    }
    is_ascii_chars_encode_utf8(c);
    assert(encode_utf8(c) =~= s);
    encode_utf8_valid_utf8(c);
    encode_utf8_decode_utf8(c);
}

/// Decoding undoes encoding on the byte level.
pub proof fn lemma_decode_hex_of_hex_ascii(bs: Seq<u8>)
    ensures
        spec_decode_hex(ascii_chars(spec_hex_ascii(bs))) == Some(bs),
    decreases bs.len(),
{
    lemma_hex_ascii_len(bs);
    let h = ascii_chars(spec_hex_ascii(bs));
    if bs.len() == 0 {
        assert(h =~= Seq::<char>::empty());
        assert(bs =~= Seq::<u8>::empty());
    } else {
        let b = bs.first();
        let rest = bs.drop_first();
        lemma_decode_hex_of_hex_ascii(rest);
        lemma_hex_ascii_len(rest);
        let hrest = ascii_chars(spec_hex_ascii(rest));
        assert(h.skip(2) =~= hrest);
        assert(spec_hex_val(h[0]) == Some((b / 16) as u8));
        assert(spec_hex_val(h[1]) == Some((b % 16) as u8));
        assert((b / 16) * 16 + b % 16 == b) by {
            assert(b == 16 * (b / 16) + b % 16);
        }
        assert(seq![(b / 16 * 16 + b % 16) as u8] + rest =~= bs);
    }
}

/// Round trip: the hex rendering of any text decodes back to that text's
/// UTF-8 bytes, which are valid UTF-8 and spell the text itself.
pub proof fn lemma_hex_round_trip(t: Seq<char>)
    ensures
        spec_decode_hex(spec_hex_text(t)) == Some(encode_utf8(t)),
        valid_utf8(encode_utf8(t)),
        decode_utf8(encode_utf8(t)) == t,
{
    lemma_decode_hex_of_hex_ascii(encode_utf8(t));
    encode_utf8_valid_utf8(t);
    encode_utf8_decode_utf8(t);
}

/// Relies on `String::from_utf8`: it succeeds exactly on valid UTF-8 and
/// yields the characters those bytes encode, as vstd's UTF-8 model states
/// them.
#[verifier::external_body]
fn bytes_to_string(bytes: Vec<u8>) -> (r: Option<String>)
    ensures
        match r {
            Some(s) => valid_utf8(bytes@) && s@ == decode_utf8(bytes@),
            None => !valid_utf8(bytes@),
        },
{
    String::from_utf8(bytes).ok()
}

/// Counts of a converter's work so far.
#[derive(Debug, Clone, Copy)]
pub struct ConverterStats {
    pub operation_count: u32,
    pub last_operation: Option<u64>,
}

pub struct LumaHexConverter {
    last_operation: Option<u64>,
    operation_count: u32,
}

impl LumaHexConverter {
    pub closed spec fn spec_operation_count(self) -> u32 {
        self.operation_count
    }

    pub closed spec fn spec_last_operation(self) -> Option<u64> {
        self.last_operation
    }

    pub fn new() -> (r: LumaHexConverter)
        ensures
            r.spec_operation_count() == 0,
            r.spec_last_operation() is None,
    {
        LumaHexConverter { last_operation: None, operation_count: 0 }
    }

    /// Render `text` as the lowercase hex digits of its UTF-8 bytes.
    pub fn text_to_hex(&mut self, text: &str, now: u64) -> (r: String)
        ensures
            r@ == spec_hex_text(text@),
            final(self).spec_operation_count() == spec_inc32(old(self).spec_operation_count()),
            final(self).spec_last_operation() == Some(now),
    {
        self.last_operation = Some(now);
        self.operation_count = inc32(self.operation_count);
        let bytes = text.as_bytes();
        let n = bytes.len();
        let mut out: Vec<u8> = Vec::new();
        let mut i: usize = 0;
        proof {
            assert(out@ + spec_hex_ascii(bytes@.skip(0)) =~= spec_hex_ascii(bytes@)) by {
                assert(bytes@.skip(0) =~= bytes@);
            }
        }
        while i < n
            invariant
                n == bytes@.len(),
                i <= n,
                out@ + spec_hex_ascii(bytes@.skip(i as int)) == spec_hex_ascii(bytes@),
            decreases n - i,
        {
            let b = bytes[i];
            proof {
                let tail = bytes@.skip(i as int);
                assert(tail.first() == bytes@[i as int]);
                assert(tail.drop_first() =~= bytes@.skip(i as int + 1));
                assert(spec_hex_ascii(tail) == seq![
                    spec_hex_digit(b / 16),
                    spec_hex_digit(b % 16),
                ] + spec_hex_ascii(bytes@.skip(i as int + 1)));
            }
            let hi = b / 16;
            let lo = b % 16;
            out.push(if hi < 10 {
                48 + hi
            } else {
                87 + hi
            });
            out.push(if lo < 10 {
                48 + lo
            } else {
                87 + lo
            });
            proof {
                assert(out@ + spec_hex_ascii(bytes@.skip(i as int + 1)) =~= spec_hex_ascii(
                    bytes@,
                ));
            }
            i = i + 1;
        }
        proof {
            assert(bytes@.skip(n as int) =~= Seq::<u8>::empty());
            assert(out@ =~= spec_hex_ascii(bytes@));
            lemma_hex_ascii_is_ascii(bytes@);
            lemma_ascii_decode(out@);
        }
        match bytes_to_string(out) {
            Some(s) => s,
            None => String::new(),
        }
    }

    /// Read `hex` back into text: the exact inverse of
    /// [`LumaHexConverter::text_to_hex`] on its output, and an error on an
    /// odd length, a character that is no hex digit, or bytes that are not
    /// valid UTF-8.
    pub fn hex_to_text(&mut self, hex: &str, now: u64) -> (r: Result<String, String>)
        ensures
            final(self).spec_operation_count() == spec_inc32(old(self).spec_operation_count()),
            final(self).spec_last_operation() == Some(now),
            match r {
                Ok(t) => spec_decode_hex(hex@) matches Some(bs) && valid_utf8(bs) && t@
                    == decode_utf8(bs),
                Err(m) => {
                    &&& (spec_decode_hex(hex@) is None || !valid_utf8(
                        spec_decode_hex(hex@)->Some_0,
                    ))
                    &&& if spec_decode_hex(hex@) is None {
                        m@ == "invalid hex input"@
                    } else {
                        m@ == "decoded bytes are not valid UTF-8"@
                    }
                },
            },
    {
        self.last_operation = Some(now);
        self.operation_count = inc32(self.operation_count);
        let n = hex.unicode_len();
        if n % 2 != 0 {
            return Err(hex_error());
        }
        let mut bytes: Vec<u8> = Vec::new();
        let mut i: usize = 0;
        proof {
            assert(hex@.skip(0) =~= hex@);
        }
        while i < n
            invariant
                self.spec_operation_count() == spec_inc32(old(self).spec_operation_count()),
                self.spec_last_operation() == Some(now),
                n == hex@.len(),
                n % 2 == 0,
                i % 2 == 0,
                i <= n,
                match spec_decode_hex(hex@.skip(i as int)) {
                    Some(rest) => spec_decode_hex(hex@) == Some(bytes@ + rest),
                    None => spec_decode_hex(hex@) is None,
                },
            decreases n - i,
        {
            let ghost tail = hex@.skip(i as int);
            proof {
                assert(tail[0] == hex@[i as int]);
                assert(tail[1] == hex@[i as int + 1]);
                assert(tail.skip(2) =~= hex@.skip(i as int + 2));
            }
            let c0 = hex.get_char(i);
            let c1 = hex.get_char(i + 1);
            let hi = match hex_val(c0) {
                Some(d) => d,
                None => {
                    return Err(hex_error());
                },
            };
            let lo = match hex_val(c1) {
                Some(d) => d,
                None => {
                    return Err(hex_error());
                },
            };
            bytes.push(hi * 16 + lo);
            proof {
                let rest_opt = spec_decode_hex(hex@.skip(i as int + 2));
                if rest_opt is Some {
                    assert(bytes@ + rest_opt->Some_0 =~= bytes@.drop_last() + (seq![
                        (hi * 16 + lo) as u8,
                    ] + rest_opt->Some_0));
                }
            }
            i = i + 2;
        }
        proof {
            assert(hex@.skip(n as int) =~= Seq::<char>::empty());
            assert(bytes@ + Seq::<u8>::empty() =~= bytes@);
        }
        match bytes_to_string(bytes) {
            Some(s) => Ok(s),
            None => Err(utf8_error()),
        }
    }

    /// How many conversions ran, and when the last one did.
    pub fn get_stats(&self) -> (r: ConverterStats)
        ensures
            r.operation_count == self.spec_operation_count(),
            r.last_operation == self.spec_last_operation(),
    {
        ConverterStats {
            operation_count: self.operation_count,
            last_operation: self.last_operation,
        }
    }
}

/// The nibble an executable hex digit stands for.
fn hex_val(c: char) -> (r: Option<u8>)
    ensures
        r == spec_hex_val(c),
{
    let u = c as u32;
    if 48 <= u && u <= 57 {
        Some((u - 48) as u8)
    } else if 97 <= u && u <= 102 {
        Some((u - 87) as u8)
    } else if 65 <= u && u <= 70 {
        Some((u - 55) as u8)
    } else {
        None
    }
}

/// The parse error of [`LumaHexConverter::hex_to_text`].
fn hex_error() -> (r: String)
    ensures
        r@ == "invalid hex input"@,
{
    "invalid hex input".to_owned()
}

/// The decode error of [`LumaHexConverter::hex_to_text`].
fn utf8_error() -> (r: String)
    ensures
        r@ == "decoded bytes are not valid UTF-8"@,
{
    "decoded bytes are not valid UTF-8".to_owned()
}

} // verus!
