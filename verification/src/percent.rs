//! Percent-encoding of the parts of an address.

use vstd::prelude::*;
use vstd::string::*;
use vstd::utf8::{decode_utf8, encode_utf8};

verus! {

/// Whether a byte stands for itself: letters, digits and `-`, `_`, `.`, `~`.
pub open spec fn is_unreserved(b: u8) -> bool {
    ||| 0x41 <= b <= 0x5a
    ||| 0x61 <= b <= 0x7a
    ||| 0x30 <= b <= 0x39
    ||| b == 0x2d
    ||| b == 0x5f
    ||| b == 0x2e
    ||| b == 0x7e
}

/// The upper-case hexadecimal digit of a number below sixteen.
pub open spec fn hex_digit(n: int) -> char {
    if n < 10 {
        (0x30 + n) as char
    } else {
        (0x41 + n - 10) as char
    }
}

/// What a byte is written as: itself, or `%` and two hexadecimal digits.
pub open spec fn byte_code(b: u8) -> Seq<char> {
    if is_unreserved(b) {
        seq![b as char]
    } else {
        seq!['%', hex_digit(b as int / 16), hex_digit(b as int % 16)]
    }
}

/// What bytes are written as, one after the other.
pub open spec fn percent_encoded(bytes: Seq<u8>) -> Seq<char>
    decreases bytes.len(),
{
    if bytes.len() == 0 {
        seq![]
    } else {
        percent_encoded(bytes.drop_last()) + byte_code(bytes.last())
    }
}

/// The number that an upper-case hexadecimal digit stands for.
pub open spec fn hex_value(c: char) -> int {
    if c <= '9' {
        c as int - 0x30
    } else {
        c as int - 0x41 + 10
    }
}

/// The bytes that an encoded text stands for.
pub open spec fn percent_decoded(text: Seq<char>) -> Seq<u8>
    decreases text.len(),
{
    if text.len() == 0 {
        seq![]
    } else if text.first() == '%' && text.len() >= 3 {
        seq![(16 * hex_value(text[1]) + hex_value(text[2])) as u8] + percent_decoded(text.skip(3))
    } else {
        seq![text.first() as u8] + percent_decoded(text.skip(1))
    }
}

fn hex_char(n: u8) -> (r: char)
    requires
        n < 16,
    ensures
        r == hex_digit(n as int),
{
    if n < 10 {
        (0x30 + n) as char
    } else {
        (0x41 + (n - 10)) as char
    }
}

/// Encodes a part of an address: every byte of its UTF-8 form that does not
/// stand for itself becomes `%` and two hexadecimal digits.
pub fn urlencoding_encode(input: &str) -> (r: String)
    ensures
        r@ == percent_encoded(encode_utf8(input@)),
{
    let bytes = input.as_bytes();
    let mut out = String::new();
    let mut i: usize = 0;
    while i < bytes.len()
        invariant
            i <= bytes@.len(),
            out@ == percent_encoded(bytes@.take(i as int)),
        decreases bytes.len() - i,
    {
        let b: u8 = bytes[i];
        let ghost before = out@;
        assert(bytes@.take(i + 1).drop_last() =~= bytes@.take(i as int));
        if (b >= 0x41 && b <= 0x5a) || (b >= 0x61 && b <= 0x7a) || (b >= 0x30 && b <= 0x39) || b
            == 0x2d || b == 0x5f || b == 0x2e || b == 0x7e {
            out.push(b as char);
        } else {
            out.push('%');
            out.push(hex_char(b / 16));
            out.push(hex_char(b % 16));
        }
        assert(out@ =~= before + byte_code(b));
        i = i + 1;
    }
    assert(bytes@.take(i as int) =~= bytes@);
    out
}

proof fn lemma_encoded_first(bytes: Seq<u8>)
    requires
        bytes.len() > 0,
    ensures
        percent_encoded(bytes) == byte_code(bytes.first()) + percent_encoded(bytes.drop_first()),
    decreases bytes.len(),
{
    if bytes.len() == 1 {
        assert(bytes.drop_last() =~= seq![]);
        assert(bytes.drop_first() =~= seq![]);
        assert(percent_encoded(bytes) =~= byte_code(bytes.first()) + percent_encoded(
            bytes.drop_first(),
        ));
    } else {
        lemma_encoded_first(bytes.drop_last());
        assert(bytes.drop_first().drop_last() =~= bytes.drop_last().drop_first());
        assert(percent_encoded(bytes) =~= byte_code(bytes.first()) + percent_encoded(
            bytes.drop_first(),
        ));
    }
}

proof fn lemma_bytes_come_back(bytes: Seq<u8>)
    ensures
        percent_decoded(percent_encoded(bytes)) == bytes,
    decreases bytes.len(),
{
    if bytes.len() > 0 {
        let b = bytes.first();
        let rest = bytes.drop_first();
        let code = byte_code(b);
        let all = percent_encoded(bytes);
        lemma_encoded_first(bytes);
        lemma_bytes_come_back(rest);
        if is_unreserved(b) {
            assert(all.skip(1) =~= percent_encoded(rest));
            assert(all.first() == b as char);
        } else {
            assert(all.skip(3) =~= percent_encoded(rest));
            assert(all[1] == code[1] && all[2] == code[2]);
            assert(16 * hex_value(all[1]) + hex_value(all[2]) == b);
        }
        assert(bytes =~= seq![b] + rest);
    }
}

/// An encoded text stands for the bytes it was made of, so that the text can be
/// read back from it.
pub proof fn law_encoded_text_comes_back(text: Seq<char>)
    ensures
        percent_decoded(percent_encoded(encode_utf8(text))) == encode_utf8(text),
        decode_utf8(percent_decoded(percent_encoded(encode_utf8(text)))) == text,
{
    lemma_bytes_come_back(encode_utf8(text));
    vstd::utf8::encode_utf8_decode_utf8(text);
}

/// Whether a character can stand in an encoded text.
pub open spec fn is_code_char(c: char) -> bool {
    c == '%' || (c <= '\u{7f}' && is_unreserved(c as u8))
}

/// An encoded text holds nothing but unreserved characters and `%`.
pub proof fn law_encoded_text_is_plain(bytes: Seq<u8>, i: int)
    requires
        0 <= i < percent_encoded(bytes).len(),
    ensures
        is_code_char(percent_encoded(bytes)[i]),
    decreases bytes.len(),
{
    if bytes.len() > 0 {
        if i < percent_encoded(bytes.drop_last()).len() {
            law_encoded_text_is_plain(bytes.drop_last(), i);
        }
    }
}

/// Letters, digits and `-`, `_`, `.`, `~` stand for themselves. Every other byte
/// is `%` and its two upper-case hexadecimal digits. Each byte is written by
/// itself, in its place.
pub proof fn law_each_byte_is_written_in_its_place(before: Seq<u8>, b: u8, after: Seq<u8>)
    ensures
        percent_encoded(before + seq![b] + after) == percent_encoded(before) + percent_encoded(
            seq![b],
        ) + percent_encoded(after),
        ('A' <= b as char <= 'Z' || 'a' <= b as char <= 'z' || '0' <= b as char <= '9' || b as char
            == '-' || b as char == '_' || b as char == '.' || b as char == '~') ==> percent_encoded(
            seq![b],
        ) == seq![b as char],
        !('A' <= b as char <= 'Z' || 'a' <= b as char <= 'z' || '0' <= b as char <= '9' || b as char
            == '-' || b as char == '_' || b as char == '.' || b as char == '~') ==> {
            let code = percent_encoded(seq![b]);
            &&& code.len() == 3
            &&& code[0] == '%'
            &&& forall|i: int|
                1 <= i < 3 ==> ('0' <= #[trigger] code[i] <= '9' || 'A' <= code[i] <= 'F')
        },
    decreases after.len(),
{
    reveal_with_fuel(percent_encoded, 2);
    assert(seq![b].drop_last() =~= seq![]);
    assert(percent_encoded(seq![b]) =~= byte_code(b));
    let whole = before + seq![b] + after;
    if after.len() == 0 {
        assert(whole.drop_last() =~= before);
        assert(percent_encoded(whole) =~= percent_encoded(before) + percent_encoded(seq![b])
            + percent_encoded(after));
    } else {
        let less = after.drop_last();
        law_each_byte_is_written_in_its_place(before, b, less);
        assert(whole.drop_last() =~= before + seq![b] + less);
        assert(percent_encoded(whole) =~= percent_encoded(before) + percent_encoded(seq![b])
            + percent_encoded(after));
    }
}

}
