//! The web search offered for a process: its query text, form-encoded.
use vstd::prelude::*;
use vstd::utf8::encode_utf8;
use crate::text::{char_from_ascii, push_char, push_lit};

verus! {

/// Bytes passed through unchanged: ASCII letters, digits and `-_.~`.
pub open spec fn unreserved(b: u8) -> bool {
    (0x41 <= b <= 0x5A) || (0x61 <= b <= 0x7A) || (0x30 <= b <= 0x39) || b == 0x2D || b == 0x5F
        || b == 0x2E || b == 0x7E
}

/// An upper-case hexadecimal digit.
pub open spec fn hex_digit(d: nat) -> char
    recommends
        d < 16,
{
    if d < 10 {
        (0x30 + d) as char
    } else {
        (0x41 + d - 10) as char
    }
}

/// The form encoding of one byte: itself, `+` for a space, else `%XX`.
pub open spec fn encode_byte(b: u8) -> Seq<char> {
    if unreserved(b) {
        seq![b as char]
    } else if b == 0x20 {
        seq!['+']
    } else {
        seq!['%', hex_digit((b / 16) as nat), hex_digit((b % 16) as nat)]
    }
}

/// The form encoding of a byte string, byte by byte.
pub open spec fn encode_bytes(bs: Seq<u8>) -> Seq<char>
    decreases bs.len(),
{
    if bs.len() == 0 {
        Seq::empty()
    } else {
        encode_bytes(bs.drop_last()) + encode_byte(bs.last())
    }
}

/// The form encoding of a string: of its UTF-8 bytes.
pub open spec fn url_text(s: Seq<char>) -> Seq<char> {
    encode_bytes(encode_utf8(s))
}

/// The value of a hexadecimal digit (either case).
pub open spec fn hex_value(c: char) -> nat {
    if '0' <= c <= '9' {
        (c as nat - 0x30) as nat
    } else if 'A' <= c <= 'F' {
        (c as nat - 0x41 + 10) as nat
    } else if 'a' <= c <= 'f' {
        (c as nat - 0x61 + 10) as nat
    } else {
        0
    }
}

/// Form decoding, front to back: `+` is a space, `%XY` the byte `0xXY`,
/// any other character its own code.
pub open spec fn url_decode(cs: Seq<char>) -> Seq<u8>
    decreases cs.len(),
{
    if cs.len() == 0 {
        Seq::empty()
    } else if cs[0] == '+' {
        seq![0x20u8] + url_decode(cs.skip(1))
    } else if cs[0] == '%' && cs.len() >= 3 {
        seq![(hex_value(cs[1]) * 16 + hex_value(cs[2])) as u8] + url_decode(cs.skip(3))
    } else {
        seq![cs[0] as u8] + url_decode(cs.skip(1))
    }
}

proof fn lemma_decode_byte(b: u8, t: Seq<char>)
    ensures
        url_decode(encode_byte(b) + t) == seq![b] + url_decode(t),
{
    let e = encode_byte(b);
    let cs = e + t;
    if unreserved(b) {
        assert(cs[0] == b as char);
        assert(cs.skip(1) =~= t);
        assert((b as char) as u8 == b);
    } else if b == 0x20 {
        assert(cs[0] == '+');
        assert(cs.skip(1) =~= t);
    } else {
        let hi = (b / 16) as nat;
        let lo = (b % 16) as nat;
        assert(cs[0] == '%');
        assert(cs[1] == hex_digit(hi));
        assert(cs[2] == hex_digit(lo));
        assert(hex_value(hex_digit(hi)) == hi);
        assert(hex_value(hex_digit(lo)) == lo);
        assert(cs.skip(3) =~= t);
        assert(hi * 16 + lo == b);
    }
}

proof fn lemma_decode_prefix(bs: Seq<u8>, t: Seq<char>)
    ensures
        url_decode(encode_bytes(bs) + t) == bs + url_decode(t),
    decreases bs.len(),
{
    if bs.len() == 0 {
        assert(encode_bytes(bs) + t =~= t);
        assert(bs + url_decode(t) =~= url_decode(t));
    } else {
        let init = bs.drop_last();
        let l = bs.last();
        lemma_decode_prefix(init, encode_byte(l) + t);
        lemma_decode_byte(l, t);
        assert(encode_bytes(bs) + t =~= encode_bytes(init) + (encode_byte(l) + t));
        assert(init + (seq![l] + url_decode(t)) =~= bs + url_decode(t));
    }
}

/// Form-decoding the encoding of a string (`+` as a space, each `%XY` as the
/// byte `0xXY`) gives back its UTF-8 bytes: the encoding loses nothing.
pub proof fn lemma_url_roundtrip(s: Seq<char>)
    ensures
        url_decode(url_text(s)) == encode_utf8(s),
{
    lemma_decode_prefix(encode_utf8(s), Seq::empty());
    assert(encode_bytes(encode_utf8(s)) + Seq::<char>::empty() =~= encode_bytes(encode_utf8(s)));
    assert(encode_utf8(s) + Seq::<u8>::empty() =~= encode_utf8(s));
}

/// The search URL for a process name.
pub open spec fn search_url_text(name: Seq<char>) -> Seq<char> {
    "https://www.google.com/search?q="@ + url_text("linux process "@ + name)
}

fn hex_char(d: u8) -> (c: char)
    requires
        d < 16,
    ensures
        c == hex_digit(d as nat),
{
    if d < 10 {
        char_from_ascii(0x30 + d as u32)
    } else {
        char_from_ascii(0x41 + d as u32 - 10)
    }
}

pub fn url_encode(s: &str) -> (r: String)
    ensures
        r@ == url_text(s@),
{
    let bytes = s.as_bytes();
    let mut out = String::new();
    let mut i: usize = 0;
    while i < bytes.len()
        invariant
            i <= bytes@.len(),
            bytes@ == encode_utf8(s@),
            out@ == encode_bytes(bytes@.take(i as int)),
        decreases bytes.len() - i,
    {
        let b = bytes[i];
        proof {
            assert(bytes@.take(i + 1).drop_last() =~= bytes@.take(i as int));
            assert(bytes@.take(i + 1).last() == b);
        }
        let ghost before = out@;
        if (0x41 <= b && b <= 0x5A) || (0x61 <= b && b <= 0x7A) || (0x30 <= b && b <= 0x39) || b
            == 0x2D || b == 0x5F || b == 0x2E || b == 0x7E {
            let c = char_from_ascii(b as u32);
            push_char(&mut out, c);
            proof {
                assert(c == b as char);
                assert(out@ =~= before + encode_byte(b));
            }
        } else if b == 0x20 {
            push_char(&mut out, '+');
            proof {
                assert(out@ =~= before + encode_byte(b));
            }
        } else {
            push_char(&mut out, '%');
            push_char(&mut out, hex_char(b / 16));
            push_char(&mut out, hex_char(b % 16));
            proof {
                assert(out@ =~= before + encode_byte(b));
            }
        }
        i += 1;
    }
    proof {
        assert(bytes@.take(bytes@.len() as int) =~= bytes@);
    }
    out
}

/// The URL that the "search online" action opens for a process.
pub fn search_url(name: &str) -> (r: String)
    ensures
        r@ == search_url_text(name@),
{
    let mut q = String::new();
    push_lit(&mut q, "linux process ");
    push_lit(&mut q, name);
    let enc = url_encode(q.as_str());
    let mut out = String::new();
    push_lit(&mut out, "https://www.google.com/search?q=");
    push_lit(&mut out, enc.as_str());
    out
}

} // verus!
