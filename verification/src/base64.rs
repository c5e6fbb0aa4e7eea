//! Base64, by which binary data is written into text.

use vstd::prelude::*;

verus! {

/// The six bits that a character stands for.
pub open spec fn sextet_of(c: char) -> Option<int> {
    if 'A' <= c <= 'Z' {
        Some(c as int - 65)
    } else if 'a' <= c <= 'z' {
        Some(c as int - 71)
    } else if '0' <= c <= '9' {
        Some(c as int + 4)
    } else if c == '+' || c == '-' {
        Some(62)
    } else if c == '/' || c == '_' {
        Some(63)
    } else {
        None
    }
}

/// Whether a character is passed over: white space.
pub open spec fn is_filler(c: char) -> bool {
    c == ' ' || c == '\t' || c == '\n' || c == '\r'
}

/// The bytes that the last, incomplete group stands for, added to `held`:
/// two characters stand for one byte, three for two; one alone for nothing
/// that could be decoded.
pub open spec fn finished(bits: int, count: int, held: Seq<u8>) -> Option<Seq<u8>> {
    if count == 0 {
        Some(held)
    } else if count == 2 {
        Some(held.push(((bits / 16) % 256) as u8))
    } else if count == 3 {
        Some(held.push(((bits / 1024) % 256) as u8).push(((bits / 4) % 256) as u8))
    } else {
        None
    }
}

/// The bytes that the text from `pos` on stands for, added to `held`. `bits`
/// holds the `count` characters of the group that is being read. White space
/// is passed over, a `=` ends the data, and any other character that is no
/// Base64 makes the whole undecodable.
pub open spec fn decoded_from(s: Seq<char>, pos: int, bits: int, count: int, held: Seq<u8>) -> Option<
    Seq<u8>,
>
    decreases s.len() - pos,
{
    if pos < 0 || pos >= s.len() || s[pos] == '=' {
        finished(bits, count, held)
    } else if is_filler(s[pos]) {
        decoded_from(s, pos + 1, bits, count, held)
    } else {
        match sextet_of(s[pos]) {
            None => None,
            Some(v) => if count == 3 {
                let group = bits * 64 + v;
                decoded_from(
                    s,
                    pos + 1,
                    0,
                    0,
                    held.push(((group / 65536) % 256) as u8).push(((group / 256) % 256) as u8).push(
                        (group % 256) as u8,
                    ),
                )
            } else {
                decoded_from(s, pos + 1, bits * 64 + v, count + 1, held)
            },
        }
    }
}

/// The bytes that a Base64 text stands for.
pub open spec fn base64_of(s: Seq<char>) -> Option<Seq<u8>> {
    decoded_from(s, 0, 0, 0, Seq::empty())
}

/// The six bits that a character stands for.
fn sextet(c: char) -> (r: Option<u32>)
    ensures
        match r {
            Some(v) => sextet_of(c) == Some(v as int) && v < 64,
            None => sextet_of(c).is_none(),
        },
{
    if 'A' <= c && c <= 'Z' {
        Some((c as u32) - 65)
    } else if 'a' <= c && c <= 'z' {
        Some((c as u32) - 71)
    } else if '0' <= c && c <= '9' {
        Some((c as u32) + 4)
    } else if c == '+' || c == '-' {
        Some(62)
    } else if c == '/' || c == '_' {
        Some(63)
    } else {
        None
    }
}

/// Decodes a Base64 text, with or without padding, in either alphabet.
pub fn decode_base64(text: &str) -> (r: Option<Vec<u8>>)
    ensures
        match r {
            Some(bytes) => base64_of(text@) == Some(bytes@),
            None => base64_of(text@).is_none(),
        },
{
    let v = crate::text::chars_of(text);
    let mut held: Vec<u8> = Vec::new();
    let mut bits: u32 = 0;
    let mut count: u8 = 0;
    let mut i: usize = 0;
    while i < v.len() && v[i] != '='
        invariant
            i <= v.len(),
            v@ == text@,
            count <= 3,
            count == 0 ==> bits == 0,
            count == 1 ==> bits < 64,
            count == 2 ==> bits < 4096,
            count == 3 ==> bits < 262144,
            base64_of(v@) == decoded_from(v@, i as int, bits as int, count as int, held@),
        decreases v.len() - i,
    {
        let c = v[i];
        if !(c == ' ' || c == '\t' || c == '\n' || c == '\r') {
            match sextet(c) {
                None => {
                    return None;
                },
                Some(value) => {
                    if count == 3 {
                        let group: u32 = bits * 64 + value;
                        held.push(((group / 65536) % 256) as u8);
                        held.push(((group / 256) % 256) as u8);
                        held.push((group % 256) as u8);
                        bits = 0;
                        count = 0;
                    } else {
                        bits = bits * 64 + value;
                        count = count + 1;
                    }
                },
            }
        }
        i += 1;
    }
    if count == 0 {
        Some(held)
    } else if count == 2 {
        held.push(((bits / 16) % 256) as u8);
        Some(held)
    } else if count == 3 {
        held.push(((bits / 1024) % 256) as u8);
        held.push(((bits / 4) % 256) as u8);
        Some(held)
    } else {
        None
    }
}

} // verus!
