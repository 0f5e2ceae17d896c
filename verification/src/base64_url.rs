//! Base64 with the URL-safe alphabet and no padding.
//!
//! The encoding of a byte string is given position by position: character
//! `j` of the text carries six bits of the group of three bytes that it
//! belongs to. Decoding is given the same way, and the two are proved to be
//! inverse to each other.

use vstd::prelude::*;

verus! {

/// The character that stands for a six-bit value: `A`-`Z`, `a`-`z`, `0`-`9`,
/// then `-` for 62 and `_` for 63.
pub open spec fn sextet_char(v: int) -> u8 {
    if v < 26 {
        (65 + v) as u8
    } else if v < 52 {
        (71 + v) as u8
    } else if v < 62 {
        (v - 4) as u8
    } else if v == 62 {
        45u8
    } else {
        95u8
    }
}

/// The six-bit value that a character stands for, if it is in the alphabet.
pub open spec fn char_sextet(c: u8) -> Option<u8> {
    if 65 <= c <= 90 {
        Some((c - 65) as u8)
    } else if 97 <= c <= 122 {
        Some((c - 71) as u8)
    } else if 48 <= c <= 57 {
        Some((c + 4) as u8)
    } else if c == 45 {
        Some(62u8)
    } else if c == 95 {
        Some(63u8)
    } else {
        None
    }
}

/// Byte `i` of `data`, or zero beyond its end.
pub open spec fn byte_at(data: Seq<u8>, i: int) -> int {
    if 0 <= i < data.len() {
        data[i] as int
    } else {
        0
    }
}

/// The six-bit value carried by character `j` of the encoding of `data`.
pub open spec fn sextet_at(data: Seq<u8>, j: int) -> int {
    let g = j / 4;
    let b0 = byte_at(data, 3 * g);
    let b1 = byte_at(data, 3 * g + 1);
    let b2 = byte_at(data, 3 * g + 2);
    if j % 4 == 0 {
        b0 / 4
    } else if j % 4 == 1 {
        (b0 % 4) * 16 + b1 / 16
    } else if j % 4 == 2 {
        (b1 % 16) * 4 + b2 / 64
    } else {
        b2 % 64
    }
}

/// The number of characters that encode `n` bytes.
pub open spec fn encoded_len(n: nat) -> nat {
    if n % 3 == 0 {
        (n / 3) * 4
    } else {
        (n / 3) * 4 + (n % 3) + 1
    }
}

/// The unpadded URL-safe base64 text of `data`.
pub open spec fn encode_spec(data: Seq<u8>) -> Seq<u8> {
    Seq::new(encoded_len(data.len()), |j: int| sextet_char(sextet_at(data, j)))
}

/// The six-bit value of character `j` of `text`; zero where the character is
/// not in the alphabet or `j` is beyond the end.
pub open spec fn value_at(text: Seq<u8>, j: int) -> int {
    if 0 <= j < text.len() {
        match char_sextet(text[j]) {
            Some(v) => v as int,
            None => 0,
        }
    } else {
        0
    }
}

/// A text is canonical when its length is possible, every character is in
/// the alphabet and the bits of the last character that encode nothing are
/// zero.
pub open spec fn canonical(text: Seq<u8>) -> bool {
    &&& text.len() % 4 != 1
    &&& forall|j: int| 0 <= j < text.len() ==> (#[trigger] char_sextet(text[j])).is_some()
    &&& text.len() % 4 == 2 ==> value_at(text, text.len() - 1) % 16 == 0
    &&& text.len() % 4 == 3 ==> value_at(text, text.len() - 1) % 4 == 0
}

/// The number of bytes that a canonical text of `m` characters encodes.
pub open spec fn decoded_len(m: nat) -> nat {
    if m % 4 == 0 {
        (m / 4) * 3
    } else {
        ((m / 4) * 3 + (m % 4) - 1) as nat
    }
}

/// Byte `i` of what `text` encodes.
pub open spec fn decoded_byte(text: Seq<u8>, i: int) -> int {
    let g = i / 3;
    let s0 = value_at(text, 4 * g);
    let s1 = value_at(text, 4 * g + 1);
    let s2 = value_at(text, 4 * g + 2);
    let s3 = value_at(text, 4 * g + 3);
    if i % 3 == 0 {
        s0 * 4 + s1 / 16
    } else if i % 3 == 1 {
        (s1 % 16) * 16 + s2 / 4
    } else {
        (s2 % 4) * 64 + s3
    }
}

/// The bytes that `text` encodes, or `None` where it is not canonical.
pub open spec fn decode_spec(text: Seq<u8>) -> Option<Seq<u8>> {
    if canonical(text) {
        Some(Seq::new(decoded_len(text.len()), |i: int| decoded_byte(text, i) as u8))
    } else {
        None
    }
}

/// Decoding the encoding of any byte string gives the byte string back.
pub proof fn lemma_round_trip(data: Seq<u8>)
    ensures
        decode_spec(encode_spec(data)) == Some(data),
{
    let text = encode_spec(data);
    let n = data.len();
    assert(text.len() == encoded_len(n));
    assert(decoded_len(text.len()) == n);
    assert forall|j: int| 0 <= j < text.len() implies value_at(text, j) == sextet_at(data, j) by {
        let v = sextet_at(data, j);
        assert(0 <= v < 64);
        assert(text[j] == sextet_char(v));
        assert(char_sextet(sextet_char(v)) == Some(v as u8));
    }
    assert forall|j: int| 0 <= j < text.len() implies (#[trigger] char_sextet(text[j])).is_some() by {
        assert(value_at(text, j) == sextet_at(data, j));
        let v = sextet_at(data, j);
        assert(char_sextet(sextet_char(v)) == Some(v as u8));
    }
    assert(canonical(text));
    let back = decode_spec(text).unwrap();
    assert forall|i: int| 0 <= i < n implies back[i] == data[i] by {
        let g = i / 3;
        assert(4 * g + 1 < text.len());
        assert(value_at(text, 4 * g) == sextet_at(data, 4 * g));
        assert(value_at(text, 4 * g + 1) == sextet_at(data, 4 * g + 1));
        if 4 * g + 2 < text.len() {
            assert(value_at(text, 4 * g + 2) == sextet_at(data, 4 * g + 2));
        }
        if 4 * g + 3 < text.len() {
            assert(value_at(text, 4 * g + 3) == sextet_at(data, 4 * g + 3));
        }
        assert(decoded_byte(text, i) == data[i] as int);
    }
    assert(back =~= data);
}

/// A payload of 32 bytes is encoded in 43 characters.
pub proof fn lemma_encoded_len_of_32(data: Seq<u8>)
    requires
        data.len() == 32,
    ensures
        encode_spec(data).len() == 43,
{
}

/// The character for a six-bit value.
pub fn encode_sextet(v: u8) -> (c: u8)
    requires
        v < 64,
    ensures
        c == sextet_char(v as int),
        char_sextet(c) == Some(v),
{
    if v < 26 {
        65 + v
    } else if v < 52 {
        71 + v
    } else if v < 62 {
        v - 4
    } else if v == 62 {
        45
    } else {
        95
    }
}

/// The six-bit value of a character of the alphabet.
pub fn decode_char(c: u8) -> (r: Option<u8>)
    ensures
        r == char_sextet(c),
        r is Some ==> r.unwrap() < 64,
{
    if 65 <= c && c <= 90 {
        Some(c - 65)
    } else if 97 <= c && c <= 122 {
        Some(c - 71)
    } else if 48 <= c && c <= 57 {
        Some(c + 4)
    } else if c == 45 {
        Some(62)
    } else if c == 95 {
        Some(63)
    } else {
        None
    }
}

/// Encodes `data` as unpadded URL-safe base64.
pub fn encode(data: &[u8]) -> (out: Vec<u8>)
    ensures
        out@ == encode_spec(data@),
        out@.len() == encoded_len(data@.len()),
        decode_spec(out@) == Some(data@),
{
    let n: usize = data.len();
    let mut out: Vec<u8> = Vec::new();
    let mut i: usize = 0;
    while n - i >= 3
        invariant
            n == data@.len(),
            i <= n,
            i % 3 == 0,
            out@.len() == (i / 3) * 4,
            forall|j: int| 0 <= j < out@.len() ==> out@[j] == sextet_char(sextet_at(data@, j)),
        decreases n - i,
    {
        let b0: u8 = data[i];
        let b1: u8 = data[i + 1];
        let b2: u8 = data[i + 2];
        let ghost before = out@;
        out.push(encode_sextet(b0 / 4));
        out.push(encode_sextet((b0 % 4) * 16 + b1 / 16));
        out.push(encode_sextet((b1 % 16) * 4 + b2 / 64));
        out.push(encode_sextet(b2 % 64));
        proof {
            let base = before.len() as int;
            assert(base / 4 == i / 3);
            assert forall|j: int| 0 <= j < out@.len() implies out@[j] == sextet_char(
                sextet_at(data@, j),
            ) by {
                if j >= base {
                    assert(j / 4 == i / 3);
                    assert(3 * (j / 4) == i);
                } else {
                    assert(out@[j] == before[j]);
                }
            }
        }
        i = i + 3;
    }
    if n - i == 1 {
        let b0: u8 = data[i];
        let ghost before = out@;
        out.push(encode_sextet(b0 / 4));
        out.push(encode_sextet((b0 % 4) * 16));
        proof {
            let base = before.len() as int;
            assert forall|j: int| 0 <= j < out@.len() implies out@[j] == sextet_char(
                sextet_at(data@, j),
            ) by {
                if j >= base {
                    assert(j / 4 == i / 3);
                    assert(3 * (j / 4) == i);
                } else {
                    assert(out@[j] == before[j]);
                }
            }
        }
    } else if n - i == 2 {
        let b0: u8 = data[i];
        let b1: u8 = data[i + 1];
        let ghost before = out@;
        out.push(encode_sextet(b0 / 4));
        out.push(encode_sextet((b0 % 4) * 16 + b1 / 16));
        out.push(encode_sextet((b1 % 16) * 4));
        proof {
            let base = before.len() as int;
            assert forall|j: int| 0 <= j < out@.len() implies out@[j] == sextet_char(
                sextet_at(data@, j),
            ) by {
                if j >= base {
                    assert(j / 4 == i / 3);
                    assert(3 * (j / 4) == i);
                } else {
                    assert(out@[j] == before[j]);
                }
            }
        }
    }
    proof {
        assert(out@.len() == encoded_len(data@.len()));
        assert(out@ =~= encode_spec(data@));
        lemma_round_trip(data@);
    }
    out
}

/// Decodes unpadded URL-safe base64; `None` where the text is not canonical.
pub fn decode(text: &[u8]) -> (r: Option<Vec<u8>>)
    ensures
        match r {
            Some(v) => decode_spec(text@) == Some(v@),
            None => decode_spec(text@).is_none(),
        },
{
    let n: usize = text.len();
    if n % 4 == 1 {
        return None;
    }
    let mut out: Vec<u8> = Vec::new();
    let mut i: usize = 0;
    while n - i >= 4
        invariant
            n == text@.len(),
            i <= n,
            i % 4 == 0,
            out@.len() == (i / 4) * 3,
            forall|j: int| 0 <= j < i ==> (#[trigger] char_sextet(text@[j])).is_some(),
            forall|k: int| 0 <= k < out@.len() ==> out@[k] == decoded_byte(text@, k) as u8,
        decreases n - i,
    {
        let s0: u8 = match decode_char(text[i]) {
            Some(v) => v,
            None => { return None; },
        };
        let s1: u8 = match decode_char(text[i + 1]) {
            Some(v) => v,
            None => { return None; },
        };
        let s2: u8 = match decode_char(text[i + 2]) {
            Some(v) => v,
            None => { return None; },
        };
        let s3: u8 = match decode_char(text[i + 3]) {
            Some(v) => v,
            None => { return None; },
        };
        let ghost before = out@;
        out.push(s0 * 4 + s1 / 16);
        out.push((s1 % 16) * 16 + s2 / 4);
        out.push((s2 % 4) * 64 + s3);
        proof {
            let base = before.len() as int;
            assert(base / 3 == i / 4);
            assert forall|k: int| 0 <= k < out@.len() implies out@[k] == decoded_byte(
                text@,
                k,
            ) as u8 by {
                if k >= base {
                    assert(k / 3 == i / 4);
                    assert(4 * (k / 3) == i);
                } else {
                    assert(out@[k] == before[k]);
                }
            }
        }
        i = i + 4;
    }
    if n - i >= 2 {
        let s0: u8 = match decode_char(text[i]) {
            Some(v) => v,
            None => { return None; },
        };
        let s1: u8 = match decode_char(text[i + 1]) {
            Some(v) => v,
            None => { return None; },
        };
        let ghost before = out@;
        if n - i == 2 {
            if s1 % 16 != 0 {
                return None;
            }
            out.push(s0 * 4 + s1 / 16);
        } else {
            let s2: u8 = match decode_char(text[i + 2]) {
                Some(v) => v,
                None => { return None; },
            };
            if s2 % 4 != 0 {
                return None;
            }
            out.push(s0 * 4 + s1 / 16);
            out.push((s1 % 16) * 16 + s2 / 4);
        }
        proof {
            let base = before.len() as int;
            assert forall|k: int| 0 <= k < out@.len() implies out@[k] == decoded_byte(
                text@,
                k,
            ) as u8 by {
                if k >= base {
                    assert(k / 3 == i / 4);
                    assert(4 * (k / 3) == i);
                } else {
                    assert(out@[k] == before[k]);
                }
            }
        }
    }
    proof {
        assert(canonical(text@));
        assert(out@ =~= decode_spec(text@).unwrap());
    }
    Some(out)
}

} // verus!
