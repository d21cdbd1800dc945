//! The binary-to-text codec: a fixed 64-symbol alphabet with `=` padding.
//!
//! `encode64` and `decode64` are the mathematical models; `base64_encode`
//! and `base64_decode` are the executable pair proved against them.
//! Decoding is deliberately lenient: it stops at the first `=` and silently
//! skips any byte outside the alphabet.

use crate::text::{ascii_chars_of, lemma_ascii_bytes_utf8, string_from_utf8};
use vstd::arithmetic::power2::{lemma2_to64, pow2};
use vstd::pervasive::unreached;
use vstd::prelude::*;
use vstd::string::StringSliceAdditionalSpecFns;
use vstd::utf8::{encode_utf8, encode_utf8_decode_utf8};

verus! {

/// The ASCII code of the `=` padding symbol.
pub const PAD: u8 = 61;

/// The alphabet symbol (as an ASCII byte) for a 6-bit value:
/// `A`..`Z`, then `a`..`z`, then `0`..`9`, then `+` and `/`.
pub open spec fn sym_byte(v: int) -> u8 {
    if 0 <= v < 26 {
        (65 + v) as u8
    } else if 26 <= v < 52 {
        (71 + v) as u8
    } else if 52 <= v < 62 {
        (v - 4) as u8
    } else if v == 62 {
        43u8
    } else {
        47u8
    }
}

/// The 6-bit value of an ASCII byte, when the byte is an alphabet symbol.
pub open spec fn sym_value(b: u8) -> Option<u8> {
    if 65 <= b <= 90 {
        Some((b - 65) as u8)
    } else if 97 <= b <= 122 {
        Some((b - 71) as u8)
    } else if 48 <= b <= 57 {
        Some((b + 4) as u8)
    } else if b == 43 {
        Some(62u8)
    } else if b == 47 {
        Some(63u8)
    } else {
        None
    }
}

/// The encoding of a byte sequence: groups of three bytes become four
/// symbols; a final group of one or two bytes is zero-padded into two or
/// three symbols and completed with `=`.
pub open spec fn encode64(b: Seq<u8>) -> Seq<u8>
    decreases b.len(),
{
    if b.len() == 0 {
        seq![]
    } else if b.len() == 1 {
        let b0 = b[0] as int;
        seq![
            sym_byte(b0 / 4),
            sym_byte((b0 % 4) * 16),
            PAD,
            PAD,
        ]
    } else if b.len() == 2 {
        let b0 = b[0] as int;
        let b1 = b[1] as int;
        seq![
            sym_byte(b0 / 4),
            sym_byte((b0 % 4) * 16 + b1 / 16),
            sym_byte((b1 % 16) * 4),
            PAD,
        ]
    } else {
        let b0 = b[0] as int;
        let b1 = b[1] as int;
        let b2 = b[2] as int;
        seq![
            sym_byte(b0 / 4),
            sym_byte((b0 % 4) * 16 + b1 / 16),
            sym_byte((b1 % 16) * 4 + b2 / 64),
            sym_byte(b2 % 64),
        ] + encode64(b.skip(3))
    }
}

/// The lenient decoder as a state machine: `acc` holds the `nbits` bits
/// gathered so far. Each alphabet symbol contributes six bits; once eight
/// or more bits are gathered the top eight leave as one byte. The first
/// `=` stops the scan; any other byte outside the alphabet is skipped.
pub open spec fn decode64_from(s: Seq<u8>, acc: nat, nbits: nat) -> Seq<u8>
    decreases s.len(),
{
    if s.len() == 0 {
        seq![]
    } else if s[0] == PAD {
        seq![]
    } else {
        match sym_value(s[0]) {
            None => decode64_from(s.drop_first(), acc, nbits),
            Some(v) => {
                let acc2 = (acc * 64 + v) as nat;
                if nbits + 6 >= 8 {
                    let keep = pow2((nbits + 6 - 8) as nat) as int;
                    seq![(acc2 as int / keep) as u8] + decode64_from(
                        s.drop_first(),
                        (acc2 as int % keep) as nat,
                        (nbits + 6 - 8) as nat,
                    )
                } else {
                    decode64_from(s.drop_first(), acc2, (nbits + 6) as nat)
                }
            },
        }
    }
}

/// The decoding of a byte sequence, started with an empty bit store.
pub open spec fn decode64(s: Seq<u8>) -> Seq<u8> {
    decode64_from(s, 0, 0)
}

/// Every alphabet symbol is an ASCII byte distinct from the padding symbol,
/// and decodes back to the value it encodes.
pub proof fn lemma_sym_roundtrip(v: int)
    requires
        0 <= v < 64,
    ensures
        sym_byte(v) < 128,
        sym_byte(v) != PAD,
        sym_value(sym_byte(v)) == Some(v as u8),
{
}

/// The executable symbol table: the alphabet byte of a 6-bit value.
fn sym_byte_of(v: u8) -> (r: u8)
    requires
        v < 64,
    ensures
        r == sym_byte(v as int),
{
    if v < 26 {
        65 + v
    } else if v < 52 {
        71 + v
    } else if v < 62 {
        v - 4
    } else if v == 62 {
        43
    } else {
        47
    }
}

/// Every byte of an encoding is ASCII: an alphabet symbol or padding.
pub proof fn lemma_encode64_ascii(b: Seq<u8>)
    ensures
        forall|i: int| 0 <= i < encode64(b).len() ==> encode64(b)[i] < 128,
    decreases b.len(),
{
    if b.len() == 0 {
    } else if b.len() == 1 {
        let b0 = b[0] as int;
        lemma_sym_roundtrip(b0 / 4);
        lemma_sym_roundtrip((b0 % 4) * 16);
    } else if b.len() == 2 {
        let b0 = b[0] as int;
        let b1 = b[1] as int;
        lemma_sym_roundtrip(b0 / 4);
        lemma_sym_roundtrip((b0 % 4) * 16 + b1 / 16);
        lemma_sym_roundtrip((b1 % 16) * 4);
    } else {
        let b0 = b[0] as int;
        let b1 = b[1] as int;
        let b2 = b[2] as int;
        lemma_sym_roundtrip(b0 / 4);
        lemma_sym_roundtrip((b0 % 4) * 16 + b1 / 16);
        lemma_sym_roundtrip((b1 % 16) * 4 + b2 / 64);
        lemma_sym_roundtrip(b2 % 64);
        lemma_encode64_ascii(b.skip(3));
        let head = seq![
            sym_byte(b0 / 4),
            sym_byte((b0 % 4) * 16 + b1 / 16),
            sym_byte((b1 % 16) * 4 + b2 / 64),
            sym_byte(b2 % 64),
        ];
        let tail = encode64(b.skip(3));
        assert forall|i: int| 0 <= i < encode64(b).len() implies encode64(b)[i] < 128 by {
            if i < 4 {
                assert(encode64(b)[i] == head[i]);
            } else {
                assert(encode64(b)[i] == tail[i - 4]);
            }
        }
    }
}

/// Encodes a byte buffer into its textual form.
///
/// The result spells `encode64` of the input, one ASCII character per
/// output symbol.
pub fn base64_encode(input: &[u8]) -> (r: String)
    ensures
        r@ == ascii_chars_of(encode64(input@)),
        encode_utf8(r@) == encode64(input@),
        r@.len() == ((input@.len() + 2) / 3) * 4,
{
    let n = input.len();
    let mut out: Vec<u8> = Vec::new();
    let mut i: usize = 0;
    proof {
        assert(input@.skip(0) =~= input@);
        assert(out@ + encode64(input@) =~= encode64(input@));
    }
    while n - i >= 3
        invariant
            i <= n,
            n == input@.len(),
            encode64(input@) == out@ + encode64(input@.skip(i as int)),
        decreases n - i,
    {
        let b0 = input[i];
        let b1 = input[i + 1];
        let b2 = input[i + 2];
        let ghost prev = out@;
        out.push(sym_byte_of(b0 / 4));
        out.push(sym_byte_of((b0 % 4) * 16 + b1 / 16));
        out.push(sym_byte_of((b1 % 16) * 4 + b2 / 64));
        out.push(sym_byte_of(b2 % 64));
        proof {
            let rest = input@.skip(i as int);
            assert(rest[0] == b0 && rest[1] == b1 && rest[2] == b2);
            assert(rest.skip(3) =~= input@.skip(i + 3));
            assert(out@ =~= prev + seq![
                sym_byte(b0 as int / 4),
                sym_byte((b0 as int % 4) * 16 + b1 as int / 16),
                sym_byte((b1 as int % 16) * 4 + b2 as int / 64),
                sym_byte(b2 as int % 64),
            ]);
            assert(out@ + encode64(input@.skip(i + 3)) =~= prev + encode64(rest));
        }
        i = i + 3;
    }
    let ghost tail = input@.skip(i as int);
    if n - i == 1 {
        let b0 = input[i];
        let ghost prev = out@;
        out.push(sym_byte_of(b0 / 4));
        out.push(sym_byte_of((b0 % 4) * 16));
        out.push(PAD);
        out.push(PAD);
        proof {
            assert(tail[0] == b0 && tail.len() == 1);
            assert(out@ =~= prev + encode64(tail));
            assert(out@ =~= encode64(input@));
        }
    } else if n - i == 2 {
        let b0 = input[i];
        let b1 = input[i + 1];
        let ghost prev = out@;
        out.push(sym_byte_of(b0 / 4));
        out.push(sym_byte_of((b0 % 4) * 16 + b1 / 16));
        out.push(sym_byte_of((b1 % 16) * 4));
        out.push(PAD);
        proof {
            assert(tail[0] == b0 && tail[1] == b1 && tail.len() == 2);
            assert(out@ =~= prev + encode64(tail));
            assert(out@ =~= encode64(input@));
        }
    } else {
        proof {
            assert(tail.len() == 0);
            assert(out@ =~= encode64(input@));
        }
    }
    proof {
        lemma_encode64_ascii(input@);
        lemma_ascii_bytes_utf8(out@);
        lemma_encode_len(input@);
    }
    match string_from_utf8(out) {
        Some(s) => {
            proof {
                encode_utf8_decode_utf8(s@);
            }
            s
        },
        None => unreached(),
    }
}

/// The executable inverse symbol table.
fn sym_value_of(b: u8) -> (r: Option<u8>)
    ensures
        r == sym_value(b),
{
    if 65 <= b && b <= 90 {
        Some(b - 65)
    } else if 97 <= b && b <= 122 {
        Some(b - 71)
    } else if 48 <= b && b <= 57 {
        Some(b + 4)
    } else if b == 43 {
        Some(62)
    } else if b == 47 {
        Some(63)
    } else {
        None
    }
}

/// Decodes the textual form back into bytes, leniently.
///
/// The scan works on the text's UTF-8 bytes: it stops at the first `=`,
/// skips every byte outside the alphabet, and gathers six bits per symbol,
/// releasing each completed byte.
pub fn base64_decode(encoded: &str) -> (r: Vec<u8>)
    ensures
        r@ == decode64(encoded.spec_bytes()),
{
    let bytes: &[u8] = encoded.as_bytes();
    let n = bytes.len();
    let mut out: Vec<u8> = Vec::new();
    let mut acc: u32 = 0;
    let mut nbits: u32 = 0;
    let mut i: usize = 0;
    proof {
        assert(bytes@.skip(0) =~= bytes@);
        assert(out@ + decode64_from(bytes@, 0, 0) =~= decode64_from(bytes@, 0, 0));
    }
    while i < n
        invariant
            i <= n,
            n == bytes@.len(),
            bytes@ == encoded.spec_bytes(),
            (nbits == 0 && acc == 0) || (nbits == 2 && acc < 4) || (nbits == 4 && acc < 16) || (
            nbits == 6 && acc < 64),
            decode64(encoded.spec_bytes()) == out@ + decode64_from(
                bytes@.skip(i as int),
                acc as nat,
                nbits as nat,
            ),
        decreases n - i,
    {
        let ghost rest = bytes@.skip(i as int);
        let b = bytes[i];
        proof {
            assert(rest[0] == b);
            assert(rest.drop_first() =~= bytes@.skip(i + 1));
        }
        if b == PAD {
            proof {
                assert(decode64_from(rest, acc as nat, nbits as nat) =~= seq![]);
                assert(out@ =~= decode64(encoded.spec_bytes()));
            }
            return out;
        }
        match sym_value_of(b) {
            None => {
                proof {
                    assert(decode64_from(rest, acc as nat, nbits as nat) == decode64_from(
                        rest.drop_first(),
                        acc as nat,
                        nbits as nat,
                    ));
                }
            },
            Some(v) => {
                if nbits == 0 {
                    acc = v as u32;
                    nbits = 6;
                } else {
                    let acc2: u32 = acc * 64 + v as u32;
                    let keep: u32 = if nbits == 2 {
                        1
                    } else if nbits == 4 {
                        4
                    } else {
                        16
                    };
                    let ghost prev = out@;
                    out.push((acc2 / keep) as u8);
                    proof {
                        lemma2_to64();
                        assert(keep == pow2((nbits + 6 - 8) as nat));
                        assert(decode64_from(rest, acc as nat, nbits as nat) == seq![
                            (acc2 / keep) as u8,
                        ] + decode64_from(
                            rest.drop_first(),
                            (acc2 % keep) as nat,
                            (nbits - 2) as nat,
                        ));
                        assert(out@ + decode64_from(
                            bytes@.skip(i + 1),
                            (acc2 % keep) as nat,
                            (nbits - 2) as nat,
                        ) =~= prev + decode64_from(rest, acc as nat, nbits as nat));
                    }
                    acc = acc2 % keep;
                    nbits = nbits - 2;
                }
            },
        }
        i = i + 1;
    }
    proof {
        assert(bytes@.skip(n as int) =~= Seq::<u8>::empty());
        assert(out@ =~= decode64(encoded.spec_bytes()));
    }
    out
}

// Decoding a full symbol group releases the three bytes it encodes and
// returns the bit store to empty, so decoding continues independently.
proof fn lemma_decode_group(b0: u8, b1: u8, b2: u8, rest: Seq<u8>)
    ensures
        ({
            let g = seq![
                sym_byte(b0 as int / 4),
                sym_byte((b0 as int % 4) * 16 + b1 as int / 16),
                sym_byte((b1 as int % 16) * 4 + b2 as int / 64),
                sym_byte(b2 as int % 64),
            ];
            decode64_from(g + rest, 0, 0) == seq![b0, b1, b2] + decode64_from(rest, 0, 0)
        }),
{
    lemma2_to64();
    let b0i = b0 as int;
    let b1i = b1 as int;
    let b2i = b2 as int;
    let v0 = b0i / 4;
    let v1 = (b0i % 4) * 16 + b1i / 16;
    let v2 = (b1i % 16) * 4 + b2i / 64;
    let v3 = b2i % 64;
    lemma_sym_roundtrip(v0);
    lemma_sym_roundtrip(v1);
    lemma_sym_roundtrip(v2);
    lemma_sym_roundtrip(v3);
    let a1 = b1i / 16;
    let a2 = b2i / 64;
    let s0 = seq![sym_byte(v0), sym_byte(v1), sym_byte(v2), sym_byte(v3)] + rest;
    let s1 = seq![sym_byte(v1), sym_byte(v2), sym_byte(v3)] + rest;
    let s2 = seq![sym_byte(v2), sym_byte(v3)] + rest;
    let s3 = seq![sym_byte(v3)] + rest;
    assert(s0.drop_first() =~= s1);
    assert(s1.drop_first() =~= s2);
    assert(s2.drop_first() =~= s3);
    assert(s3.drop_first() =~= rest);
    assert(decode64_from(s0, 0, 0) == decode64_from(s1, v0 as nat, 6));
    assert((v0 * 64 + v1) / 16 == b0i && (v0 * 64 + v1) % 16 == a1) by (nonlinear_arith)
        requires
            v0 == b0i / 4,
            v1 == (b0i % 4) * 16 + b1i / 16,
            a1 == b1i / 16,
            0 <= b0i < 256,
            0 <= b1i < 256,
    ;
    assert(decode64_from(s1, v0 as nat, 6) == seq![b0] + decode64_from(s2, a1 as nat, 4));
    assert((a1 * 64 + v2) / 4 == b1i && (a1 * 64 + v2) % 4 == a2) by (nonlinear_arith)
        requires
            a1 == b1i / 16,
            v2 == (b1i % 16) * 4 + b2i / 64,
            a2 == b2i / 64,
            0 <= b1i < 256,
            0 <= b2i < 256,
    ;
    assert(decode64_from(s2, a1 as nat, 4) == seq![b1] + decode64_from(s3, a2 as nat, 2));
    assert((a2 * 64 + v3) / 1 == b2i && (a2 * 64 + v3) % 1 == 0) by (nonlinear_arith)
        requires
            a2 == b2i / 64,
            v3 == b2i % 64,
            0 <= b2i < 256,
    ;
    assert(decode64_from(s3, a2 as nat, 2) == seq![b2] + decode64_from(rest, 0, 0));
    assert(decode64_from(s0, 0, 0) =~= seq![b0, b1, b2] + decode64_from(rest, 0, 0));
}

// Decoding the padded group of a single trailing byte releases that byte
// and stops at the padding.
proof fn lemma_decode_tail1(b0: u8)
    ensures
        decode64_from(
            seq![sym_byte(b0 as int / 4), sym_byte((b0 as int % 4) * 16), PAD, PAD],
            0,
            0,
        ) == seq![b0],
{
    lemma2_to64();
    let b0i = b0 as int;
    let v0 = b0i / 4;
    let v1 = (b0i % 4) * 16;
    lemma_sym_roundtrip(v0);
    lemma_sym_roundtrip(v1);
    let s0 = seq![sym_byte(v0), sym_byte(v1), PAD, PAD];
    let s1 = seq![sym_byte(v1), PAD, PAD];
    let s2 = seq![PAD, PAD];
    assert(s0.drop_first() =~= s1);
    assert(s1.drop_first() =~= s2);
    assert(decode64_from(s0, 0, 0) == decode64_from(s1, v0 as nat, 6));
    assert((v0 * 64 + v1) / 16 == b0i && (v0 * 64 + v1) % 16 == 0) by (nonlinear_arith)
        requires
            v0 == b0i / 4,
            v1 == (b0i % 4) * 16,
            0 <= b0i < 256,
    ;
    assert(decode64_from(s1, v0 as nat, 6) == seq![b0] + decode64_from(s2, 0, 4));
    assert(decode64_from(s2, 0, 4) == Seq::<u8>::empty());
    assert(decode64_from(s0, 0, 0) =~= seq![b0]);
}

// Decoding the padded group of two trailing bytes releases those bytes and
// stops at the padding.
proof fn lemma_decode_tail2(b0: u8, b1: u8)
    ensures
        decode64_from(
            seq![
                sym_byte(b0 as int / 4),
                sym_byte((b0 as int % 4) * 16 + b1 as int / 16),
                sym_byte((b1 as int % 16) * 4),
                PAD,
            ],
            0,
            0,
        ) == seq![b0, b1],
{
    lemma2_to64();
    let b0i = b0 as int;
    let b1i = b1 as int;
    let v0 = b0i / 4;
    let v1 = (b0i % 4) * 16 + b1i / 16;
    let v2 = (b1i % 16) * 4;
    lemma_sym_roundtrip(v0);
    lemma_sym_roundtrip(v1);
    lemma_sym_roundtrip(v2);
    let a1 = b1i / 16;
    let s0 = seq![sym_byte(v0), sym_byte(v1), sym_byte(v2), PAD];
    let s1 = seq![sym_byte(v1), sym_byte(v2), PAD];
    let s2 = seq![sym_byte(v2), PAD];
    let s3 = seq![PAD];
    assert(s0.drop_first() =~= s1);
    assert(s1.drop_first() =~= s2);
    assert(s2.drop_first() =~= s3);
    assert(decode64_from(s0, 0, 0) == decode64_from(s1, v0 as nat, 6));
    assert((v0 * 64 + v1) / 16 == b0i && (v0 * 64 + v1) % 16 == a1) by (nonlinear_arith)
        requires
            v0 == b0i / 4,
            v1 == (b0i % 4) * 16 + b1i / 16,
            a1 == b1i / 16,
            0 <= b0i < 256,
            0 <= b1i < 256,
    ;
    assert(decode64_from(s1, v0 as nat, 6) == seq![b0] + decode64_from(s2, a1 as nat, 4));
    assert((a1 * 64 + v2) / 4 == b1i && (a1 * 64 + v2) % 4 == 0) by (nonlinear_arith)
        requires
            a1 == b1i / 16,
            v2 == (b1i % 16) * 4,
            0 <= b1i < 256,
    ;
    assert(decode64_from(s2, a1 as nat, 4) == seq![b1] + decode64_from(s3, 0, 2));
    assert(decode64_from(s3, 0, 2) == Seq::<u8>::empty());
    assert(decode64_from(s0, 0, 0) =~= seq![b0, b1]);
}

/// The round-trip law: decoding an encoding returns the bytes that were
/// encoded, for every byte sequence.
pub proof fn lemma_decode_of_encode(b: Seq<u8>)
    ensures
        decode64(encode64(b)) == b,
    decreases b.len(),
{
    if b.len() == 0 {
        assert(decode64(encode64(b)) =~= b);
    } else if b.len() == 1 {
        lemma_decode_tail1(b[0]);
        assert(b =~= seq![b[0]]);
    } else if b.len() == 2 {
        lemma_decode_tail2(b[0], b[1]);
        assert(b =~= seq![b[0], b[1]]);
    } else {
        lemma_decode_group(b[0], b[1], b[2], encode64(b.skip(3)));
        lemma_decode_of_encode(b.skip(3));
        assert(b =~= seq![b[0], b[1], b[2]] + b.skip(3));
    }
}

/// The length law: an encoding holds four symbols for every started group
/// of three bytes, so its length is always a multiple of four.
pub proof fn lemma_encode_len(b: Seq<u8>)
    ensures
        encode64(b).len() == ((b.len() + 2) / 3) * 4,
        encode64(b).len() % 4 == 0,
    decreases b.len(),
{
    if b.len() <= 2 {
    } else {
        lemma_encode_len(b.skip(3));
        let n = b.len() as int;
        assert((n + 2) / 3 == (n - 1) / 3 + 1) by (nonlinear_arith)
            requires
                n >= 3,
        ;
    }
}

/// The number of trailing `=` symbols of an encoding: zero, one or two.
pub open spec fn pad_count(s: Seq<u8>) -> int {
    if s.len() >= 2 && s[s.len() - 1] == PAD && s[s.len() - 2] == PAD {
        2
    } else if s.len() >= 1 && s[s.len() - 1] == PAD {
        1
    } else {
        0
    }
}

/// The padding law: the trailing `=` count of an encoding is determined by
/// the input length alone, and is zero exactly for inputs of whole groups.
pub proof fn lemma_encode_padding(b: Seq<u8>)
    ensures
        pad_count(encode64(b)) == (3 - b.len() % 3) % 3,
        pad_count(encode64(b)) == 0 <==> b.len() % 3 == 0,
    decreases b.len(),
{
    if b.len() == 0 {
    } else if b.len() == 1 {
    } else if b.len() == 2 {
    } else {
        lemma_encode_padding(b.skip(3));
        lemma_encode_len(b.skip(3));
        let n = b.len() as int;
        assert(n % 3 == (n - 3) % 3) by (nonlinear_arith)
            requires
                n >= 3,
        ;
        let e = encode64(b);
        let tail = encode64(b.skip(3));
        if b.len() == 3 {
            let b2 = b[2] as int;
            let b1 = b[1] as int;
            lemma_sym_roundtrip(b2 % 64);
            lemma_sym_roundtrip((b1 % 16) * 4 + b2 / 64);
            assert(pad_count(e) == 0);
        } else {
            assert(tail.len() >= 4);
            assert(e[e.len() - 1] == tail[tail.len() - 1]);
            assert(e[e.len() - 2] == tail[tail.len() - 2]);
            assert(pad_count(e) == pad_count(tail));
        }
    }
}

/// The empty-input law: the empty byte sequence encodes and decodes to the
/// empty sequence.
pub proof fn lemma_empty_codec()
    ensures
        encode64(Seq::<u8>::empty()) == Seq::<u8>::empty(),
        decode64(Seq::<u8>::empty()) == Seq::<u8>::empty(),
{
    assert(encode64(Seq::<u8>::empty()) =~= Seq::<u8>::empty());
    assert(decode64(Seq::<u8>::empty()) =~= Seq::<u8>::empty());
}

// The lenient scan gives one byte that is neither an alphabet symbol nor
// padding no effect, whatever the bit store holds when it is met.
proof fn lemma_decode_from_skips_invalid(s: Seq<u8>, i: int, acc: nat, nbits: nat)
    requires
        0 <= i < s.len(),
        sym_value(s[i]) is None,
        s[i] != PAD,
    ensures
        decode64_from(s.remove(i), acc, nbits) == decode64_from(s, acc, nbits),
    decreases s.len(),
{
    if i == 0 {
        assert(s.remove(0) =~= s.drop_first());
    } else {
        assert(s.remove(i).drop_first() =~= s.drop_first().remove(i - 1));
        assert(s.remove(i)[0] == s[0]);
        assert(s.drop_first()[i - 1] == s[i]);
        if s[0] == PAD {
        } else {
            match sym_value(s[0]) {
                None => {
                    lemma_decode_from_skips_invalid(s.drop_first(), i - 1, acc, nbits);
                },
                Some(v) => {
                    if nbits + 6 >= 8 {
                        let keep = pow2((nbits + 6 - 8) as nat) as int;
                        lemma_decode_from_skips_invalid(
                            s.drop_first(),
                            i - 1,
                            (((acc * 64 + v) as nat) as int % keep) as nat,
                            (nbits + 6 - 8) as nat,
                        );
                    } else {
                        lemma_decode_from_skips_invalid(
                            s.drop_first(),
                            i - 1,
                            (acc * 64 + v) as nat,
                            (nbits + 6) as nat,
                        );
                    }
                },
            }
        }
    }
}

/// The leniency law: removing a byte that is neither an alphabet symbol
/// nor padding does not change what a text decodes to. A character outside
/// ASCII is spelled by such bytes alone, so dropping an invalid character
/// never changes the decoding either.
pub proof fn lemma_decode_skips_invalid(s: Seq<u8>, i: int)
    requires
        0 <= i < s.len(),
        sym_value(s[i]) is None,
        s[i] != PAD,
    ensures
        decode64(s.remove(i)) == decode64(s),
{
    lemma_decode_from_skips_invalid(s, i, 0, 0);
}

/// The idempotence law: decoding and re-encoding is canonicalizing, so a
/// second pass of the pair returns the first pass's result unchanged.
pub proof fn lemma_reencode_stable(x: Seq<u8>)
    ensures
        encode64(decode64(encode64(decode64(x)))) == encode64(decode64(x)),
{
    lemma_decode_of_encode(decode64(x));
}

} // verus!
