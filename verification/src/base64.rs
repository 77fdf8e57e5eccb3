//! Standard base64 with padding, implemented against an exact
//! character-level specification.

use vstd::prelude::*;
use vstd::string::StrSliceExecFns;

use crate::strutil::push_char;

verus! {

/// The alphabet character for a 6-bit value.
pub open spec fn spec_b64_char(v: int) -> char {
    if v < 26 {
        (((65 + v) as u32) as char)
    } else if v < 52 {
        (((71 + v) as u32) as char)
    } else if v < 62 {
        (((v - 4) as u32) as char)
    } else if v == 62 {
        '+'
    } else {
        '/'
    }
}

/// The 6-bit value of an alphabet character, or -1 for any other.
pub open spec fn spec_b64_val(c: char) -> int {
    if 'A' <= c && c <= 'Z' {
        (c as u32) - 65
    } else if 'a' <= c && c <= 'z' {
        (c as u32) - 71
    } else if '0' <= c && c <= '9' {
        (c as u32) + 4
    } else if c == '+' {
        62
    } else if c == '/' {
        63
    } else {
        -1
    }
}

/// Standard base64 of a byte sequence: full three-byte groups become four
/// alphabet characters; a trailing group of one or two bytes is padded
/// with '='.
pub open spec fn spec_b64_encode(data: Seq<u8>) -> Seq<char>
    decreases data.len(),
{
    if data.len() == 0 {
        Seq::empty()
    } else if data.len() == 1 {
        let b0 = data[0] as int;
        seq![spec_b64_char(b0 / 4), spec_b64_char((b0 % 4) * 16), '=', '=']
    } else if data.len() == 2 {
        let b0 = data[0] as int;
        let b1 = data[1] as int;
        seq![
            spec_b64_char(b0 / 4),
            spec_b64_char((b0 % 4) * 16 + b1 / 16),
            spec_b64_char((b1 % 16) * 4),
            '=',
        ]
    } else {
        let b0 = data[0] as int;
        let b1 = data[1] as int;
        let b2 = data[2] as int;
        seq![
            spec_b64_char(b0 / 4),
            spec_b64_char((b0 % 4) * 16 + b1 / 16),
            spec_b64_char((b1 % 16) * 4 + b2 / 64),
            spec_b64_char(b2 % 64),
        ] + spec_b64_encode(data.skip(3))
    }
}

/// Decodes standard padded base64: the length must be a multiple of four,
/// '=' may close only the final quad, and every other character must be
/// from the alphabet.
pub open spec fn spec_b64_decode(s: Seq<char>) -> Option<Seq<u8>>
    decreases s.len(),
{
    if s.len() == 0 {
        Some(Seq::empty())
    } else if s.len() < 4 {
        None
    } else {
        let v0 = spec_b64_val(s[0]);
        let v1 = spec_b64_val(s[1]);
        if v0 < 0 || v1 < 0 {
            None
        } else if s[2] == '=' {
            if s[3] == '=' && s.len() == 4 {
                Some(seq![((v0 * 4 + v1 / 16) as u8)])
            } else {
                None
            }
        } else {
            let v2 = spec_b64_val(s[2]);
            if v2 < 0 {
                None
            } else if s[3] == '=' {
                if s.len() == 4 {
                    Some(seq![((v0 * 4 + v1 / 16) as u8), (((v1 % 16) * 16 + v2 / 4) as u8)])
                } else {
                    None
                }
            } else {
                let v3 = spec_b64_val(s[3]);
                if v3 < 0 {
                    None
                } else {
                    match spec_b64_decode(s.skip(4)) {
                        Some(rest) => Some(
                            seq![
                                ((v0 * 4 + v1 / 16) as u8),
                                (((v1 % 16) * 16 + v2 / 4) as u8),
                                (((v2 % 4) * 64 + v3) as u8),
                            ] + rest,
                        ),
                        None => None,
                    }
                }
            }
        }
    }
}

fn b64_char(v: u8) -> (c: char)
    requires
        v < 64,
    ensures
        c == spec_b64_char(v as int),
{
    match v {
        0 => 'A',
        1 => 'B',
        2 => 'C',
        3 => 'D',
        4 => 'E',
        5 => 'F',
        6 => 'G',
        7 => 'H',
        8 => 'I',
        9 => 'J',
        10 => 'K',
        11 => 'L',
        12 => 'M',
        13 => 'N',
        14 => 'O',
        15 => 'P',
        16 => 'Q',
        17 => 'R',
        18 => 'S',
        19 => 'T',
        20 => 'U',
        21 => 'V',
        22 => 'W',
        23 => 'X',
        24 => 'Y',
        25 => 'Z',
        26 => 'a',
        27 => 'b',
        28 => 'c',
        29 => 'd',
        30 => 'e',
        31 => 'f',
        32 => 'g',
        33 => 'h',
        34 => 'i',
        35 => 'j',
        36 => 'k',
        37 => 'l',
        38 => 'm',
        39 => 'n',
        40 => 'o',
        41 => 'p',
        42 => 'q',
        43 => 'r',
        44 => 's',
        45 => 't',
        46 => 'u',
        47 => 'v',
        48 => 'w',
        49 => 'x',
        50 => 'y',
        51 => 'z',
        52 => '0',
        53 => '1',
        54 => '2',
        55 => '3',
        56 => '4',
        57 => '5',
        58 => '6',
        59 => '7',
        60 => '8',
        61 => '9',
        62 => '+',
        _ => '/',
    }
}

fn b64_val(c: char) -> (r: Option<u8>)
    ensures
        r matches Some(v) ==> spec_b64_val(c) == v as int && v < 64,
        r is None ==> spec_b64_val(c) < 0,
{
    if 'A' <= c && c <= 'Z' {
        Some((((c as u32) - 65) as u8))
    } else if 'a' <= c && c <= 'z' {
        Some((((c as u32) - 71) as u8))
    } else if '0' <= c && c <= '9' {
        Some((((c as u32) + 4) as u8))
    } else if c == '+' {
        Some(62)
    } else if c == '/' {
        Some(63)
    } else {
        None
    }
}

/// Encodes bytes as standard padded base64.
pub fn encode_base64(data: &[u8]) -> (r: String)
    ensures
        r@ == spec_b64_encode(data@),
{
    let n = data.len();
    let mut out = String::new();
    let mut pos: usize = 0;
    proof {
        assert(data@.skip(0) =~= data@);
        assert(out@ + spec_b64_encode(data@.skip(0)) =~= spec_b64_encode(data@));
    }
    while n - pos >= 3
        invariant
            0 <= pos <= n,
            n == data@.len(),
            spec_b64_encode(data@) == out@ + spec_b64_encode(data@.skip(pos as int)),
        decreases n - pos,
    {
        let ghost here = data@.skip(pos as int);
        let b0 = data[pos];
        let b1 = data[pos + 1];
        let b2 = data[pos + 2];
        proof {
            assert(here[0] == data@[pos as int]);
            assert(here[1] == data@[pos + 1]);
            assert(here[2] == data@[pos + 2]);
            assert(here.skip(3) =~= data@.skip(pos + 3));
        }
        push_char(&mut out, b64_char(b0 / 4));
        push_char(&mut out, b64_char((b0 % 4) * 16 + b1 / 16));
        push_char(&mut out, b64_char((b1 % 16) * 4 + b2 / 64));
        push_char(&mut out, b64_char(b2 % 64));
        proof {
            assert(out@ + spec_b64_encode(data@.skip(pos + 3)) =~= spec_b64_encode(data@));
        }
        pos = pos + 3;
    }
    let ghost tail = data@.skip(pos as int);
    if n - pos == 1 {
        let b0 = data[pos];
        proof {
            assert(tail[0] == data@[pos as int]);
        }
        push_char(&mut out, b64_char(b0 / 4));
        push_char(&mut out, b64_char((b0 % 4) * 16));
        push_char(&mut out, '=');
        push_char(&mut out, '=');
        proof {
            assert(out@ =~= spec_b64_encode(data@));
        }
    } else if n - pos == 2 {
        let b0 = data[pos];
        let b1 = data[pos + 1];
        proof {
            assert(tail[0] == data@[pos as int]);
            assert(tail[1] == data@[pos + 1]);
        }
        push_char(&mut out, b64_char(b0 / 4));
        push_char(&mut out, b64_char((b0 % 4) * 16 + b1 / 16));
        push_char(&mut out, b64_char((b1 % 16) * 4));
        push_char(&mut out, '=');
        proof {
            assert(out@ =~= spec_b64_encode(data@));
        }
    } else {
        proof {
            assert(tail.len() == 0);
            assert(out@ =~= spec_b64_encode(data@));
        }
    }
    out
}

/// Decodes standard padded base64; `Err` exactly when the input is not a
/// padded encoding.
pub fn decode_base64(encoded: &str) -> (r: Result<Vec<u8>, String>)
    ensures
        r matches Ok(v) ==> spec_b64_decode(encoded@) == Some(v@),
        r is Err ==> spec_b64_decode(encoded@) is None,
{
    let n = encoded.unicode_len();
    let mut out: Vec<u8> = Vec::new();
    let mut pos: usize = 0;
    proof {
        match spec_b64_decode(encoded@.skip(0)) {
            Some(d) => {
                assert(out@ + d =~= d);
            },
            None => {},
        }
        assert(encoded@.skip(0) =~= encoded@);
    }
    loop
        invariant
            0 <= pos <= n,
            n == encoded@.len(),
            spec_b64_decode(encoded@) == (match spec_b64_decode(encoded@.skip(pos as int)) {
                Some(d) => Some(out@ + d),
                None => None,
            }),
        decreases n - pos,
    {
        let ghost here = encoded@.skip(pos as int);
        if pos == n {
            proof {
                assert(here.len() == 0);
                assert(out@ + Seq::<u8>::empty() =~= out@);
            }
            return Ok(out);
        }
        if n - pos < 4 {
            proof {
                assert(here.len() < 4);
            }
            return Err(err_msg());
        }
        proof {
            assert(here[0] == encoded@[pos as int]);
            assert(here[1] == encoded@[pos + 1]);
            assert(here[2] == encoded@[pos + 2]);
            assert(here[3] == encoded@[pos + 3]);
        }
        let v0 = match b64_val(encoded.get_char(pos)) {
            Some(v) => v,
            None => {
                return Err(err_msg());
            },
        };
        let v1 = match b64_val(encoded.get_char(pos + 1)) {
            Some(v) => v,
            None => {
                return Err(err_msg());
            },
        };
        let c2 = encoded.get_char(pos + 2);
        let c3 = encoded.get_char(pos + 3);
        if c2 == '=' {
            if c3 == '=' && pos + 4 == n {
                out.push((v0 * 4 + v1 / 16));
                proof {
                    let ghost d = seq![((v0 as int * 4 + v1 as int / 16) as u8)];
                    assert(spec_b64_decode(here) == Some(d));
                    assert(out@ =~= out@.drop_last() + d);
                }
                return Ok(out);
            }
            return Err(err_msg());
        }
        let v2 = match b64_val(c2) {
            Some(v) => v,
            None => {
                return Err(err_msg());
            },
        };
        if c3 == '=' {
            if pos + 4 == n {
                out.push((v0 * 4 + v1 / 16));
                out.push(((v1 % 16) * 16 + v2 / 4));
                proof {
                    let ghost d = seq![
                        ((v0 as int * 4 + v1 as int / 16) as u8),
                        (((v1 as int % 16) * 16 + v2 as int / 4) as u8),
                    ];
                    assert(spec_b64_decode(here) == Some(d));
                    assert(out@ =~= out@.drop_last().drop_last() + d);
                }
                return Ok(out);
            }
            return Err(err_msg());
        }
        let v3 = match b64_val(c3) {
            Some(v) => v,
            None => {
                return Err(err_msg());
            },
        };
        let ghost out_old = out@;
        out.push((v0 * 4 + v1 / 16));
        out.push(((v1 % 16) * 16 + v2 / 4));
        out.push(((v2 % 4) * 64 + v3));
        proof {
            let ghost d3 = seq![
                ((v0 as int * 4 + v1 as int / 16) as u8),
                (((v1 as int % 16) * 16 + v2 as int / 4) as u8),
                (((v2 as int % 4) * 64 + v3 as int) as u8),
            ];
            assert(out@ =~= out_old + d3);
            assert(here.skip(4) =~= encoded@.skip(pos + 4));
            match spec_b64_decode(encoded@.skip(pos + 4)) {
                Some(rest) => {
                    assert(spec_b64_decode(here) == Some(d3 + rest));
                    assert(out_old + (d3 + rest) =~= out@ + rest);
                },
                None => {
                    assert(spec_b64_decode(here) is None);
                },
            }
        }
        pos = pos + 4;
    }
}

fn err_msg() -> String {
    <String as vstd::string::StringExecFns>::from_str("invalid base64")
}

proof fn lemma_b64_val_char(v: int)
    requires
        0 <= v < 64,
    ensures
        spec_b64_val(spec_b64_char(v)) == v,
        spec_b64_char(v) != '=',
{
    if v < 26 {
        let u: u32 = (65 + v) as u32;
        assert((u as char) as u32 == u);
    } else if v < 52 {
        let u: u32 = (71 + v) as u32;
        assert((u as char) as u32 == u);
    } else if v < 62 {
        let u: u32 = (v - 4) as u32;
        assert((u as char) as u32 == u);
    }
}

proof fn lemma_quad_arith(b0: int, b1: int, b2: int)
    requires
        0 <= b0 < 256,
        0 <= b1 < 256,
        0 <= b2 < 256,
    ensures
        (b0 / 4) * 4 + ((b0 % 4) * 16 + b1 / 16) / 16 == b0,
        (((b0 % 4) * 16 + b1 / 16) % 16) * 16 + ((b1 % 16) * 4 + b2 / 64) / 4 == b1,
        (((b1 % 16) * 4 + b2 / 64) % 4) * 64 + b2 % 64 == b2,
{
    assert((b0 / 4) * 4 + ((b0 % 4) * 16 + b1 / 16) / 16 == b0) by (nonlinear_arith)
        requires
            0 <= b0 < 256 && 0 <= b1 < 256,
    ;
    assert((((b0 % 4) * 16 + b1 / 16) % 16) * 16 + ((b1 % 16) * 4 + b2 / 64) / 4 == b1)
        by (nonlinear_arith)
        requires
            0 <= b0 < 256 && 0 <= b1 < 256 && 0 <= b2 < 256,
    ;
    assert((((b1 % 16) * 4 + b2 / 64) % 4) * 64 + b2 % 64 == b2) by (nonlinear_arith)
        requires
            0 <= b1 < 256 && 0 <= b2 < 256,
    ;
}

/// Law: the base64 codec round-trips. Decoding an encoding recovers
/// exactly the bytes that were encoded.
pub proof fn lemma_base64_round_trip(data: Seq<u8>)
    ensures
        spec_b64_decode(spec_b64_encode(data)) == Some(data),
    decreases data.len(),
{
    let enc = spec_b64_encode(data);
    if data.len() == 0 {
        assert(Seq::<u8>::empty() =~= data);
    } else if data.len() == 1 {
        let b0 = data[0] as int;
        lemma_b64_val_char(b0 / 4);
        lemma_b64_val_char((b0 % 4) * 16);
        assert(enc.len() == 4);
        assert((b0 / 4) * 4 + ((b0 % 4) * 16) / 16 == b0) by (nonlinear_arith)
            requires
                0 <= b0 < 256,
        ;
        assert(seq![((b0 / 4) * 4 + ((b0 % 4) * 16) / 16) as u8] =~= data);
    } else if data.len() == 2 {
        let b0 = data[0] as int;
        let b1 = data[1] as int;
        lemma_b64_val_char(b0 / 4);
        lemma_b64_val_char((b0 % 4) * 16 + b1 / 16);
        lemma_b64_val_char((b1 % 16) * 4);
        lemma_quad_arith(b0, b1, 0);
        assert(enc.len() == 4);
        let q1 = (b0 % 4) * 16 + b1 / 16;
        assert((q1 % 16) * 16 + ((b1 % 16) * 4) / 4 == b1) by (nonlinear_arith)
            requires
                q1 == (b0 % 4) * 16 + b1 / 16 && 0 <= b0 < 256 && 0 <= b1 < 256,
        ;
        assert(seq![((b0 / 4) * 4 + q1 / 16) as u8, ((q1 % 16) * 16 + ((b1 % 16) * 4) / 4) as u8]
            =~= data);
    } else {
        let b0 = data[0] as int;
        let b1 = data[1] as int;
        let b2 = data[2] as int;
        let q0 = b0 / 4;
        let q1 = (b0 % 4) * 16 + b1 / 16;
        let q2 = (b1 % 16) * 4 + b2 / 64;
        let q3 = b2 % 64;
        lemma_b64_val_char(q0);
        lemma_b64_val_char(q1);
        lemma_b64_val_char(q2);
        lemma_b64_val_char(q3);
        lemma_quad_arith(b0, b1, b2);
        let rest_enc = spec_b64_encode(data.skip(3));
        let quad = seq![
            spec_b64_char(q0),
            spec_b64_char(q1),
            spec_b64_char(q2),
            spec_b64_char(q3),
        ];
        assert(enc == quad + rest_enc);
        assert(forall|j: int| 0 <= j < 4 ==> enc[j] == quad[j]);
        lemma_base64_round_trip(data.skip(3));
        assert(rest_enc.len() % 4 == 0) by {
            lemma_encode_len(data.skip(3));
        }
        assert(enc.len() >= 4);
        assert(enc.skip(4) =~= rest_enc);
        assert(seq![(q0 * 4 + q1 / 16) as u8, ((q1 % 16) * 16 + q2 / 4) as u8, ((q2 % 4) * 64
            + q3) as u8] + data.skip(3) =~= data);
    }
}

/// An encoding's length is a multiple of four.
proof fn lemma_encode_len(data: Seq<u8>)
    ensures
        spec_b64_encode(data).len() % 4 == 0,
    decreases data.len(),
{
    if data.len() > 2 {
        lemma_encode_len(data.skip(3));
    }
}

} // verus!
