//! The escape decoder for grammar-literal contents.
//!
//! Grammar literals and character classes carry escape sequences;
//! [`unescape`] translates them to the bytes they denote, longest match
//! first: `\uXXXX` becomes the codepoint's UTF-8 bytes, `\xXX` one hex
//! byte, `\ooo` one octal byte, a canonical single-char escape its
//! replacement, and any other `\c` passes through unchanged, as does every
//! byte outside an escape.
//!
//! The companion [`escapeLiteral`] is the canonical re-escaper the emitter
//! uses to write decoded bytes back as source-literal text; decoding is
//! its left inverse on every byte string.
use vstd::prelude::*;

verus! {

broadcast use vstd::std_specs::vec::group_vec_axioms, vstd::seq::group_seq_axioms;

/// An octal digit.
pub open spec fn spec_isOctal(b: u8) -> bool {
    48 <= b <= 55
}

/// A hexadecimal digit, of either case.
pub open spec fn spec_isHex(b: u8) -> bool {
    (48 <= b <= 57) || (97 <= b <= 102) || (65 <= b <= 70)
}

/// The value of a hexadecimal digit.
pub open spec fn spec_hexVal(b: u8) -> u32
    recommends
        spec_isHex(b),
{
    if 48 <= b <= 57 {
        (b - 48) as u32
    } else if 97 <= b <= 102 {
        (b - 87) as u32
    } else {
        (b - 55) as u32
    }
}

/// The canonical replacement of a single-character escape, where there is
/// one.
pub open spec fn spec_escByte(c: u8) -> Option<u8> {
    if c == 97 {
        Some(7u8)  // \a
    } else if c == 98 {
        Some(8u8)  // \b
    } else if c == 102 {
        Some(12u8)  // \f
    } else if c == 110 {
        Some(10u8)  // \n
    } else if c == 114 {
        Some(13u8)  // \r
    } else if c == 116 {
        Some(9u8)  // \t
    } else if c == 118 {
        Some(11u8)  // \v
    } else if c == 48 {
        Some(0u8)  // \0
    } else if c == 39 {
        Some(39u8)  // \'
    } else if c == 34 {
        Some(34u8)  // \"
    } else if c == 92 {
        Some(92u8)  // \\
    } else {
        None
    }
}

/// The escape form found at the front of the input: how many bytes it
/// takes and what it decodes to.
pub open spec fn spec_unicodeEscapeAt(s: Seq<u8>) -> bool {
    s.len() >= 6 && s[0] == 92 && s[1] == 117 && spec_isHex(s[2]) && spec_isHex(s[3]) && spec_isHex(
        s[4],
    ) && spec_isHex(s[5])
}

/// The codepoint a `\uXXXX` escape denotes.
pub open spec fn spec_unicodeVal(s: Seq<u8>) -> u32
    recommends
        spec_unicodeEscapeAt(s),
{
    (spec_hexVal(s[2]) * 0x1000 + spec_hexVal(s[3]) * 0x100 + spec_hexVal(s[4]) * 16
        + spec_hexVal(s[5])) as u32
}

pub open spec fn spec_hexEscapeAt(s: Seq<u8>) -> bool {
    s.len() >= 4 && s[0] == 92 && s[1] == 120 && spec_isHex(s[2]) && spec_isHex(s[3])
}

pub open spec fn spec_octalEscapeAt(s: Seq<u8>) -> bool {
    s.len() >= 4 && s[0] == 92 && spec_isOctal(s[1]) && spec_isOctal(s[2]) && spec_isOctal(s[3])
}

/// The value an octal escape denotes; it exceeds a byte when the first
/// digit is above 3.
pub open spec fn spec_octalVal(s: Seq<u8>) -> u32
    recommends
        spec_octalEscapeAt(s),
{
    ((s[1] - 48) * 64 + (s[2] - 48) * 8 + (s[3] - 48)) as u32
}

/// No escape in the input denotes what a byte cannot hold or what is not
/// a Unicode scalar; on such input the decoder stops the program rather
/// than guess.
pub open spec fn spec_unescapeWf(s: Seq<u8>) -> bool
    decreases s.len(),
{
    if s.len() == 0 {
        true
    } else if s[0] != 92 {
        spec_unescapeWf(s.skip(1))
    } else if spec_unicodeEscapeAt(s) {
        vstd::utf8::is_scalar(spec_unicodeVal(s)) && spec_unescapeWf(s.skip(6))
    } else if spec_hexEscapeAt(s) {
        spec_unescapeWf(s.skip(4))
    } else if spec_octalEscapeAt(s) {
        spec_octalVal(s) <= 255 && spec_unescapeWf(s.skip(4))
    } else if s.len() >= 2 {
        spec_unescapeWf(s.skip(2))
    } else {
        true
    }
}

/// The bytes the escapes of the input denote, longest match first.
pub open spec fn spec_unescape(s: Seq<u8>) -> Seq<u8>
    decreases s.len(),
{
    if s.len() == 0 {
        Seq::empty()
    } else if s[0] != 92 {
        seq![s[0]] + spec_unescape(s.skip(1))
    } else if spec_unicodeEscapeAt(s) {
        vstd::utf8::encode_scalar(spec_unicodeVal(s)) + spec_unescape(s.skip(6))
    } else if spec_hexEscapeAt(s) {
        seq![(spec_hexVal(s[2]) * 16 + spec_hexVal(s[3])) as u8] + spec_unescape(s.skip(4))
    } else if spec_octalEscapeAt(s) {
        seq![spec_octalVal(s) as u8] + spec_unescape(s.skip(4))
    } else if s.len() >= 2 {
        match spec_escByte(s[1]) {
            Some(x) => seq![x] + spec_unescape(s.skip(2)),
            None => seq![92u8, s[1]] + spec_unescape(s.skip(2)),
        }
    } else {
        seq![92u8]
    }
}

fn isOctal(b: u8) -> (r: bool)
    ensures
        r == spec_isOctal(b),
{
    48 <= b && b <= 55
}

fn isHex(b: u8) -> (r: bool)
    ensures
        r == spec_isHex(b),
{
    (48 <= b && b <= 57) || (97 <= b && b <= 102) || (65 <= b && b <= 70)
}

fn hexVal(b: u8) -> (r: u32)
    requires
        spec_isHex(b),
    ensures
        r == spec_hexVal(b),
        r < 16,
{
    if 48 <= b && b <= 57 {
        (b - 48) as u32
    } else if 97 <= b && b <= 102 {
        (b - 87) as u32
    } else {
        (b - 55) as u32
    }
}

/// Writes the UTF-8 encoding of a Unicode scalar value.
pub fn encode_utf8_raw(code: u32) -> (r: Vec<u8>)
    requires
        vstd::utf8::is_scalar(code),
    ensures
        r@ == vstd::utf8::encode_scalar(code),
{
    let mut out: Vec<u8> = Vec::new();
    if code < 0x80 {
        out.push((code & 0x7F) as u8);
        proof {
            assert(out@ =~= vstd::utf8::encode_scalar(code));
        }
    } else if code < 0x800 {
        out.push(0xC0 | ((code >> 6u32) & 0x1F) as u8);
        out.push(0x80 | (code & 0x3F) as u8);
        proof {
            assert(out@ =~= vstd::utf8::encode_scalar(code));
        }
    } else if code < 0x10000 {
        out.push(0xE0 | ((code >> 12u32) & 0x0F) as u8);
        out.push(0x80 | ((code >> 6u32) & 0x3F) as u8);
        out.push(0x80 | (code & 0x3F) as u8);
        proof {
            assert(out@ =~= vstd::utf8::encode_scalar(code));
        }
    } else {
        out.push(0xF0 | ((code >> 18u32) & 0x7) as u8);
        out.push(0x80 | ((code >> 12u32) & 0x3F) as u8);
        out.push(0x80 | ((code >> 6u32) & 0x3F) as u8);
        out.push(0x80 | (code & 0x3F) as u8);
        proof {
            assert(out@ =~= vstd::utf8::encode_scalar(code));
        }
    }
    out
}

/// Decodes the escape sequences of `input` into the bytes they denote.
pub fn unescape(input: &[u8]) -> (r: Vec<u8>)
    requires
        spec_unescapeWf(input@),
    ensures
        r@ == spec_unescape(input@),
{
    let mut out: Vec<u8> = Vec::new();
    let mut i: usize = 0;
    proof {
        assert(input@.skip(0) =~= input@);
    }
    while i < input.len()
        invariant
            i <= input.len(),
            spec_unescapeWf(input@),
            spec_unescapeWf(input@.skip(i as int)),
            spec_unescape(input@) =~= out@ + spec_unescape(input@.skip(i as int)),
        decreases input.len() - i,
    {
        let ghost pre = out@;
        let ghost suffix = input@.skip(i as int);
        let b = input[i];
        assert(suffix[0] == b);
        let remaining = input.len() - i;
        let mut step: usize = 1;
        if b != 92 {
            out.push(b);
            proof {
                assert(out@ =~= pre + seq![b]);
                assert(spec_unescape(suffix) =~= seq![b] + spec_unescape(suffix.skip(1)));
            }
        } else if remaining >= 6 && input[i + 1] == 117 && isHex(input[i + 2]) && isHex(
            input[i + 3],
        ) && isHex(input[i + 4]) && isHex(input[i + 5]) {
            proof {
                assert(suffix[1] == input@[i + 1]);
                assert(suffix[2] == input@[i + 2]);
                assert(suffix[3] == input@[i + 3]);
                assert(suffix[4] == input@[i + 4]);
                assert(suffix[5] == input@[i + 5]);
                assert(spec_unicodeEscapeAt(suffix));
            }
            let code: u32 = hexVal(input[i + 2]) * 0x1000 + hexVal(input[i + 3]) * 0x100 + hexVal(
                input[i + 4],
            ) * 16 + hexVal(input[i + 5]);
            assert(code == spec_unicodeVal(suffix));
            let mut enc = encode_utf8_raw(code);
            out.append(&mut enc);
            step = 6;
            proof {
                assert(out@ =~= pre + vstd::utf8::encode_scalar(code));
                assert(spec_unescape(suffix) =~= vstd::utf8::encode_scalar(code)
                    + spec_unescape(suffix.skip(6)));
            }
        } else if remaining >= 4 && input[i + 1] == 120 && isHex(input[i + 2]) && isHex(
            input[i + 3],
        ) {
            proof {
                assert(suffix[1] == input@[i + 1]);
                assert(suffix[2] == input@[i + 2]);
                assert(suffix[3] == input@[i + 3]);
                assert(!spec_unicodeEscapeAt(suffix));
                assert(spec_hexEscapeAt(suffix));
            }
            let v: u32 = hexVal(input[i + 2]) * 16 + hexVal(input[i + 3]);
            out.push(v as u8);
            step = 4;
            proof {
                assert(out@ =~= pre + seq![v as u8]);
                assert(spec_unescape(suffix) =~= seq![v as u8] + spec_unescape(suffix.skip(4)));
            }
        } else if remaining >= 4 && isOctal(input[i + 1]) && isOctal(input[i + 2]) && isOctal(
            input[i + 3],
        ) {
            proof {
                assert(suffix[1] == input@[i + 1]);
                assert(suffix[2] == input@[i + 2]);
                assert(suffix[3] == input@[i + 3]);
                assert(!spec_unicodeEscapeAt(suffix));
                assert(!spec_hexEscapeAt(suffix));
                assert(spec_octalEscapeAt(suffix));
            }
            let v: u32 = ((input[i + 1] - 48) as u32) * 64 + ((input[i + 2] - 48) as u32) * 8 + ((
            input[i + 3] - 48) as u32);
            assert(v == spec_octalVal(suffix));
            out.push(v as u8);
            step = 4;
            proof {
                assert(out@ =~= pre + seq![v as u8]);
                assert(spec_unescape(suffix) =~= seq![v as u8] + spec_unescape(suffix.skip(4)));
            }
        } else if remaining >= 2 {
            proof {
                assert(suffix[1] == input@[i + 1]);
                assert(!spec_unicodeEscapeAt(suffix));
                assert(!spec_hexEscapeAt(suffix));
                assert(!spec_octalEscapeAt(suffix));
            }
            let c = input[i + 1];
            match escByte(c) {
                Some(x) => {
                    out.push(x);
                    proof {
                        assert(out@ =~= pre + seq![x]);
                        assert(spec_unescape(suffix) =~= seq![x] + spec_unescape(
                            suffix.skip(2),
                        ));
                    }
                },
                None => {
                    out.push(92);
                    out.push(c);
                    proof {
                        assert(out@ =~= pre + seq![92u8, c]);
                        assert(spec_unescape(suffix) =~= seq![92u8, c] + spec_unescape(
                            suffix.skip(2),
                        ));
                    }
                },
            }
            step = 2;
        } else {
            out.push(92);
            proof {
                assert(suffix.len() == 1);
                assert(!spec_unicodeEscapeAt(suffix));
                assert(!spec_hexEscapeAt(suffix));
                assert(!spec_octalEscapeAt(suffix));
                assert(input@.skip(i + 1) =~= Seq::<u8>::empty());
                assert(spec_unescape(suffix) =~= seq![92u8]);
            }
        }
        proof {
            assert(suffix.skip(step as int) =~= input@.skip(i + step));
            assert(spec_unescape(input@) =~= out@ + spec_unescape(input@.skip(i + step)));
        }
        i += step;
    }
    proof {
        assert(input@.skip(input@.len() as int) =~= Seq::<u8>::empty());
    }
    out
}

/// The canonical single-character replacement, as executable code.
fn escByte(c: u8) -> (r: Option<u8>)
    ensures
        r == spec_escByte(c),
{
    if c == 97 {
        Some(7)
    } else if c == 98 {
        Some(8)
    } else if c == 102 {
        Some(12)
    } else if c == 110 {
        Some(10)
    } else if c == 114 {
        Some(13)
    } else if c == 116 {
        Some(9)
    } else if c == 118 {
        Some(11)
    } else if c == 48 {
        Some(0)
    } else if c == 39 {
        Some(39)
    } else if c == 34 {
        Some(34)
    } else if c == 92 {
        Some(92)
    } else {
        None
    }
}

/// A copy of a string's bytes as a vector.
pub fn vecBytes(input: &'static str) -> (r: Vec<u8>)
    ensures
        r@ == vstd::utf8::encode_utf8(input@),
{
    vstd::slice::slice_to_vec(input.as_bytes())
}

/// Decodes the escape sequences of a string's bytes.
pub fn unescapeString(input: &str) -> (r: Vec<u8>)
    requires
        spec_unescapeWf(vstd::utf8::encode_utf8(input@)),
    ensures
        r@ == spec_unescape(vstd::utf8::encode_utf8(input@)),
{
    unescape(input.as_bytes())
}

// ===== The canonical re-escaper =====
/// How one byte is written back into source-literal text: backslash,
/// newline, tab, carriage return and double quote become two-byte escape
/// pairs; every other byte stands for itself.
pub open spec fn spec_escapedByte(b: u8) -> Seq<u8> {
    if b == 92 {
        seq![92u8, 92u8]
    } else if b == 10 {
        seq![92u8, 110u8]
    } else if b == 9 {
        seq![92u8, 116u8]
    } else if b == 13 {
        seq![92u8, 114u8]
    } else if b == 34 {
        seq![92u8, 34u8]
    } else {
        seq![b]
    }
}

/// The canonical re-escaping of a byte string into source-literal text.
pub open spec fn spec_escapeLiteral(s: Seq<u8>) -> Seq<u8>
    decreases s.len(),
{
    if s.len() == 0 {
        Seq::empty()
    } else {
        spec_escapedByte(s[0]) + spec_escapeLiteral(s.drop_first())
    }
}

/// Re-escapes decoded bytes into source-literal text.
pub fn escapeLiteral(input: &[u8]) -> (r: Vec<u8>)
    ensures
        r@ == spec_escapeLiteral(input@),
{
    let mut out: Vec<u8> = Vec::new();
    let mut i: usize = 0;
    proof {
        assert(input@.skip(0) =~= input@);
        assert(spec_escapeLiteral(input@) =~= out@ + spec_escapeLiteral(input@.skip(0)));
    }
    while i < input.len()
        invariant
            i <= input.len(),
            spec_escapeLiteral(input@) =~= out@ + spec_escapeLiteral(input@.skip(i as int)),
        decreases input.len() - i,
    {
        let ghost pre = out@;
        let ghost suffix = input@.skip(i as int);
        let b = input[i];
        assert(suffix[0] == b);
        if b == 92 {
            out.push(92);
            out.push(92);
        } else if b == 10 {
            out.push(92);
            out.push(110);
        } else if b == 9 {
            out.push(92);
            out.push(116);
        } else if b == 13 {
            out.push(92);
            out.push(114);
        } else if b == 34 {
            out.push(92);
            out.push(34);
        } else {
            out.push(b);
        }
        proof {
            assert(out@ =~= pre + spec_escapedByte(b));
            assert(suffix.drop_first() =~= input@.skip(i + 1));
            assert(spec_escapeLiteral(suffix) =~= spec_escapedByte(b) + spec_escapeLiteral(
                input@.skip(i + 1),
            ));
        }
        i += 1;
    }
    proof {
        assert(input@.skip(input@.len() as int) =~= Seq::<u8>::empty());
    }
    out
}

/// The escape decoder is the left inverse of the canonical re-escaper:
/// decoding re-escaped text recovers the original bytes exactly, on every
/// byte string, and the re-escaped text never trips the decoder's fatal
/// cases.
pub proof fn lemma_unescape_escape(s: Seq<u8>)
    ensures
        spec_unescapeWf(spec_escapeLiteral(s)),
        spec_unescape(spec_escapeLiteral(s)) == s,
    decreases s.len(),
{
    if s.len() == 0 {
        assert(spec_escapeLiteral(s) =~= Seq::<u8>::empty());
        assert(spec_unescape(spec_escapeLiteral(s)) =~= s);
    } else {
        let b = s[0];
        let enc = spec_escapedByte(b);
        let rest = spec_escapeLiteral(s.drop_first());
        let whole = spec_escapeLiteral(s);
        lemma_unescape_escape(s.drop_first());
        assert(whole == enc + rest);
        assert(whole[0] == enc[0]);
        if enc.len() == 2 {
            assert(whole.len() >= 2);
            assert(whole[1] == enc[1]);
            assert(whole[0] == 92);
            assert(!spec_unicodeEscapeAt(whole));
            assert(!spec_hexEscapeAt(whole));
            assert(!spec_octalEscapeAt(whole));
            assert(whole.skip(2) =~= rest);
            assert(spec_escByte(whole[1]) == Some(b));
            assert(spec_unescape(whole) =~= seq![b] + spec_unescape(rest));
            assert(spec_unescape(whole) =~= s);
        } else {
            assert(enc =~= seq![b]);
            assert(b != 92);
            assert(whole.skip(1) =~= rest);
            assert(spec_unescape(whole) =~= seq![b] + spec_unescape(rest));
            assert(spec_unescape(whole) =~= s);
        }
    }
}

} // verus!
