use vstd::prelude::*;
use vstd::string::*;

use crate::text::{is_blank, trims_to_empty};

verus! {

/// The standard base64 alphabet (RFC 4648): digit `v` is written as its
/// `v`-th character.
pub open spec fn b64_alphabet() -> Seq<char> {
    "ABCDEFGHIJKLMNOPQRSTUVWXYZabcdefghijklmnopqrstuvwxyz0123456789+/"@
}

/// The value of a base64 digit: its place in the standard alphabet, or `-1`
/// for a character outside it.
pub open spec fn b64_value(c: char) -> int {
    if 'A' <= c <= 'Z' {
        c as int - 65
    } else if 'a' <= c <= 'z' {
        c as int - 71
    } else if '0' <= c <= '9' {
        c as int + 4
    } else if c == '+' {
        62
    } else if c == '/' {
        63
    } else {
        -1
    }
}

/// Byte `i` of `b`, or 0 past its end.
pub open spec fn byte_or_zero(b: Seq<u8>, i: int) -> int {
    if 0 <= i < b.len() {
        b[i] as int
    } else {
        0
    }
}

/// Digit `k` (0 to 3) of the three bytes from `3 * g` on, read as 24 bits,
/// six at a time from the top (missing bytes count as zero).
pub open spec fn sextet(b: Seq<u8>, g: int, k: int) -> int {
    let b0 = byte_or_zero(b, 3 * g);
    let b1 = byte_or_zero(b, 3 * g + 1);
    let b2 = byte_or_zero(b, 3 * g + 2);
    if k == 0 {
        b0 / 4
    } else if k == 1 {
        (b0 % 4) * 16 + b1 / 16
    } else if k == 2 {
        (b1 % 16) * 4 + b2 / 64
    } else {
        b2 % 64
    }
}

/// The length of padded base64 text for `n` bytes: four characters for each
/// started group of three bytes.
pub open spec fn base64_len(n: nat) -> nat {
    4 * ((n + 2) / 3)
}

/// The standard padded base64 text of `bytes` (RFC 4648, on one line): each
/// group of three bytes becomes four digits; a last group of one or two bytes
/// becomes two or three digits followed by `=` up to four characters.
pub open spec fn base64_standard(bytes: Seq<u8>) -> Seq<char> {
    Seq::new(
        base64_len(bytes.len()),
        |i: int|
            if 3 * (i / 4) + i % 4 > bytes.len() {
                '='
            } else {
                b64_alphabet()[sextet(bytes, i / 4, i % 4)]
            },
    )
}

/// The bytes that one group of four base64 characters stands for: three,
/// or two when it ends in `=`, or one when it ends in `==`.
pub open spec fn decoded_group(q: Seq<char>) -> Seq<u8> {
    let v0 = b64_value(q[0]);
    let v1 = b64_value(q[1]);
    let v2 = b64_value(q[2]);
    let v3 = b64_value(q[3]);
    let x0 = (v0 * 4 + v1 / 16) as u8;
    let x1 = ((v1 % 16) * 16 + v2 / 4) as u8;
    let x2 = ((v2 % 4) * 64 + v3) as u8;
    if q[2] == '=' {
        seq![x0]
    } else if q[3] == '=' {
        seq![x0, x1]
    } else {
        seq![x0, x1, x2]
    }
}

/// Standard base64 decoding of padded text, group by group.
pub open spec fn base64_decoded(s: Seq<char>) -> Seq<u8>
    decreases s.len(),
{
    if s.len() < 4 {
        Seq::empty()
    } else {
        decoded_group(s.take(4)) + base64_decoded(s.skip(4))
    }
}

proof fn lemma_alphabet_digit(v: int)
    requires
        0 <= v < 64,
    ensures
        b64_value(b64_alphabet()[v]) == v,
        b64_alphabet()[v] != '=',
{
    reveal_strlit("ABCDEFGHIJKLMNOPQRSTUVWXYZabcdefghijklmnopqrstuvwxyz0123456789+/");
}

proof fn lemma_sextet_range(b: Seq<u8>, g: int, k: int)
    ensures
        0 <= sextet(b, g, k) < 64,
{
}

/// Base64 text uses the alphabet and padding only: every character is a
/// digit of the standard alphabet, except the `=` that fill the last group,
/// one for each byte that group lacks.
pub proof fn lemma_base64_characters(bytes: Seq<u8>)
    ensures
        base64_standard(bytes).len() == base64_len(bytes.len()),
        forall|i: int|
            0 <= i < base64_standard(bytes).len() ==> (#[trigger] base64_standard(bytes)[i] == '='
                <==> i >= base64_len(bytes.len()) - (3 - bytes.len() % 3) % 3),
        forall|i: int|
            0 <= i < base64_standard(bytes).len() && #[trigger] base64_standard(bytes)[i] != '='
                ==> 0 <= b64_value(base64_standard(bytes)[i]) < 64,
{
    let s = base64_standard(bytes);
    let n = bytes.len();
    assert forall|i: int| 0 <= i < s.len() implies (#[trigger] s[i] == '=' <==> i >= base64_len(n)
        - (3 - n % 3) % 3) && (s[i] != '=' ==> 0 <= b64_value(s[i]) < 64) by {
        let g = i / 4;
        let k = i % 4;
        lemma_sextet_range(bytes, g, k);
        lemma_alphabet_digit(sextet(bytes, g, k));
        assert(i == 4 * g + k);
        assert(g < (n + 2) / 3) by (nonlinear_arith)
            requires
                0 <= i < 4 * ((n + 2) / 3),
                g == i / 4,
        ;
        assert(3 * ((n + 2) / 3) == n + (3 - n % 3) % 3) by (nonlinear_arith);
    }
}

proof fn lemma_decoded_first_group(bytes: Seq<u8>)
    requires
        bytes.len() > 0,
    ensures
        decoded_group(base64_standard(bytes).take(4)) == bytes.take(
            if bytes.len() < 3 {
                bytes.len() as int
            } else {
                3
            },
        ),
{
    let s = base64_standard(bytes);
    let n = bytes.len();
    assert(base64_len(n) >= 4) by (nonlinear_arith)
        requires
            n > 0,
    ;
    let q = s.take(4);
    let b0 = byte_or_zero(bytes, 0);
    let b1 = byte_or_zero(bytes, 1);
    let b2 = byte_or_zero(bytes, 2);
    lemma_sextet_range(bytes, 0, 0);
    lemma_sextet_range(bytes, 0, 1);
    lemma_sextet_range(bytes, 0, 2);
    lemma_sextet_range(bytes, 0, 3);
    lemma_alphabet_digit(sextet(bytes, 0, 0));
    lemma_alphabet_digit(sextet(bytes, 0, 1));
    lemma_alphabet_digit(sextet(bytes, 0, 2));
    lemma_alphabet_digit(sextet(bytes, 0, 3));
    assert(q[0] == s[0] && q[1] == s[1] && q[2] == s[2] && q[3] == s[3]);
    assert(b64_value(q[0]) == b0 / 4);
    assert(b64_value(q[1]) == (b0 % 4) * 16 + b1 / 16);
    let v0 = b64_value(q[0]);
    let v1 = b64_value(q[1]);
    assert(v0 * 4 + v1 / 16 == b0) by (nonlinear_arith)
        requires
            0 <= b0 < 256,
            0 <= b1 < 256,
            v0 == b0 / 4,
            v1 == (b0 % 4) * 16 + b1 / 16,
    ;
    assert(bytes[0] as int == b0);
    if n >= 2 {
        assert(b64_value(q[2]) == (b1 % 16) * 4 + b2 / 64);
        let v2 = b64_value(q[2]);
        assert((v1 % 16) * 16 + v2 / 4 == b1) by (nonlinear_arith)
            requires
                0 <= b0 < 256,
                0 <= b1 < 256,
                0 <= b2 < 256,
                v1 == (b0 % 4) * 16 + b1 / 16,
                v2 == (b1 % 16) * 4 + b2 / 64,
        ;
        assert(bytes[1] as int == b1);
        if n >= 3 {
            assert(b64_value(q[3]) == b2 % 64);
            let v3 = b64_value(q[3]);
            assert((v2 % 4) * 64 + v3 == b2) by (nonlinear_arith)
                requires
                    0 <= b1 < 256,
                    0 <= b2 < 256,
                    v2 == (b1 % 16) * 4 + b2 / 64,
                    v3 == b2 % 64,
            ;
            assert(bytes[2] as int == b2);
            assert(decoded_group(q) =~= bytes.take(3));
        } else {
            assert(decoded_group(q) =~= bytes.take(n as int));
        }
    } else {
        assert(decoded_group(q) =~= bytes.take(n as int));
    }
}

proof fn lemma_encoded_rest(bytes: Seq<u8>)
    requires
        bytes.len() > 3,
    ensures
        base64_standard(bytes).skip(4) == base64_standard(bytes.skip(3)),
{
    let s = base64_standard(bytes);
    let t = base64_standard(bytes.skip(3));
    let n = bytes.len();
    assert(base64_len(n) == base64_len((n - 3) as nat) + 4) by (nonlinear_arith)
        requires
            n > 3,
    ;
    assert forall|i: int| 0 <= i < t.len() implies s.skip(4)[i] == t[i] by {
        let g = i / 4;
        let k = i % 4;
        assert((i + 4) / 4 == g + 1 && (i + 4) % 4 == k);
        assert(sextet(bytes, g + 1, k) == sextet(bytes.skip(3), g, k)) by {
            assert(byte_or_zero(bytes, 3 * (g + 1)) == byte_or_zero(bytes.skip(3), 3 * g));
            assert(byte_or_zero(bytes, 3 * (g + 1) + 1) == byte_or_zero(bytes.skip(3), 3 * g + 1));
            assert(byte_or_zero(bytes, 3 * (g + 1) + 2) == byte_or_zero(bytes.skip(3), 3 * g + 2));
        }
    }
    assert(s.skip(4) =~= t);
}

/// Decoding the base64 text with the standard alphabet gives the bytes back.
pub proof fn lemma_base64_round_trip(bytes: Seq<u8>)
    ensures
        base64_decoded(base64_standard(bytes)) == bytes,
    decreases bytes.len(),
{
    let s = base64_standard(bytes);
    if bytes.len() == 0 {
        assert(base64_decoded(s) =~= bytes);
    } else {
        lemma_decoded_first_group(bytes);
        assert(s.len() >= 4) by (nonlinear_arith)
            requires
                s.len() == 4 * ((bytes.len() + 2) / 3),
                bytes.len() > 0,
        ;
        assert(base64_decoded(s) == decoded_group(s.take(4)) + base64_decoded(s.skip(4)));
        if bytes.len() <= 3 {
            assert(s.len() == 4) by (nonlinear_arith)
                requires
                    s.len() == 4 * ((bytes.len() + 2) / 3),
                    0 < bytes.len() <= 3,
            ;
            assert(s.skip(4) =~= Seq::<char>::empty());
            assert(base64_decoded(s.skip(4)) =~= Seq::<u8>::empty());
            assert(bytes.take(bytes.len() as int) =~= bytes);
            assert(base64_decoded(s) =~= bytes);
        } else {
            lemma_encoded_rest(bytes);
            lemma_base64_round_trip(bytes.skip(3));
            assert(bytes.take(3) + bytes.skip(3) =~= bytes);
        }
    }
}

/// Encodes `bytes` as standard padded base64 on one line (what `base64`'s
/// `STANDARD` engine produces).
fn encode_base64(bytes: &[u8]) -> (s: String)
    requires
        base64_len(bytes@.len()) <= usize::MAX,
    ensures
        s@ == base64_standard(bytes@),
        s@.len() == base64_len(bytes@.len()),
{
    let alphabet = "ABCDEFGHIJKLMNOPQRSTUVWXYZabcdefghijklmnopqrstuvwxyz0123456789+/";
    proof {
        reveal_strlit("ABCDEFGHIJKLMNOPQRSTUVWXYZabcdefghijklmnopqrstuvwxyz0123456789+/");
        reveal_strlit("=");
    }
    let ghost full = base64_standard(bytes@);
    let n = bytes.len();
    let mut s = String::new();
    let mut i: usize = 0;
    while i < n
        invariant
            n == bytes@.len(),
            base64_len(n as nat) <= usize::MAX,
            full == base64_standard(bytes@),
            alphabet@ == b64_alphabet(),
            alphabet@.len() == 64,
            i % 3 == 0,
            i <= n + 2,
            s@.len() == 4 * (i / 3),
            s@ == full.take(4 * (i / 3)),
        decreases n + 3 - i,
    {
        proof {
            reveal_strlit("=");
        }
        let ghost g: int = (i / 3) as int;
        assert(4 * (g + 1) <= base64_len(n as nat)) by (nonlinear_arith)
            requires
                i == 3 * g,
                i < n,
                base64_len(n as nat) == 4 * ((n + 2) / 3),
        ;
        let b0 = bytes[i];
        let b1: u8 = if i + 1 < n {
            bytes[i + 1]
        } else {
            0
        };
        let b2: u8 = if i + 2 < n {
            bytes[i + 2]
        } else {
            0
        };
        assert(byte_or_zero(bytes@, 3 * g) == b0);
        assert(byte_or_zero(bytes@, 3 * g + 1) == b1);
        assert(byte_or_zero(bytes@, 3 * g + 2) == b2);
        let d0 = b0 / 4;
        let d1 = (b0 % 4) * 16 + b1 / 16;
        let d2 = (b1 % 16) * 4 + b2 / 64;
        let d3 = b2 % 64;
        let ghost before = s@;
        let p0 = alphabet.substring_char(d0 as usize, d0 as usize + 1);
        let p1 = alphabet.substring_char(d1 as usize, d1 as usize + 1);
        let p2 = if i + 1 < n {
            alphabet.substring_char(d2 as usize, d2 as usize + 1)
        } else {
            "="
        };
        let p3 = if i + 2 < n {
            alphabet.substring_char(d3 as usize, d3 as usize + 1)
        } else {
            "="
        };
        s.append(p0);
        s.append(p1);
        s.append(p2);
        s.append(p3);
        assert(s@ =~= before + p0@ + p1@ + p2@ + p3@);
        assert forall|j: int| 4 * g <= j < 4 * g + 4 implies #[trigger] s@[j] == full[j] by {
            let k = j - 4 * g;
            assert(j / 4 == g && j % 4 == k) by (nonlinear_arith)
                requires
                    0 <= k < 4,
                    j == 4 * g + k,
                    g >= 0,
            ;
            if k == 0 {
                assert(s@[j] == p0@[0]);
            } else if k == 1 {
                assert(s@[j] == p1@[0]);
            } else if k == 2 {
                assert(s@[j] == p2@[0]);
            } else {
                assert(s@[j] == p3@[0]);
            }
        }
        i = i + 3;
        assert(s@ =~= full.take(4 * (i / 3)));
    }
    assert(4 * (i / 3) == base64_len(n as nat)) by (nonlinear_arith)
        requires
            i % 3 == 0,
            n <= i <= n + 2,
            base64_len(n as nat) == 4 * ((n + 2) / 3),
    ;
    assert(s@ =~= full);
    s
}

/// What became of one request in resident mode.
#[derive(Debug)]
pub enum ServeOutcome {
    /// The line was not a valid request; the parser's message.
    BadRequest(String),
    /// Synthesis failed; the error's message.
    Failed(String),
    /// Synthesis produced this WAVE file.
    Audio(Vec<u8>),
}

/// The answer written back for one request.
#[derive(Debug)]
pub enum ServeReply {
    /// `{"ok":true,"wav_base64":...}`
    Audio { wav_base64: String },
    /// `{"ok":false,"error":...}`
    Failure { error: String },
}

/// The prefix of the message for a line that is not a valid request.
pub open spec fn bad_request_prefix() -> Seq<char> {
    "不正なリクエスト JSON: "@
}

/// Whether an input line is a request: blank lines are skipped without reply.
pub fn is_request_line(line: &str) -> (b: bool)
    ensures
        b == !is_blank(line@),
{
    !trims_to_empty(line)
}

/// The reply to a request: the audio as base64, or the failure's message (a
/// bad request's message after a fixed prefix).
pub fn serve_reply(outcome: ServeOutcome) -> (reply: ServeReply)
    requires
        outcome matches ServeOutcome::Audio(wav) ==> base64_len(wav@.len()) <= usize::MAX,
    ensures
        match outcome {
            ServeOutcome::BadRequest(msg) => reply matches ServeReply::Failure { error }
                && error@ == bad_request_prefix() + msg@,
            ServeOutcome::Failed(msg) => reply matches ServeReply::Failure { error } && error@
                == msg@,
            ServeOutcome::Audio(wav) => reply matches ServeReply::Audio { wav_base64 }
                && wav_base64@ == base64_standard(wav@) && wav_base64@.len() == base64_len(
                wav@.len(),
            ) && base64_decoded(wav_base64@) == wav@,
        },
{
    match outcome {
        ServeOutcome::BadRequest(msg) => {
            let mut error = "不正なリクエスト JSON: ".to_owned();
            error.append(msg.as_str());
            ServeReply::Failure { error }
        },
        ServeOutcome::Failed(msg) => ServeReply::Failure { error: msg },
        ServeOutcome::Audio(wav) => {
            let wav_base64 = encode_base64(wav.as_slice());
            proof {
                lemma_base64_round_trip(wav@);
            }
            ServeReply::Audio { wav_base64 }
        },
    }
}

} // verus!
