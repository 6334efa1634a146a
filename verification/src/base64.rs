//! Standard Base64 (RFC 4648 alphabet, `=` padding), used to hand a report to
//! the terminal clipboard through an OSC 52 sequence.
use vstd::prelude::*;
use crate::text::char_of_ascii;

verus! {

/// The Base64 digit for a six-bit value `x`: `A`-`Z`, `a`-`z`, `0`-`9`, `+`, `/`.
pub open spec fn b64_digit(x: u8) -> char {
    if x < 26 {
        ((x + 65) as u32) as char
    } else if x < 52 {
        ((x + 71) as u32) as char
    } else if x < 62 {
        ((x - 4) as u32) as char
    } else if x == 62 {
        '+'
    } else {
        '/'
    }
}

/// The four output characters for a group of one to three input bytes.
pub open spec fn encode_group(g: Seq<u8>) -> Seq<char> {
    let b0 = g[0];
    let b1: u8 = if g.len() > 1 {
        g[1]
    } else {
        0
    };
    let b2: u8 = if g.len() > 2 {
        g[2]
    } else {
        0
    };
    seq![
        b64_digit(b0 >> 2),
        b64_digit(((b0 & 3) << 4) | (b1 >> 4)),
        if g.len() > 1 {
            b64_digit(((b1 & 15) << 2) | (b2 >> 6))
        } else {
            '='
        },
        if g.len() > 2 {
            b64_digit(b2 & 63)
        } else {
            '='
        },
    ]
}

/// The Base64 encoding of `s`: each group of three bytes, the last group
/// possibly shorter, becomes four characters.
pub open spec fn base64(s: Seq<u8>) -> Seq<char>
    decreases s.len(),
{
    if s.len() == 0 {
        seq![]
    } else if s.len() <= 3 {
        encode_group(s)
    } else {
        encode_group(s.take(3)) + base64(s.skip(3))
    }
}

fn digit(x: u8) -> (c: char)
    ensures
        c == b64_digit(x),
{
    if x < 26 {
        char_of_ascii(x + 65)
    } else if x < 52 {
        char_of_ascii(x + 71)
    } else if x < 62 {
        char_of_ascii(x - 4)
    } else if x == 62 {
        '+'
    } else {
        '/'
    }
}

/// Encodes `bytes` as Base64.
pub fn to_base64(bytes: &[u8]) -> (out: String)
    ensures
        out@ == base64(bytes@),
        out@.len() == 4 * ((bytes@.len() + 2) / 3),
{
    let n = bytes.len();
    let mut out = String::new();
    let mut i: usize = 0;
    assert(bytes@.skip(0) =~= bytes@);
    while i < n
        invariant
            n == bytes@.len(),
            i <= n,
            base64(bytes@) == out@ + base64(bytes@.skip(i as int)),
        decreases n - i,
    {
        let rest = n - i;
        let b0 = bytes[i];
        let b1: u8 = if rest > 1 {
            bytes[i + 1]
        } else {
            0
        };
        let b2: u8 = if rest > 2 {
            bytes[i + 2]
        } else {
            0
        };
        let ghost tail = bytes@.skip(i as int);
        let ghost g = if rest <= 3 {
            tail
        } else {
            tail.take(3)
        };
        let ghost old_out = out@;
        out.push(digit(b0 >> 2));
        out.push(digit(((b0 & 3) << 4) | (b1 >> 4)));
        if rest > 1 {
            out.push(digit(((b1 & 15) << 2) | (b2 >> 6)));
        } else {
            out.push('=');
        }
        if rest > 2 {
            out.push(digit(b2 & 63));
        } else {
            out.push('=');
        }
        assert(out@ =~= old_out + encode_group(g));
        if rest <= 3 {
            assert(bytes@.skip(n as int) =~= Seq::<u8>::empty());
            i = n;
        } else {
            assert(tail.skip(3) =~= bytes@.skip(i + 3));
            i = i + 3;
        }
    }
    proof {
        lemma_base64_len(bytes@);
    }
    out
}

/// Every group of up to three bytes becomes exactly four characters.
pub proof fn lemma_base64_len(s: Seq<u8>)
    ensures
        base64(s).len() == 4 * ((s.len() + 2) / 3),
    decreases s.len(),
{
    if s.len() > 3 {
        lemma_base64_len(s.skip(3));
    }
}

/// Encoding splits at any whole number of three-byte groups: the encoding of
/// `a + b` is the encoding of `a` followed by that of `b` when `a` holds a
/// multiple of three bytes.
pub proof fn lemma_base64_concat(a: Seq<u8>, b: Seq<u8>)
    requires
        a.len() % 3 == 0,
    ensures
        base64(a + b) == base64(a) + base64(b),
    decreases a.len(),
{
    if a.len() == 0 {
        assert(a + b =~= b);
        assert(base64(a) =~= Seq::<char>::empty());
        assert(base64(a) + base64(b) =~= base64(b));
    } else {
        let ab = a + b;
        assert(ab.take(3) =~= a.take(3));
        assert(ab.skip(3) =~= a.skip(3) + b);
        lemma_base64_concat(a.skip(3), b);
        if a.len() == 3 {
            assert(a.skip(3) =~= Seq::<u8>::empty());
            assert(a.take(3) =~= a);
            assert(a.skip(3) + b =~= b);
            if b.len() == 0 {
                assert(ab =~= a);
                assert(base64(b) =~= Seq::<char>::empty());
                assert(base64(a) + base64(b) =~= base64(a));
            }
        } else {
            assert(encode_group(a.take(3)) + base64(a.skip(3)) + base64(b)
                =~= encode_group(a.take(3)) + (base64(a.skip(3)) + base64(b)));
        }
    }
}

/// Every character of an encoding is a Base64 digit or the padding `=`.
pub proof fn lemma_base64_alphabet(s: Seq<u8>)
    ensures
        forall|i: int|
            0 <= i < base64(s).len() ==> is_base64_char(#[trigger] base64(s)[i]),
    decreases s.len(),
{
    if s.len() > 0 {
        let g = if s.len() <= 3 {
            s
        } else {
            s.take(3)
        };
        assert forall|x: u8| true implies is_base64_char(#[trigger] b64_digit(x)) by {}
        if s.len() > 3 {
            lemma_base64_alphabet(s.skip(3));
        }
        let e = encode_group(g);
        assert(forall|i: int| 0 <= i < 4 ==> is_base64_char(#[trigger] e[i]));
        if s.len() > 3 {
            let r = base64(s.skip(3));
            assert(base64(s) == e + r);
            assert forall|i: int| 0 <= i < base64(s).len() implies is_base64_char(
                #[trigger] base64(s)[i],
            ) by {
                if i >= 4 {
                    assert(base64(s)[i] == r[i - 4]);
                }
            }
        }
    }
}

/// How many `=` close the encoding of `n` bytes: none for a whole number of
/// three-byte groups, two after one left-over byte, one after two.
pub open spec fn base64_padding(n: nat) -> nat {
    if n % 3 == 0 {
        0
    } else {
        (3 - n % 3) as nat
    }
}

/// The padding `=` stands exactly in the last `base64_padding(n)` places of an
/// encoding of `n` bytes, and nowhere else.
pub proof fn lemma_base64_padding(s: Seq<u8>)
    ensures
        forall|i: int|
            0 <= i < base64(s).len() ==> (#[trigger] base64(s)[i] == '=' <==> i >= base64(s).len()
                - base64_padding(s.len())),
    decreases s.len(),
{
    lemma_base64_len(s);
    assert forall|x: u8| #[trigger] b64_digit(x) != '=' by {}
    if s.len() > 0 && s.len() <= 3 {
        let e = encode_group(s);
        assert(base64(s) == e);
    } else if s.len() > 3 {
        let e = encode_group(s.take(3));
        let r = base64(s.skip(3));
        lemma_base64_padding(s.skip(3));
        lemma_base64_len(s.skip(3));
        assert(base64(s) == e + r);
        assert(s.skip(3).len() % 3 == s.len() % 3);
        assert forall|i: int| 0 <= i < base64(s).len() implies (#[trigger] base64(s)[i] == '='
            <==> i >= base64(s).len() - base64_padding(s.len())) by {
            if i >= 4 {
                assert(base64(s)[i] == r[i - 4]);
            } else {
                assert(base64(s)[i] == e[i]);
            }
        }
    }
}

/// The characters that may appear in a Base64 encoding.
pub open spec fn is_base64_char(c: char) -> bool {
    ||| 'A' <= c && c <= 'Z'
    ||| 'a' <= c && c <= 'z'
    ||| '0' <= c && c <= '9'
    ||| c == '+'
    ||| c == '/'
    ||| c == '='
}

} // verus!
