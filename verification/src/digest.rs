//! SHA-1 and base64, as the WebSocket handshake needs them.

use vstd::prelude::*;

use crate::bytes::{be32, be64, push_all, push_u64};

verus! {

/// Five 32-bit words of chaining state.
pub struct Chain {
    pub a: u32,
    pub b: u32,
    pub c: u32,
    pub d: u32,
    pub e: u32,
}

/// Sum modulo 2^32.
pub open spec fn plus(x: u32, y: u32) -> u32 {
    x.wrapping_add(y)
}

/// `x` turned left by `n` bits, `0 < n < 32`.
pub open spec fn rotl(x: u32, n: u32) -> u32 {
    (x << n) | (x >> ((32 - n) as u32))
}

/// The number of zero bytes between the end mark and the length.
pub open spec fn zero_count(len: nat) -> nat {
    ((119 - len % 64) % 64) as nat
}

/// The message with its end mark, zeros and length in bits; a whole number of 64-byte blocks.
pub open spec fn padded(m: Seq<u8>) -> Seq<u8> {
    m.push(0x80) + Seq::new(zero_count(m.len()), |i: int| 0u8) + be64(
        (m.len() * 8 % 0x1_0000_0000_0000_0000) as u64,
    )
}

/// The big-endian word at byte `4 * i` of a block.
pub open spec fn word(block: Seq<u8>, i: int) -> u32 {
    (block[4 * i] * 0x100_0000 + block[4 * i + 1] * 0x1_0000 + block[4 * i + 2] * 0x100 + block[4
        * i + 3]) as u32
}

/// Word `t` of the message schedule of a block.
pub open spec fn schedule(block: Seq<u8>, t: nat) -> u32
    decreases t,
{
    if t < 16 {
        word(block, t as int)
    } else {
        rotl(
            schedule(block, (t - 3) as nat) ^ schedule(block, (t - 8) as nat) ^ schedule(
                block,
                (t - 14) as nat,
            ) ^ schedule(block, (t - 16) as nat),
            1,
        )
    }
}

/// The logical function of round `t`.
pub open spec fn choose_bits(t: nat, b: u32, c: u32, d: u32) -> u32 {
    if t < 20 {
        (b & c) | ((!b) & d)
    } else if t < 40 {
        b ^ c ^ d
    } else if t < 60 {
        (b & c) | (b & d) | (c & d)
    } else {
        b ^ c ^ d
    }
}

/// The constant of round `t`.
pub open spec fn round_constant(t: nat) -> u32 {
    if t < 20 {
        0x5A827999
    } else if t < 40 {
        0x6ED9EBA1
    } else if t < 60 {
        0x8F1BBCDC
    } else {
        0xCA62C1D6
    }
}

/// One round.
pub open spec fn round(s: Chain, t: nat, w: u32) -> Chain {
    Chain {
        a: plus(
            plus(plus(plus(rotl(s.a, 5), choose_bits(t, s.b, s.c, s.d)), s.e), round_constant(t)),
            w,
        ),
        b: s.a,
        c: rotl(s.b, 30),
        d: s.c,
        e: s.d,
    }
}

/// The state after the first `t` rounds on a block.
pub open spec fn rounds(h: Chain, block: Seq<u8>, t: nat) -> Chain
    decreases t,
{
    if t == 0 {
        h
    } else {
        round(rounds(h, block, (t - 1) as nat), (t - 1) as nat, schedule(block, (t - 1) as nat))
    }
}

/// The state after a block.
pub open spec fn compressed(h: Chain, block: Seq<u8>) -> Chain {
    let r = rounds(h, block, 80);
    Chain {
        a: plus(h.a, r.a),
        b: plus(h.b, r.b),
        c: plus(h.c, r.c),
        d: plus(h.d, r.d),
        e: plus(h.e, r.e),
    }
}

/// The initial state.
pub open spec fn initial() -> Chain {
    Chain { a: 0x67452301, b: 0xEFCDAB89, c: 0x98BADCFE, d: 0x10325476, e: 0xC3D2E1F0 }
}

/// The state after the first `n` blocks of `m`.
pub open spec fn chained(m: Seq<u8>, n: nat) -> Chain
    decreases n,
{
    if n == 0 {
        initial()
    } else {
        compressed(chained(m, (n - 1) as nat), m.subrange(64 * (n - 1), 64 * (n as int)))
    }
}

/// The SHA-1 digest of a message.
pub open spec fn digest(m: Seq<u8>) -> Seq<u8> {
    let p = padded(m);
    let h = chained(p, p.len() / 64);
    be32(h.a) + be32(h.b) + be32(h.c) + be32(h.d) + be32(h.e)
}

fn turn_left(x: u32, n: u32) -> (r: u32)
    requires
        0 < n < 32,
    ensures
        r == rotl(x, n),
{
    (x << n) | (x >> (32 - n))
}

fn pad(data: &[u8]) -> (r: Vec<u8>)
    ensures
        r@ == padded(data@),
        r.len() % 64 == 0,
{
    let n: usize = data.len();
    let zeros: usize = (119 - n % 64) % 64;
    let mut msg: Vec<u8> = Vec::new();
    push_all(&mut msg, data);
    proof {
        assert(Seq::<u8>::empty() + data@ == data@);
    }
    msg.push(0x80);
    let ghost head = msg@;
    let mut j: usize = 0;
    while j < zeros
        invariant
            j <= zeros,
            msg@ == head + Seq::new(j as nat, |i: int| 0u8),
        decreases zeros - j,
    {
        msg.push(0);
        proof {
            assert(head + Seq::new((j + 1) as nat, |i: int| 0u8) == (head + Seq::new(
                j as nat,
                |i: int| 0u8,
            )).push(0u8));
        }
        j = j + 1;
    }
    let bits: u64 = (n as u64).wrapping_mul(8);
    let ghost body = msg@;
    push_u64(&mut msg, bits);
    proof {
        assert(bits == (n * 8 % 0x1_0000_0000_0000_0000) as u64);
        assert(body == data@.push(0x80) + Seq::new(zero_count(data@.len()), |i: int| 0u8));
        assert(msg@.len() == n + 1 + zeros + 8);
        assert((n + 9 + (119 - n % 64) % 64) % 64 == 0);
    }
    msg
}

fn expand(block: &[u8]) -> (w: Vec<u32>)
    requires
        block.len() == 64,
    ensures
        w.len() == 80,
        forall|t: int| 0 <= t < 80 ==> #[trigger] w[t] == schedule(block@, t as nat),
{
    let mut w: Vec<u32> = Vec::new();
    let mut i: usize = 0;
    while i < 16
        invariant
            i <= 16,
            block.len() == 64,
            w.len() == i,
            forall|t: int| 0 <= t < i ==> #[trigger] w[t] == schedule(block@, t as nat),
        decreases 16 - i,
    {
        let x: u32 = block[4 * i] as u32 * 0x100_0000 + block[4 * i + 1] as u32 * 0x1_0000 + block[4
            * i + 2] as u32 * 0x100 + block[4 * i + 3] as u32;
        w.push(x);
        i = i + 1;
    }
    while i < 80
        invariant
            16 <= i <= 80,
            w.len() == i,
            forall|t: int| 0 <= t < i ==> #[trigger] w[t] == schedule(block@, t as nat),
        decreases 80 - i,
    {
        let x: u32 = turn_left(w[i - 3] ^ w[i - 8] ^ w[i - 14] ^ w[i - 16], 1);
        w.push(x);
        i = i + 1;
    }
    w
}

fn compress(h: Chain, block: &[u8]) -> (r: Chain)
    requires
        block.len() == 64,
    ensures
        r == compressed(h, block@),
{
    let w: Vec<u32> = expand(block);
    let mut a: u32 = h.a;
    let mut b: u32 = h.b;
    let mut c: u32 = h.c;
    let mut d: u32 = h.d;
    let mut e: u32 = h.e;
    let mut i: usize = 0;
    while i < 80
        invariant
            i <= 80,
            w.len() == 80,
            forall|t: int| 0 <= t < 80 ==> #[trigger] w[t] == schedule(block@, t as nat),
            (Chain { a, b, c, d, e }) == rounds(h, block@, i as nat),
        decreases 80 - i,
    {
        let f: u32 = if i < 20 {
            (b & c) | ((!b) & d)
        } else if i < 40 {
            b ^ c ^ d
        } else if i < 60 {
            (b & c) | (b & d) | (c & d)
        } else {
            b ^ c ^ d
        };
        let k: u32 = if i < 20 {
            0x5A827999
        } else if i < 40 {
            0x6ED9EBA1
        } else if i < 60 {
            0x8F1BBCDC
        } else {
            0xCA62C1D6
        };
        let tmp: u32 = turn_left(a, 5).wrapping_add(f).wrapping_add(e).wrapping_add(k).wrapping_add(
            w[i],
        );
        e = d;
        d = c;
        c = turn_left(b, 30);
        b = a;
        a = tmp;
        i = i + 1;
    }
    Chain {
        a: h.a.wrapping_add(a),
        b: h.b.wrapping_add(b),
        c: h.c.wrapping_add(c),
        d: h.d.wrapping_add(d),
        e: h.e.wrapping_add(e),
    }
}

/// The SHA-1 digest of `data`.
pub fn sha1(data: &[u8]) -> (r: [u8; 20])
    ensures
        r@ == digest(data@),
{
    let msg: Vec<u8> = pad(data);
    let mut h: Chain = Chain {
        a: 0x67452301,
        b: 0xEFCDAB89,
        c: 0x98BADCFE,
        d: 0x10325476,
        e: 0xC3D2E1F0,
    };
    let mut at: usize = 0;
    while at < msg.len()
        invariant
            at <= msg.len(),
            at % 64 == 0,
            msg.len() % 64 == 0,
            h == chained(msg@, at as nat / 64),
        decreases msg.len() - at,
    {
        let block: &[u8] = vstd::slice::slice_subrange(msg.as_slice(), at, at + 64);
        h = compress(h, block);
        proof {
            assert((at + 64) / 64 == at / 64 + 1);
        }
        at = at + 64;
    }
    [
        (h.a / 0x100_0000) as u8,
        (h.a / 0x1_0000 % 0x100) as u8,
        (h.a / 0x100 % 0x100) as u8,
        (h.a % 0x100) as u8,
        (h.b / 0x100_0000) as u8,
        (h.b / 0x1_0000 % 0x100) as u8,
        (h.b / 0x100 % 0x100) as u8,
        (h.b % 0x100) as u8,
        (h.c / 0x100_0000) as u8,
        (h.c / 0x1_0000 % 0x100) as u8,
        (h.c / 0x100 % 0x100) as u8,
        (h.c % 0x100) as u8,
        (h.d / 0x100_0000) as u8,
        (h.d / 0x1_0000 % 0x100) as u8,
        (h.d / 0x100 % 0x100) as u8,
        (h.d % 0x100) as u8,
        (h.e / 0x100_0000) as u8,
        (h.e / 0x1_0000 % 0x100) as u8,
        (h.e / 0x100 % 0x100) as u8,
        (h.e % 0x100) as u8,
    ]
}

/// The base64 character of a six-bit number.
pub open spec fn sextet(n: nat) -> char {
    if n < 26 {
        (65 + n) as char
    } else if n < 52 {
        (97 + (n - 26)) as char
    } else if n < 62 {
        (48 + (n - 52)) as char
    } else if n == 62 {
        '+'
    } else {
        '/'
    }
}

/// The four base64 characters of one to three bytes.
pub open spec fn quad(g: Seq<u8>) -> Seq<char> {
    let n = (g[0] * 0x1_0000 + (if g.len() > 1 {
        g[1] * 0x100
    } else {
        0
    }) + (if g.len() > 2 {
        g[2] as int
    } else {
        0
    })) as nat;
    seq![
        sextet(n / 0x4_0000),
        sextet(n / 0x1000 % 64),
        if g.len() > 1 {
            sextet(n / 64 % 64)
        } else {
            '='
        },
        if g.len() > 2 {
            sextet(n % 64)
        } else {
            '='
        },
    ]
}

/// The base64 text of a sequence of bytes, padded with `=`.
pub open spec fn base64(s: Seq<u8>) -> Seq<char>
    decreases s.len(),
{
    if s.len() == 0 {
        Seq::empty()
    } else if s.len() <= 3 {
        quad(s)
    } else {
        quad(s.take(3)) + base64(s.skip(3))
    }
}

fn sextet_char(n: u32) -> (r: char)
    requires
        n < 64,
    ensures
        r == sextet(n as nat),
{
    let k: u8 = n as u8;
    if k < 26 {
        (65 + k) as char
    } else if k < 52 {
        (97 + (k - 26)) as char
    } else if k < 62 {
        (48 + (k - 52)) as char
    } else if k == 62 {
        '+'
    } else {
        '/'
    }
}

/// The base64 text of `data`.
pub fn base64_encode(data: &[u8]) -> (r: String)
    ensures
        r@ == base64(data@),
{
    let mut out: String = String::new();
    let mut i: usize = 0;
    proof {
        assert(data@.skip(0) == data@);
        assert(out@ + base64(data@) == base64(data@));
    }
    while i < data.len()
        invariant
            i <= data.len(),
            out@ + base64(data@.skip(i as int)) == base64(data@),
        decreases data.len() - i,
    {
        let left: usize = data.len() - i;
        let b0: u32 = data[i] as u32;
        let b1: u32 = if left > 1 {
            data[i + 1] as u32
        } else {
            0
        };
        let b2: u32 = if left > 2 {
            data[i + 2] as u32
        } else {
            0
        };
        let n: u32 = b0 * 0x1_0000 + b1 * 0x100 + b2;
        let ghost before = out@;
        let ghost rest = data@.skip(i as int);
        let c0: char = sextet_char(n / 0x4_0000);
        let c1: char = sextet_char(n / 0x1000 % 64);
        let c2: char = if left > 1 {
            sextet_char(n / 64 % 64)
        } else {
            '='
        };
        let c3: char = if left > 2 {
            sextet_char(n % 64)
        } else {
            '='
        };
        out.push(c0);
        out.push(c1);
        out.push(c2);
        out.push(c3);
        proof {
            let four = seq![c0, c1, c2, c3];
            assert(out@ == before + four);
            if left <= 3 {
                assert(four == quad(rest));
                assert(data@.skip(data@.len() as int).len() == 0);
                assert(before + four == (before + four) + Seq::<char>::empty());
            } else {
                let g = rest.take(3);
                assert(g[0] == data@[i as int] && g[1] == data@[i + 1] && g[2] == data@[i + 2]);
                assert(four == quad(g));
                assert(rest.skip(3) == data@.skip(i + 3));
                assert(before + (four + base64(data@.skip(i + 3))) == (before + four) + base64(
                    data@.skip(i + 3),
                ));
            }
        }
        i = if left > 3 {
            i + 3
        } else {
            data.len()
        };
    }
    proof {
        assert(data@.skip(data@.len() as int).len() == 0);
        assert(out@ + Seq::<char>::empty() == out@);
    }
    out
}

/// Law: base64 text has four characters for every three bytes, the last group rounded up.
pub proof fn law_base64_length(s: Seq<u8>)
    ensures
        base64(s).len() == (s.len() + 2) / 3 * 4,
    decreases s.len(),
{
    if s.len() > 3 {
        law_base64_length(s.skip(3));
    }
}

/// The six-bit number of a base64 character.
pub open spec fn sextet_value(c: char) -> nat {
    if 'A' <= c <= 'Z' {
        (c as u32 - 65) as nat
    } else if 'a' <= c <= 'z' {
        (c as u32 - 97 + 26) as nat
    } else if '0' <= c <= '9' {
        (c as u32 - 48 + 52) as nat
    } else if c == '+' {
        62
    } else {
        63
    }
}

/// The one to three bytes that four base64 characters stand for.
pub open spec fn unquad(c0: char, c1: char, c2: char, c3: char) -> Seq<u8> {
    let n = sextet_value(c0) * 0x4_0000 + sextet_value(c1) * 0x1000 + (if c2 == '=' {
        0
    } else {
        sextet_value(c2) * 64
    }) + (if c3 == '=' {
        0
    } else {
        sextet_value(c3)
    });
    let b0 = (n / 0x1_0000) as u8;
    let b1 = (n / 0x100 % 0x100) as u8;
    let b2 = (n % 0x100) as u8;
    if c2 == '=' {
        seq![b0]
    } else if c3 == '=' {
        seq![b0, b1]
    } else {
        seq![b0, b1, b2]
    }
}

/// The bytes that a padded base64 text stands for.
pub open spec fn unbase64(t: Seq<char>) -> Seq<u8>
    decreases t.len(),
{
    if t.len() < 4 {
        Seq::empty()
    } else {
        unquad(t[0], t[1], t[2], t[3]) + unbase64(t.skip(4))
    }
}

proof fn lemma_sextet(n: nat)
    requires
        n < 64,
    ensures
        sextet_value(sextet(n)) == n,
        sextet(n) != '=',
{
}

proof fn lemma_split(a: u32, b: u32, c: u32, n: u32)
    by (bit_vector)
    requires
        a < 256,
        b < 256,
        c < 256,
        n == a * 0x1_0000 + b * 0x100 + c,
    ensures
        n / 0x4_0000 < 64,
        n / 0x4_0000 * 0x4_0000 + n / 0x1000 % 64 * 0x1000 + n / 64 % 64 * 64 + n % 64 == n,
        c == 0 ==> n % 64 == 0,
        b == 0 && c == 0 ==> n / 64 % 64 == 0,
        n / 0x1_0000 == a,
        n / 0x100 % 0x100 == b,
        n % 0x100 == c,
{
}

#[verifier::spinoff_prover]
proof fn lemma_quad(g: Seq<u8>)
    requires
        1 <= g.len() <= 3,
    ensures
        ({
            let t = quad(g);
            unquad(t[0], t[1], t[2], t[3]) == g
        }),
{
    let a: u32 = g[0] as u32;
    let b: u32 = if g.len() > 1 {
        g[1] as u32
    } else {
        0
    };
    let c: u32 = if g.len() > 2 {
        g[2] as u32
    } else {
        0
    };
    let n: u32 = (a * 0x1_0000 + b * 0x100 + c) as u32;
    lemma_split(a, b, c, n);
    let s0 = (n / 0x4_0000) as nat;
    let s1 = (n / 0x1000 % 64) as nat;
    let s2 = (n / 64 % 64) as nat;
    let s3 = (n % 64) as nat;
    lemma_sextet(s0);
    lemma_sextet(s1);
    lemma_sextet(s2);
    lemma_sextet(s3);
    let t = quad(g);
    assert(t[0] == sextet(s0));
    assert(t[1] == sextet(s1));
    if g.len() == 1 {
        assert(t[2] == '=' && t[3] == '=');
        assert(g == seq![g[0]]);
    } else if g.len() == 2 {
        assert(t[2] == sextet(s2) && t[3] == '=');
        assert(g == seq![g[0], g[1]]);
    } else {
        assert(t[2] == sextet(s2) && t[3] == sextet(s3));
        assert(g == seq![g[0], g[1], g[2]]);
    }
}

/// Law: decoding what was encoded gives the bytes back.
pub proof fn law_base64_decodes(s: Seq<u8>)
    ensures
        unbase64(base64(s)) == s,
    decreases s.len(),
{
    if s.len() > 3 {
        let g = s.take(3);
        lemma_quad(g);
        law_base64_decodes(s.skip(3));
        let t = base64(s);
        assert(t.skip(4) == base64(s.skip(3)));
        assert(t[0] == quad(g)[0] && t[1] == quad(g)[1] && t[2] == quad(g)[2] && t[3] == quad(g)[3]);
        assert(unbase64(t) == unquad(t[0], t[1], t[2], t[3]) + unbase64(t.skip(4)));
        assert(s == g + s.skip(3));
    } else if s.len() > 0 {
        lemma_quad(s);
        let t = base64(s);
        assert(t.skip(4).len() == 0);
        assert(unbase64(t) == unquad(t[0], t[1], t[2], t[3]) + unbase64(t.skip(4)));
        assert(s + Seq::<u8>::empty() == s);
    } else {
        assert(s == Seq::<u8>::empty());
    }
}

/// Law: the padded message begins with the message and an end mark, is a whole number of blocks with fewer
/// than 64 zeros, and ends with the length in bits.
#[verifier::spinoff_prover]
#[verifier::rlimit(80)]
pub proof fn law_padding(m: Seq<u8>)
    requires
        m.len() < 0x2000_0000_0000_0000,
    ensures
        padded(m).len() % 64 == 0,
        padded(m).len() <= m.len() + 72,
        padded(m).take(m.len() as int) == m,
        padded(m)[m.len() as int] == 128,
        forall|i: int| m.len() < i < padded(m).len() - 8 ==> #[trigger] padded(m)[i] == 0,
        crate::bytes::be_value(padded(m).skip(padded(m).len() - 8)) == 8 * m.len(),
{
    let p = padded(m);
    let bits = (m.len() * 8 % 0x1_0000_0000_0000_0000) as u64;
    crate::bytes::law_be64_reads_back(bits);
    assert(p.len() == m.len() + 1 + zero_count(m.len()) + 8);
    assert(p.take(m.len() as int) =~= m);
    assert(p.skip(p.len() - 8) =~= be64(bits));
}

/// Law: the alphabet of base64: the capitals, the small letters, the figures, `+` and `/`; a last group of
/// one byte is filled up with two `=`, of two bytes with one.
pub proof fn law_base64_alphabet(n: nat, a: u8, b: u8, c: u8)
    ensures
        n < 26 ==> sextet(n) as int == 'A' as int + n,
        26 <= n < 52 ==> sextet(n) as int == 'a' as int + n - 26,
        52 <= n < 62 ==> sextet(n) as int == '0' as int + n - 52,
        sextet(62) == '+',
        sextet(63) == '/',
        base64(seq![a]).len() == 4 && base64(seq![a])[2] == '=' && base64(seq![a])[3] == '=',
        base64(seq![a, b]).len() == 4 && base64(seq![a, b])[2] != '=' && base64(seq![a, b])[3] == '=',
        base64(seq![a, b, c]).len() == 4 && base64(seq![a, b, c])[3] != '=',
        base64(seq![a])[0] == sextet((a / 4) as nat),
        base64(seq![a, b, c])[0] == sextet((a / 4) as nat),
        base64(seq![a, b, c])[3] == sextet((c % 64) as nat),
{
    lemma_sextet(0);
    let x: nat = (a * 0x1_0000) as nat;
    let y: nat = (a * 0x1_0000 + b * 0x100) as nat;
    let z: nat = (a * 0x1_0000 + b * 0x100 + c) as nat;
    assert(y / 64 % 64 < 64);
    lemma_sextet(y / 64 % 64);
    lemma_sextet(z % 64);
    assert(x / 0x4_0000 == a / 4);
    assert(z / 0x4_0000 == a / 4);
    assert(z % 64 == c % 64);
}

} // verus!
