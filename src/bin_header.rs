//! Binary metadata values (`-bin` keys): standard base64 with `=` padding.
use vstd::prelude::*;

verus! {

/// The base64 character of a six-bit value.
pub open spec fn b64_char(v: int) -> u8 {
    if v < 26 {
        (0x41 + v) as u8
    } else if v < 52 {
        (0x61 + v - 26) as u8
    } else if v < 62 {
        (0x30 + v - 52) as u8
    } else if v == 62 {
        0x2B
    } else {
        0x2F
    }
}

/// The six-bit value of a base64 character, or -1.
pub open spec fn b64_val(c: u8) -> int {
    if 0x41 <= c <= 0x5A {
        c - 0x41
    } else if 0x61 <= c <= 0x7A {
        c - 0x61 + 26
    } else if 0x30 <= c <= 0x39 {
        c - 0x30 + 52
    } else if c == 0x2B {
        62
    } else if c == 0x2F {
        63
    } else {
        -1
    }
}

/// The characters of one group of up to three bytes, padded to four.
pub open spec fn encode_group(g: Seq<u8>) -> Seq<u8> {
    let a = g[0] as int;
    let b = if g.len() > 1 { g[1] as int } else { 0 };
    let c = if g.len() > 2 { g[2] as int } else { 0 };
    let c0 = b64_char(a / 4);
    let c1 = b64_char((a % 4) * 16 + b / 16);
    let c2 = if g.len() > 1 { b64_char((b % 16) * 4 + c / 64) } else { 0x3Du8 };
    let c3 = if g.len() > 2 { b64_char(c % 64) } else { 0x3Du8 };
    seq![c0, c1, c2, c3]
}

/// Standard base64 with padding.
pub open spec fn b64_encode(s: Seq<u8>) -> Seq<u8>
    decreases s.len(),
{
    if s.len() == 0 {
        Seq::empty()
    } else if s.len() <= 3 {
        encode_group(s)
    } else {
        encode_group(s.take(3)) + b64_encode(s.skip(3))
    }
}

/// The bytes of one group of four characters, the last of which may be
/// padded; `None` if a character is not base64.
pub open spec fn decode_group(g: Seq<u8>, last: bool) -> Option<Seq<u8>> {
    let v0 = b64_val(g[0]);
    let v1 = b64_val(g[1]);
    let v2 = b64_val(g[2]);
    let v3 = b64_val(g[3]);
    if v0 < 0 || v1 < 0 {
        None
    } else if last && g[2] == 0x3D && g[3] == 0x3D {
        Some(seq![(v0 * 4 + v1 / 16) as u8])
    } else if v2 < 0 {
        None
    } else if last && g[3] == 0x3D {
        Some(seq![(v0 * 4 + v1 / 16) as u8, ((v1 % 16) * 16 + v2 / 4) as u8])
    } else if v3 < 0 {
        None
    } else {
        Some(
            seq![
                (v0 * 4 + v1 / 16) as u8,
                ((v1 % 16) * 16 + v2 / 4) as u8,
                ((v2 % 4) * 64 + v3) as u8,
            ],
        )
    }
}

/// The bytes that padded base64 text writes, or `None` if it is not padded
/// base64.
pub open spec fn b64_decode(s: Seq<u8>) -> Option<Seq<u8>>
    decreases s.len(),
{
    if s.len() == 0 {
        Some(Seq::empty())
    } else if s.len() < 4 {
        None
    } else {
        match decode_group(s.take(4), s.len() == 4) {
            None => None,
            Some(g) => match b64_decode(s.skip(4)) {
                None => None,
                Some(r) => Some(g + r),
            },
        }
    }
}

proof fn lemma_char_round_trip(v: int)
    requires
        0 <= v < 64,
    ensures
        b64_val(b64_char(v)) == v,
        b64_char(v) != 0x3D,
{
}

proof fn lemma_group_round_trip(g: Seq<u8>, last: bool)
    requires
        1 <= g.len() <= 3,
        g.len() < 3 ==> last,
    ensures
        decode_group(encode_group(g), last) == Some(g),
{
    let a = g[0] as int;
    let b = if g.len() > 1 { g[1] as int } else { 0 };
    let c = if g.len() > 2 { g[2] as int } else { 0 };
    lemma_char_round_trip(a / 4);
    lemma_char_round_trip((a % 4) * 16 + b / 16);
    lemma_char_round_trip((b % 16) * 4 + c / 64);
    lemma_char_round_trip(c % 64);
    assert(a / 4 * 4 + ((a % 4) * 16 + b / 16) / 16 == a) by (nonlinear_arith)
        requires
            0 <= a < 256,
            0 <= b < 256,
    ;
    assert((((a % 4) * 16 + b / 16) % 16) * 16 + ((b % 16) * 4 + c / 64) / 4 == b) by (
    nonlinear_arith)
        requires
            0 <= a < 256,
            0 <= b < 256,
            0 <= c < 256,
    ;
    assert((((b % 16) * 4 + c / 64) % 4) * 64 + c % 64 == c) by (nonlinear_arith)
        requires
            0 <= b < 256,
            0 <= c < 256,
    ;
    let d = decode_group(encode_group(g), last);
    if g.len() == 1 {
        assert(d.unwrap() =~= g);
    } else if g.len() == 2 {
        assert(d.unwrap() =~= g);
    } else {
        assert(d.unwrap() =~= g);
    }
}

/// Decoding the base64 of any bytes gives the bytes back.
pub proof fn lemma_b64_round_trip(s: Seq<u8>)
    ensures
        b64_decode(b64_encode(s)) == Some(s),
    decreases s.len(),
{
    let e = b64_encode(s);
    if s.len() == 0 {
    } else if s.len() <= 3 {
        lemma_group_round_trip(s, true);
        assert(e.take(4) =~= e);
        assert(e.skip(4) =~= Seq::<u8>::empty());
        assert(b64_decode(e.skip(4)) == Some(Seq::<u8>::empty()));
        assert(s + Seq::<u8>::empty() =~= s);
    } else {
        let rest = s.skip(3);
        lemma_b64_round_trip(rest);
        lemma_group_round_trip(s.take(3), false);
        let er = b64_encode(rest);
        assert(er.len() >= 4) by {
            assert(rest.len() > 0);
        }
        assert(e.take(4) =~= encode_group(s.take(3)));
        assert(e.skip(4) =~= er);
        assert(s.take(3) + rest =~= s);
    }
}

fn b64_char_exec(v: u8) -> (r: u8)
    requires
        v < 64,
    ensures
        r == b64_char(v as int),
{
    if v < 26 {
        0x41 + v
    } else if v < 52 {
        0x61 + v - 26
    } else if v < 62 {
        0x30 + v - 52
    } else if v == 62 {
        0x2B
    } else {
        0x2F
    }
}

fn b64_val_exec(c: u8) -> (r: i16)
    ensures
        r as int == b64_val(c),
{
    if 0x41 <= c && c <= 0x5A {
        (c - 0x41) as i16
    } else if 0x61 <= c && c <= 0x7A {
        (c - 0x61 + 26) as i16
    } else if 0x30 <= c && c <= 0x39 {
        (c - 0x30 + 52) as i16
    } else if c == 0x2B {
        62
    } else if c == 0x2F {
        63
    } else {
        -1
    }
}

/// Writes bytes as padded base64.
pub fn encode_bin(s: &[u8]) -> (r: Vec<u8>)
    ensures
        r@ == b64_encode(s@),
{
    let mut out: Vec<u8> = Vec::new();
    let mut i: usize = 0;
    assert(s@.skip(0) =~= s@);
    while i < s.len()
        invariant
            i <= s.len(),
            out@ + b64_encode(s@.skip(i as int)) == b64_encode(s@),
        decreases s.len() - i,
    {
        let ghost t = s@.skip(i as int);
        let ghost before = out@;
        let n: usize = if s.len() - i >= 3 { 3 } else { s.len() - i };
        let a = s[i];
        let b: u8 = if n > 1 { s[i + 1] } else { 0 };
        let c: u8 = if n > 2 { s[i + 2] } else { 0 };
        out.push(b64_char_exec(a / 4));
        out.push(b64_char_exec((a % 4) * 16 + b / 16));
        if n > 1 {
            out.push(b64_char_exec((b % 16) * 4 + c / 64));
        } else {
            out.push(0x3D);
        }
        if n > 2 {
            out.push(b64_char_exec(c % 64));
        } else {
            out.push(0x3D);
        }
        proof {
            let g = t.take(n as int);
            assert(out@ =~= before + encode_group(g));
            if t.len() <= 3 {
                assert(g =~= t);
                assert(s@.skip(i + n) =~= Seq::<u8>::empty());
                assert(b64_encode(s@.skip(i + n)) == Seq::<u8>::empty());
                assert(out@ + b64_encode(s@.skip(i + n)) =~= before + b64_encode(t));
            } else {
                assert(t.skip(3) =~= s@.skip(i + 3));
                assert(out@ + b64_encode(s@.skip(i + n)) =~= before + b64_encode(t));
            }
        }
        i += n;
    }
    assert(s@.skip(i as int) =~= Seq::<u8>::empty());
    assert(out@ + Seq::<u8>::empty() =~= out@);
    out
}

/// `Some(p + r)` when `o` is `Some(r)`.
pub open spec fn prepend(p: Seq<u8>, o: Option<Seq<u8>>) -> Option<Seq<u8>> {
    match o {
        Some(r) => Some(p + r),
        None => None,
    }
}

/// Reads padded base64; `None` when the text is not padded base64.
pub fn decode_bin(s: &[u8]) -> (r: Option<Vec<u8>>)
    ensures
        match b64_decode(s@) {
            Some(d) => r matches Some(v) && v@ == d,
            None => r is None,
        },
{
    let mut out: Vec<u8> = Vec::new();
    let mut i: usize = 0;
    assert(s@.skip(0) =~= s@);
    assert(Seq::<u8>::empty() + s@ =~= s@);
    while i < s.len()
        invariant
            i <= s.len(),
            prepend(out@, b64_decode(s@.skip(i as int))) == prepend(Seq::empty(), b64_decode(s@)),
        decreases s.len() - i,
    {
        let ghost t = s@.skip(i as int);
        let ghost before = out@;
        if s.len() - i < 4 {
            return None;
        }
        let last = s.len() - i == 4;
        let v0 = b64_val_exec(s[i]);
        let v1 = b64_val_exec(s[i + 1]);
        let v2 = b64_val_exec(s[i + 2]);
        let v3 = b64_val_exec(s[i + 3]);
        assert(t.take(4)[0] == s@[i as int] && t.take(4)[1] == s@[i + 1] && t.take(4)[2] == s@[i
            + 2] && t.take(4)[3] == s@[i + 3]);
        if v0 < 0 || v1 < 0 {
            return None;
        }
        let x0 = (v0 * 4 + v1 / 16) as u8;
        if last && s[i + 2] == 0x3D && s[i + 3] == 0x3D {
            out.push(x0);
        } else if v2 < 0 {
            return None;
        } else if last && s[i + 3] == 0x3D {
            out.push(x0);
            out.push(((v1 % 16) * 16 + v2 / 4) as u8);
        } else if v3 < 0 {
            return None;
        } else {
            out.push(x0);
            out.push(((v1 % 16) * 16 + v2 / 4) as u8);
            out.push(((v2 % 4) * 64 + v3) as u8);
        }
        proof {
            let g = decode_group(t.take(4), t.len() == 4).unwrap();
            assert(out@ =~= before + g);
            assert(t.skip(4) =~= s@.skip(i + 4));
            match b64_decode(t.skip(4)) {
                Some(r) => assert(out@ + r =~= before + (g + r)),
                None => {},
            }
        }
        i += 4;
    }
    assert(s@.skip(i as int) =~= Seq::<u8>::empty());
    assert(out@ + Seq::<u8>::empty() =~= out@);
    Some(out)
}

} // verus!
