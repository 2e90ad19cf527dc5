//! SLIP-style framing: a frame is a delimiter, the escaped payload and a
//! closing delimiter. Decoding is stated over the byte stream a reader sees.
use vstd::prelude::*;
use crate::error::EspLoaderError;

verus! {

pub const DELIMITER: u8 = 0xC0;
pub const ESCAPE: u8 = 0xDB;
/// Follows `ESCAPE` in place of a literal delimiter.
pub const ESC_DELIMITER: u8 = 0xDC;
/// Follows `ESCAPE` in place of a literal escape byte.
pub const ESC_ESCAPE: u8 = 0xDD;

/// The bytes that stand for `b` inside a frame.
pub open spec fn escape_byte(b: u8) -> Seq<u8> {
    if b == DELIMITER {
        seq![ESCAPE, ESC_DELIMITER]
    } else if b == ESCAPE {
        seq![ESCAPE, ESC_ESCAPE]
    } else {
        seq![b]
    }
}

pub open spec fn escape(p: Seq<u8>) -> Seq<u8>
    decreases p.len(),
{
    if p.len() == 0 {
        Seq::empty()
    } else {
        escape_byte(p[0]) + escape(p.skip(1))
    }
}

/// The frame that carries `p`.
pub open spec fn encode_spec(p: Seq<u8>) -> Seq<u8> {
    seq![DELIMITER] + escape(p) + seq![DELIMITER]
}

/// `n` delimiter bytes.
pub open spec fn delimiters(n: nat) -> Seq<u8> {
    Seq::new(n, |i: int| DELIMITER)
}

/// How many delimiter bytes open the stream.
pub open spec fn leading_delimiters(s: Seq<u8>) -> nat
    decreases s.len(),
{
    if s.len() > 0 && s[0] == DELIMITER {
        1 + leading_delimiters(s.skip(1))
    } else {
        0
    }
}

/// Puts `q` in front of a decoded result and adds `c` consumed bytes.
pub open spec fn prepend(
    q: Seq<u8>,
    c: nat,
    res: (Result<Seq<u8>, EspLoaderError>, nat),
) -> (Result<Seq<u8>, EspLoaderError>, nat) {
    (
        match res.0 {
            Ok(d) => Ok(q + d),
            Err(e) => Err(e),
        },
        c + res.1,
    )
}

/// Reads one unescaped byte from the front of `s`, which is not empty: the
/// byte or the error, with how many bytes of `s` were consumed either way.
/// Running out of input is a timeout; an unknown escape or a delimiter inside
/// the data is malformed.
pub open spec fn unescape_step(s: Seq<u8>) -> (Result<u8, EspLoaderError>, nat) {
    if s[0] == ESCAPE {
        if s.len() < 2 {
            (Err(EspLoaderError::Timeout), 1)
        } else if s[1] == ESC_DELIMITER {
            (Ok(DELIMITER), 2)
        } else if s[1] == ESC_ESCAPE {
            (Ok(ESCAPE), 2)
        } else {
            (Err(EspLoaderError::InvalidResponse), 2)
        }
    } else if s[0] == DELIMITER {
        (Err(EspLoaderError::InvalidResponse), 1)
    } else {
        (Ok(s[0]), 1)
    }
}

/// Reads `n` unescaped bytes from the front of `s`: the bytes or the first
/// error, with how many bytes of `s` were consumed either way.
pub open spec fn unescape(s: Seq<u8>, n: nat) -> (Result<Seq<u8>, EspLoaderError>, nat)
    decreases n,
{
    if n == 0 {
        (Ok(Seq::empty()), 0)
    } else if s.len() == 0 {
        (Err(EspLoaderError::Timeout), 0)
    } else {
        let (r, c) = unescape_step(s);
        match r {
            Ok(b) => prepend(seq![b], c, unescape(s.skip(c as int), (n - 1) as nat)),
            Err(e) => (Err(e), c),
        }
    }
}

/// Decodes one frame of `n` payload bytes from the stream `s`: any number of
/// delimiters are skipped, `n` bytes are unescaped, and a delimiter must
/// follow. Gives the payload or the error, and the bytes consumed.
pub open spec fn decode_spec(s: Seq<u8>, n: nat) -> (Result<Seq<u8>, EspLoaderError>, nat) {
    let k = leading_delimiters(s);
    let (r, c) = unescape(s.skip(k as int), n);
    match r {
        Err(e) => (Err(e), k + c),
        Ok(d) => if k + c >= s.len() {
            (Err(EspLoaderError::Timeout), k + c)
        } else if s[(k + c) as int] == DELIMITER {
            (Ok(d), k + c + 1)
        } else {
            (Err(EspLoaderError::InvalidResponse), k + c + 1)
        },
    }
}

pub proof fn lemma_escape_push(p: Seq<u8>, b: u8)
    ensures
        escape(p.push(b)) == escape(p) + escape_byte(b),
    decreases p.len(),
{
    if p.len() == 0 {
        assert(p.push(b).skip(1) =~= Seq::<u8>::empty());
        assert(p.push(b)[0] == b);
        assert(escape(p) == Seq::<u8>::empty());
        assert(escape(p.push(b).skip(1)) == Seq::<u8>::empty());
        assert(escape(p.push(b)) =~= escape(p) + escape_byte(b));
    } else {
        assert(p.push(b).skip(1) =~= p.skip(1).push(b));
        assert(p.push(b)[0] == p[0]);
        lemma_escape_push(p.skip(1), b);
        assert(escape(p.push(b)) == escape_byte(p[0]) + escape(p.skip(1).push(b)));
        assert(escape(p.push(b)) =~= escape(p) + escape_byte(b));
    }
}

pub proof fn lemma_prepend_prepend(
    a: Seq<u8>,
    ca: nat,
    b: Seq<u8>,
    cb: nat,
    x: (Result<Seq<u8>, EspLoaderError>, nat),
)
    ensures
        prepend(a, ca, prepend(b, cb, x)) == prepend(a + b, ca + cb, x),
{
    match x.0 {
        Ok(d) => {
            assert(a + (b + d) =~= (a + b) + d);
        },
        Err(e) => {},
    }
}

/// Unescaping the escaped form of `q` followed by anything yields `q` and
/// then whatever the rest yields.
pub proof fn lemma_unescape_escaped(q: Seq<u8>, t: Seq<u8>, m: nat)
    ensures
        unescape(escape(q) + t, q.len() + m) == prepend(q, escape(q).len(), unescape(t, m)),
    decreases q.len(),
{
    if q.len() == 0 {
        assert(escape(q) + t =~= t);
        let x = unescape(t, m);
        match x.0 {
            Ok(d) => {
                assert(q + d =~= d);
            },
            Err(e) => {},
        }
    } else {
        let b = q[0];
        let rest = q.skip(1);
        let s = escape(q) + t;
        lemma_unescape_escaped(rest, t, m);
        assert(s =~= escape_byte(b) + (escape(rest) + t));
        let n = q.len() + m;
        assert((n - 1) as nat == rest.len() + m);
        let inner = unescape(t, m);
        if b == DELIMITER || b == ESCAPE {
            assert(s.skip(2) =~= escape(rest) + t);
            lemma_prepend_prepend(seq![b], 2, rest, escape(rest).len(), inner);
        } else {
            assert(s.skip(1) =~= escape(rest) + t);
            lemma_prepend_prepend(seq![b], 1, rest, escape(rest).len(), inner);
        }
        assert(seq![b] + rest =~= q);
    }
}

proof fn lemma_one_leading_delimiter(t: Seq<u8>)
    requires
        t.len() == 0 || t[0] != DELIMITER,
    ensures
        leading_delimiters(seq![DELIMITER] + t) == 1,
{
    let s = seq![DELIMITER] + t;
    assert(s[0] == DELIMITER);
    assert(s.skip(1) =~= t);
    assert(leading_delimiters(t) == 0);
}

proof fn lemma_escape_first(p: Seq<u8>)
    requires
        p.len() > 0,
    ensures
        escape(p).len() > 0,
        escape(p)[0] != DELIMITER,
{
}

/// A frame followed by anything decodes to its payload, consuming exactly the frame.
pub proof fn lemma_decode_encode(p: Seq<u8>, rest: Seq<u8>)
    requires
        p.len() > 0,
    ensures
        decode_spec(encode_spec(p) + rest, p.len()) == (
        Ok::<Seq<u8>, EspLoaderError>(p), encode_spec(p).len()),
{
    let e = escape(p);
    let s = encode_spec(p) + rest;
    let t = e + (seq![DELIMITER] + rest);
    assert(s =~= seq![DELIMITER] + t);
    lemma_escape_first(p);
    lemma_one_leading_delimiter(t);
    assert(s.skip(1) =~= t);
    lemma_unescape_escaped(p, seq![DELIMITER] + rest, 0);
    assert(p + Seq::<u8>::empty() =~= p);
    assert(s[(1 + e.len()) as int] == DELIMITER);
}

proof fn lemma_leading_delimiters_bound(s: Seq<u8>)
    ensures
        leading_delimiters(s) <= s.len(),
    decreases s.len(),
{
    if s.len() > 0 && s[0] == DELIMITER {
        lemma_leading_delimiters_bound(s.skip(1));
    }
}

proof fn lemma_leading_delimiters_prefix(j: nat, s: Seq<u8>)
    ensures
        leading_delimiters(delimiters(j) + s) == j + leading_delimiters(s),
    decreases j,
{
    if j > 0 {
        let s2 = delimiters(j) + s;
        assert(s2.skip(1) =~= delimiters((j - 1) as nat) + s);
        lemma_leading_delimiters_prefix((j - 1) as nat, s);
    } else {
        assert(delimiters(j) + s =~= s);
    }
}

/// Extra delimiters before a frame change nothing but the count of bytes consumed.
pub proof fn lemma_decode_skips_delimiters(j: nat, s: Seq<u8>, n: nat)
    ensures
        decode_spec(delimiters(j) + s, n).0 == decode_spec(s, n).0,
        decode_spec(delimiters(j) + s, n).1 == j + decode_spec(s, n).1,
{
    let s2 = delimiters(j) + s;
    let k = leading_delimiters(s);
    lemma_leading_delimiters_prefix(j, s);
    lemma_leading_delimiters_bound(s);
    assert(s2.skip(j as int) =~= s);
    assert(s2.skip((j + k) as int) =~= s2.skip(j as int).skip(k as int));
    let c = unescape(s.skip(k as int), n).1;
    if k + c < s.len() {
        assert(s2[(j + k + c) as int] == s[(k + c) as int]);
    }
}

/// An escape byte followed by anything but the two defined markers makes the
/// frame malformed, whatever valid data came before it.
pub proof fn lemma_bad_escape(q: Seq<u8>, b: u8, rest: Seq<u8>, n: nat)
    requires
        b != ESC_DELIMITER,
        b != ESC_ESCAPE,
        n > q.len(),
    ensures
        decode_spec(seq![DELIMITER] + escape(q) + seq![ESCAPE, b] + rest, n).0 == Err::<
            Seq<u8>,
            EspLoaderError,
        >(EspLoaderError::InvalidResponse),
{
    let tail = seq![ESCAPE, b] + rest;
    let t = escape(q) + tail;
    let s = seq![DELIMITER] + escape(q) + seq![ESCAPE, b] + rest;
    assert(s =~= seq![DELIMITER] + t);
    if q.len() > 0 {
        lemma_escape_first(q);
    }
    assert(t[0] != DELIMITER);
    lemma_one_leading_delimiter(t);
    assert(s.skip(1) =~= t);
    let m = (n - q.len()) as nat;
    lemma_unescape_escaped(q, tail, m);
    assert(n == q.len() + m);
}

/// Escapes `payload` and wraps it in delimiters.
pub fn slip_encode(payload: &[u8]) -> (r: Vec<u8>)
    ensures
        r@ == encode_spec(payload@),
{
    let mut out: Vec<u8> = Vec::new();
    out.push(DELIMITER);
    let mut i: usize = 0;
    while i < payload.len()
        invariant
            i <= payload.len(),
            out@ == seq![DELIMITER] + escape(payload@.take(i as int)),
        decreases payload.len() - i,
    {
        let b = payload[i];
        if b == DELIMITER {
            out.push(ESCAPE);
            out.push(ESC_DELIMITER);
        } else if b == ESCAPE {
            out.push(ESCAPE);
            out.push(ESC_ESCAPE);
        } else {
            out.push(b);
        }
        proof {
            lemma_escape_push(payload@.take(i as int), b);
            assert(payload@.take(i + 1) =~= payload@.take(i as int).push(b));
        }
        i += 1;
    }
    out.push(DELIMITER);
    proof {
        assert(payload@.take(i as int) =~= payload@);
    }
    out
}

} // verus!
