//! Endpoint ids: the 32-byte public keys by which cluster nodes know each other.

use crate::number;
use crate::text;
use std::str::FromStr;
use vstd::prelude::*;
use vstd::slice::slice_subrange;
use vstd::string::*;

verus! {

/// An endpoint id, held as the two big-endian halves of its 32 bytes.
#[derive(Clone, Copy, PartialEq, Eq, Structural, Debug)]
pub struct EndpointId {
    pub hi: u128,
    pub lo: u128,
}

/// The number that bytes write with the most significant byte first.
pub open spec fn big_endian(b: Seq<u8>) -> nat
    decreases b.len(),
{
    if b.len() == 0 {
        0
    } else {
        big_endian(b.drop_last()) * 256 + b.last() as nat
    }
}

/// The last `n` base-256 digits of `v`, the most significant one first.
pub open spec fn digits256(v: nat, n: nat) -> Seq<u8>
    decreases n,
{
    if n == 0 {
        seq![]
    } else {
        digits256(v / 256, (n - 1) as nat).push((v % 256) as u8)
    }
}

/// 256 to the power `n`.
pub open spec fn pow256(n: nat) -> nat
    decreases n,
{
    if n == 0 {
        1
    } else {
        256 * pow256((n - 1) as nat)
    }
}

/// The id whose bytes are `b`.
pub open spec fn id_of(b: Seq<u8>) -> EndpointId {
    EndpointId {
        hi: big_endian(b.subrange(0, 16)) as u128,
        lo: big_endian(b.subrange(16, 32)) as u128,
    }
}

/// Whether `a` comes before `b` in the order of byte strings.
pub open spec fn bytes_before(a: Seq<u8>, b: Seq<u8>) -> bool
    decreases a.len(),
{
    if b.len() == 0 {
        false
    } else if a.len() == 0 {
        true
    } else {
        a[0] < b[0] || (a[0] == b[0] && bytes_before(a.drop_first(), b.drop_first()))
    }
}

impl EndpointId {
    /// The 32 bytes of the id.
    pub open spec fn bytes(self) -> Seq<u8> {
        digits256(self.hi as nat, 16) + digits256(self.lo as nat, 16)
    }

    /// Whether `self` comes before `other`: by the high half, then by the low one.
    pub open spec fn before(self, other: EndpointId) -> bool {
        self.hi < other.hi || (self.hi == other.hi && self.lo < other.lo)
    }

    /// Whether `self` comes before `other`.
    pub fn is_before(&self, other: &EndpointId) -> (r: bool)
        ensures
            r == self.before(*other),
    {
        self.hi < other.hi || (self.hi == other.hi && self.lo < other.lo)
    }

    /// The id whose bytes are `b`.
    pub fn from_bytes(b: &[u8]) -> (id: EndpointId)
        requires
            b@.len() == 32,
        ensures
            id == id_of(b@),
            id.bytes() == b@,
    {
        let hi = read_big_endian(slice_subrange(b, 0, 16));
        let lo = read_big_endian(slice_subrange(b, 16, 32));
        let id = EndpointId { hi, lo };
        proof {
            lemma_digits_of_big_endian(b@.subrange(0, 16));
            lemma_digits_of_big_endian(b@.subrange(16, 32));
            assert(id.bytes() =~= b@);
        }
        id
    }

    /// The 32 bytes of the id.
    pub fn to_bytes(&self) -> (b: Vec<u8>)
        ensures
            b@ == self.bytes(),
            b@.len() == 32,
            id_of(b@) == *self,
    {
        let mut b = write_big_endian(self.hi, 16);
        let mut low = write_big_endian(self.lo, 16);
        proof {
            lemma_digits256(self.hi as nat, 16);
            lemma_digits256(self.lo as nat, 16);
            lemma_pow256_16();
            assert(b@ + low@ == self.bytes());
            assert((b@ + low@).subrange(0, 16) =~= b@);
            assert((b@ + low@).subrange(16, 32) =~= low@);
        }
        b.append(&mut low);
        b
    }

    /// The id in small hexadecimal digits, the form in which it is shown and given.
    pub fn to_text(&self) -> (s: String)
        ensures
            s@ == number::hex(self.bytes()),
    {
        number::to_hex(self.to_bytes().as_slice())
    }
}

proof fn lemma_pow256_16()
    ensures
        pow256(16) == u128::MAX + 1,
{
    reveal_with_fuel(pow256, 17);
}

proof fn lemma_pow256_mono(a: nat, b: nat)
    requires
        a <= b,
    ensures
        1 <= pow256(a) <= pow256(b),
    decreases b,
{
    if a == b {
        if a > 0 {
            lemma_pow256_mono((a - 1) as nat, (b - 1) as nat);
        }
    } else {
        lemma_pow256_mono(a, (b - 1) as nat);
    }
}

pub proof fn lemma_big_endian_bound(b: Seq<u8>)
    ensures
        big_endian(b) < pow256(b.len()),
    decreases b.len(),
{
    if b.len() > 0 {
        lemma_big_endian_bound(b.drop_last());
    }
}

proof fn lemma_digits_of_big_endian(b: Seq<u8>)
    ensures
        digits256(big_endian(b), b.len()) == b,
    decreases b.len(),
{
    if b.len() == 0 {
        assert(b =~= Seq::<u8>::empty());
    } else {
        let t = b.drop_last();
        lemma_digits_of_big_endian(t);
        let v = big_endian(b);
        assert(v / 256 == big_endian(t));
        assert(v % 256 == b.last() as nat);
        assert(t.push(b.last()) =~= b);
    }
}

pub proof fn lemma_digits256(v: nat, n: nat)
    ensures
        digits256(v, n).len() == n,
        v < pow256(n) ==> big_endian(digits256(v, n)) == v,
    decreases n,
{
    if n > 0 {
        lemma_digits256(v / 256, (n - 1) as nat);
        let d = digits256(v, n);
        assert(d.drop_last() =~= digits256(v / 256, (n - 1) as nat));
    }
}

pub(crate) fn read_big_endian(b: &[u8]) -> (v: u128)
    requires
        b@.len() <= 16,
    ensures
        v == big_endian(b@),
{
    let mut v: u128 = 0;
    let mut i: usize = 0;
    while i < b.len()
        invariant
            b@.len() <= 16,
            i <= b@.len(),
            v == big_endian(b@.take(i as int)),
        decreases b@.len() - i,
    {
        proof {
            assert(b@.take(i + 1).drop_last() =~= b@.take(i as int));
            lemma_big_endian_bound(b@.take(i + 1));
            lemma_pow256_mono((i + 1) as nat, 16);
            lemma_pow256_16();
        }
        v = v * 256 + b[i] as u128;
        i = i + 1;
    }
    assert(b@.take(i as int) =~= b@);
    v
}

pub(crate) fn write_big_endian(v: u128, n: usize) -> (b: Vec<u8>)
    ensures
        b@ == digits256(v as nat, n as nat),
    decreases n,
{
    if n == 0 {
        let b: Vec<u8> = Vec::new();
        assert(b@ =~= digits256(v as nat, 0));
        b
    } else {
        let mut b = write_big_endian(v / 256, n - 1);
        b.push((v % 256) as u8);
        b
    }
}

proof fn lemma_big_endian_cons(b: Seq<u8>)
    requires
        b.len() > 0,
    ensures
        big_endian(b) == b[0] * pow256((b.len() - 1) as nat) + big_endian(b.drop_first()),
    decreases b.len(),
{
    if b.len() == 1 {
        assert(b.drop_last() =~= Seq::<u8>::empty());
        assert(b.drop_first() =~= Seq::<u8>::empty());
        assert(big_endian(Seq::<u8>::empty()) == 0);
        let x = b[0] as int;
        let q = pow256((b.len() - 1) as nat);
        assert(x * q == x) by (nonlinear_arith)
            requires
                q == 1,
        ;
    } else {
        let t = b.drop_last();
        lemma_big_endian_cons(t);
        assert(t.drop_first() =~= b.drop_first().drop_last());
        assert(b.drop_first().last() == b.last());
        let p = pow256((t.len() - 1) as nat);
        let q = pow256((b.len() - 1) as nat);
        assert(q == 256 * p);
        let x = b[0] as int;
        assert(256 * (x * p) == x * q) by (nonlinear_arith)
            requires
                q == 256 * p,
        ;
    }
}

proof fn lemma_leading_digit(i: int, j: int, p: int)
    requires
        i < j,
        0 <= p,
    ensures
        i * p + p <= j * p,
{
    assert((i + 1) * p <= j * p) by (nonlinear_arith)
        requires
            i + 1 <= j,
            0 <= p,
    ;
    assert((i + 1) * p == i * p + p) by (nonlinear_arith);
}

proof fn lemma_order(a: Seq<u8>, b: Seq<u8>)
    requires
        a.len() == b.len(),
    ensures
        bytes_before(a, b) <==> big_endian(a) < big_endian(b),
        big_endian(a) == big_endian(b) ==> a == b,
    decreases a.len(),
{
    if a.len() == 0 {
        assert(a =~= b);
    } else {
        let x = a.drop_first();
        let y = b.drop_first();
        lemma_order(x, y);
        lemma_big_endian_cons(a);
        lemma_big_endian_cons(b);
        lemma_big_endian_bound(x);
        lemma_big_endian_bound(y);
        let p = pow256((a.len() - 1) as nat) as int;
        let (i, j) = (a[0] as int, b[0] as int);
        let (u, v) = (big_endian(x) as int, big_endian(y) as int);
        if i < j {
            lemma_leading_digit(i, j, p);
        } else if j < i {
            lemma_leading_digit(j, i, p);
        } else {
            if u == v {
                assert(a =~= seq![a[0]] + x);
                assert(b =~= seq![b[0]] + y);
            }
        }
    }
}

proof fn lemma_before_concat(a: Seq<u8>, b: Seq<u8>, x: Seq<u8>, y: Seq<u8>)
    requires
        a.len() == b.len(),
    ensures
        bytes_before(a + x, b + y) <==> bytes_before(a, b) || (a == b && bytes_before(x, y)),
    decreases a.len(),
{
    if a.len() == 0 {
        assert(a + x =~= x);
        assert(b + y =~= y);
        assert(a =~= b);
    } else {
        lemma_before_concat(a.drop_first(), b.drop_first(), x, y);
        assert((a + x).drop_first() =~= a.drop_first() + x);
        assert((b + y).drop_first() =~= b.drop_first() + y);
        if b.len() + y.len() > 0 && a[0] == b[0] {
            if a.drop_first() == b.drop_first() {
                assert(a =~= seq![a[0]] + a.drop_first());
                assert(b =~= seq![b[0]] + b.drop_first());
            }
        }
    }
}

/// Ids stand in the order of their bytes.
pub proof fn law_ids_order_like_bytes(a: EndpointId, b: EndpointId)
    ensures
        a.before(b) <==> bytes_before(a.bytes(), b.bytes()),
{
    lemma_pow256_16();
    lemma_digits256(a.hi as nat, 16);
    lemma_digits256(a.lo as nat, 16);
    lemma_digits256(b.hi as nat, 16);
    lemma_digits256(b.lo as nat, 16);
    lemma_order(digits256(a.hi as nat, 16), digits256(b.hi as nat, 16));
    lemma_order(digits256(a.lo as nat, 16), digits256(b.lo as nat, 16));
    lemma_before_concat(
        digits256(a.hi as nat, 16),
        digits256(b.hi as nat, 16),
        digits256(a.lo as nat, 16),
        digits256(b.lo as nat, 16),
    );
}

/// Of two ids exactly one of these holds: they are equal, the first comes before the
/// second, or the second before the first.
pub proof fn law_ids_are_totally_ordered(a: EndpointId, b: EndpointId)
    ensures
        a != b ==> (a.before(b) <==> !b.before(a)),
        a == b ==> !a.before(b),
{
}

// ---- parsing ----

/// The 32 bytes of the endpoint id that a text writes, as
/// `iroh::EndpointId::from_str` reads it (hexadecimal or base32, and a point of the
/// curve), or the message for a text that writes none.
pub uninterp spec fn endpoint_key(s: Seq<char>) -> Result<Seq<u8>, Seq<char>>;

/// Calls `iroh::EndpointId::from_str`: whether a text is an endpoint id, which 32 bytes
/// it writes and what is wrong with it otherwise is a function of the text. The small
/// hexadecimal digits of an id's bytes are a text of that id.
#[verifier::external_body]
fn read_endpoint_key(s: &str) -> (r: Result<Vec<u8>, String>)
    ensures
        match r {
            Ok(b) => {
                &&& endpoint_key(s@) == Ok::<Seq<u8>, Seq<char>>(b@)
                &&& b@.len() == 32
                &&& endpoint_key(number::hex(b@)) == Ok::<Seq<u8>, Seq<char>>(b@)
            },
            Err(m) => endpoint_key(s@) == Err::<Seq<u8>, Seq<char>>(m@),
        },
{
    match iroh::EndpointId::from_str(s) {
        Ok(id) => Ok(id.as_bytes().to_vec()),
        Err(e) => Err(format!("{e}")),
    }
}

/// How `{:?}` writes a string: in quotes, with escapes.
pub uninterp spec fn debug_text(s: Seq<char>) -> Seq<char>;

/// Writes a string with the `Debug` formatting of `str`.
#[verifier::external_body]
pub(crate) fn quoted(s: &str) -> (r: String)
    ensures
        r@ == debug_text(s@),
{
    format!("{s:?}")
}

/// A text that should have been an endpoint id.
pub struct IdError {
    /// The text, without the white space around it.
    pub given: String,
    /// What was wrong with it.
    pub detail: String,
}

/// The id that `s` writes.
pub open spec fn id_in(s: Seq<char>) -> Option<EndpointId> {
    match endpoint_key(s) {
        Ok(b) => Some(id_of(b)),
        Err(_) => None,
    }
}

/// The id that `s` writes. An id that came out of a text is read again from the text
/// that `to_text` gives of it.
pub fn parse_id(s: &str) -> (r: Result<EndpointId, IdError>)
    ensures
        match r {
            Ok(id) => {
                &&& id_in(s@) == Some(id)
                &&& endpoint_key(s@) == Ok::<Seq<u8>, Seq<char>>(id.bytes())
                &&& id_in(number::hex(id.bytes())) == Some(id)
            },
            Err(e) => id_in(s@) is None && e.given@ == s@ && endpoint_key(s@) == Err::<
                Seq<u8>,
                Seq<char>,
            >(e.detail@),
        },
{
    match read_endpoint_key(s) {
        Ok(b) => Ok(EndpointId::from_bytes(b.as_slice())),
        Err(detail) => Err(IdError { given: s.to_owned(), detail }),
    }
}

}
