//! Keys of the contract's stores and their order: ids order as numbers,
//! text addresses byte by byte on their UTF-8 encoding, and accounts byte by
//! byte on their canonical bytes (the order of a key-value store keyed by
//! those bytes).

use vstd::prelude::*;
use vstd::utf8::{decode_utf8, encode_utf8, encode_utf8_decode_utf8};

verus! {

/// Lexicographic order on byte strings: a proper prefix comes first.
pub open spec fn bytes_lt(a: Seq<u8>, b: Seq<u8>) -> bool
    decreases a.len(),
{
    if a.len() == 0 {
        b.len() > 0
    } else if b.len() == 0 {
        false
    } else if a[0] < b[0] {
        true
    } else if a[0] > b[0] {
        false
    } else {
        bytes_lt(a.drop_first(), b.drop_first())
    }
}

pub proof fn lemma_bytes_lt_irreflexive(a: Seq<u8>)
    ensures
        !bytes_lt(a, a),
    decreases a.len(),
{
    if a.len() > 0 {
        lemma_bytes_lt_irreflexive(a.drop_first());
    }
}

pub proof fn lemma_bytes_lt_transitive(a: Seq<u8>, b: Seq<u8>, c: Seq<u8>)
    requires
        bytes_lt(a, b),
        bytes_lt(b, c),
    ensures
        bytes_lt(a, c),
    decreases a.len(),
{
    if a.len() > 0 && b.len() > 0 && c.len() > 0 {
        if a[0] == b[0] && b[0] == c[0] {
            lemma_bytes_lt_transitive(a.drop_first(), b.drop_first(), c.drop_first());
        }
    }
}

pub proof fn lemma_bytes_lt_total(a: Seq<u8>, b: Seq<u8>)
    requires
        a != b,
    ensures
        bytes_lt(a, b) || bytes_lt(b, a),
    decreases a.len(),
{
    if a.len() == 0 && b.len() == 0 {
        assert(a =~= b);
    } else if a.len() > 0 && b.len() > 0 && a[0] == b[0] {
        if a.drop_first() == b.drop_first() {
            assert(a =~= seq![a[0]] + a.drop_first());
            assert(b =~= seq![b[0]] + b.drop_first());
        }
        lemma_bytes_lt_total(a.drop_first(), b.drop_first());
    }
}

/// Compares two byte strings in lexicographic order.
pub fn bytes_less(a: &[u8], b: &[u8]) -> (r: bool)
    ensures
        r == bytes_lt(a@, b@),
{
    let mut i: usize = 0;
    assert(a@.skip(0) =~= a@);
    assert(b@.skip(0) =~= b@);
    while i < a.len() && i < b.len()
        invariant
            i <= a@.len(),
            i <= b@.len(),
            bytes_lt(a@, b@) == bytes_lt(a@.skip(i as int), b@.skip(i as int)),
        decreases a@.len() - i,
    {
        if a[i] < b[i] {
            return true;
        }
        if a[i] > b[i] {
            return false;
        }
        assert(a@.skip(i as int).drop_first() =~= a@.skip(i + 1));
        assert(b@.skip(i as int).drop_first() =~= b@.skip(i + 1));
        i = i + 1;
    }
    i < b.len()
}

/// A key of an ordered store: its value as seen by the contracts, a strict
/// total order on those values, and the executable comparisons.
pub trait StoreKey: Sized {
    type Kv;

    spec fn kv(&self) -> Self::Kv;

    spec fn kv_lt(a: Self::Kv, b: Self::Kv) -> bool;

    proof fn lemma_irreflexive(a: Self::Kv)
        ensures
            !Self::kv_lt(a, a),
    ;

    proof fn lemma_transitive(a: Self::Kv, b: Self::Kv, c: Self::Kv)
        requires
            Self::kv_lt(a, b),
            Self::kv_lt(b, c),
        ensures
            Self::kv_lt(a, c),
    ;

    proof fn lemma_total(a: Self::Kv, b: Self::Kv)
        requires
            a != b,
        ensures
            Self::kv_lt(a, b) || Self::kv_lt(b, a),
    ;

    fn less(&self, other: &Self) -> (r: bool)
        ensures
            r == Self::kv_lt(self.kv(), other.kv()),
    ;

    fn same(&self, other: &Self) -> (r: bool)
        ensures
            r == (self.kv() == other.kv()),
    ;

    fn duplicate(&self) -> (r: Self)
        ensures
            r.kv() == self.kv(),
    ;
}

impl StoreKey for u64 {
    type Kv = u64;

    open spec fn kv(&self) -> u64 {
        *self
    }

    open spec fn kv_lt(a: u64, b: u64) -> bool {
        a < b
    }

    proof fn lemma_irreflexive(a: u64) {
    }

    proof fn lemma_transitive(a: u64, b: u64, c: u64) {
    }

    proof fn lemma_total(a: u64, b: u64) {
    }

    fn less(&self, other: &u64) -> (r: bool) {
        *self < *other
    }

    fn same(&self, other: &u64) -> (r: bool) {
        *self == *other
    }

    fn duplicate(&self) -> (r: u64) {
        *self
    }
}

/// Order of addresses: byte order of their UTF-8 encoding.
pub open spec fn addr_lt(a: Seq<char>, b: Seq<char>) -> bool {
    bytes_lt(encode_utf8(a), encode_utf8(b))
}

impl StoreKey for String {
    type Kv = Seq<char>;

    open spec fn kv(&self) -> Seq<char> {
        self@
    }

    open spec fn kv_lt(a: Seq<char>, b: Seq<char>) -> bool {
        addr_lt(a, b)
    }

    proof fn lemma_irreflexive(a: Seq<char>) {
        lemma_bytes_lt_irreflexive(encode_utf8(a));
    }

    proof fn lemma_transitive(a: Seq<char>, b: Seq<char>, c: Seq<char>) {
        lemma_bytes_lt_transitive(encode_utf8(a), encode_utf8(b), encode_utf8(c));
    }

    proof fn lemma_total(a: Seq<char>, b: Seq<char>) {
        encode_utf8_decode_utf8(a);
        encode_utf8_decode_utf8(b);
        if encode_utf8(a) == encode_utf8(b) {
            assert(decode_utf8(encode_utf8(a)) == decode_utf8(encode_utf8(b)));
        }
        lemma_bytes_lt_total(encode_utf8(a), encode_utf8(b));
    }

    fn less(&self, other: &String) -> (r: bool) {
        bytes_less(self.as_str().as_bytes(), other.as_str().as_bytes())
    }

    fn same(&self, other: &String) -> (r: bool) {
        *self == *other
    }

    fn duplicate(&self) -> (r: String) {
        self.clone()
    }
}

/// An account address: its text form, and the canonical bytes that the chain
/// gives it and under which the stores keep accounts.
#[derive(Debug)]
pub struct Address {
    pub human: String,
    pub canonical: Vec<u8>,
}

impl View for Address {
    type V = (Seq<u8>, Seq<char>);

    open spec fn view(&self) -> (Seq<u8>, Seq<char>) {
        (self.canonical@, self.human@)
    }
}

/// Order of accounts: byte order of their canonical bytes (the order of a
/// store keyed by them), the text form breaking ties.
pub open spec fn address_lt(a: (Seq<u8>, Seq<char>), b: (Seq<u8>, Seq<char>)) -> bool {
    bytes_lt(a.0, b.0) || (a.0 == b.0 && addr_lt(a.1, b.1))
}

/// A copy of a byte string.
pub fn copy_bytes(b: &Vec<u8>) -> (r: Vec<u8>)
    ensures
        r@ == b@,
{
    let mut r: Vec<u8> = Vec::new();
    let mut i: usize = 0;
    while i < b.len()
        invariant
            i <= b@.len(),
            r@ == b@.take(i as int),
        decreases b@.len() - i,
    {
        r.push(b[i]);
        assert(r@ =~= b@.take(i as int + 1));
        i = i + 1;
    }
    assert(b@.take(b@.len() as int) =~= b@);
    r
}

/// The views of an optional address.
pub open spec fn opt_address(o: Option<Address>) -> Option<(Seq<u8>, Seq<char>)> {
    match o {
        Some(a) => Some(a@),
        None => None,
    }
}

impl Address {
    /// A copy of the address.
    pub fn copy(&self) -> (r: Address)
        ensures
            r@ == self@,
    {
        Address { human: self.human.clone(), canonical: copy_bytes(&self.canonical) }
    }
}

impl StoreKey for Address {
    type Kv = (Seq<u8>, Seq<char>);

    open spec fn kv(&self) -> (Seq<u8>, Seq<char>) {
        self@
    }

    open spec fn kv_lt(a: (Seq<u8>, Seq<char>), b: (Seq<u8>, Seq<char>)) -> bool {
        address_lt(a, b)
    }

    proof fn lemma_irreflexive(a: (Seq<u8>, Seq<char>)) {
        lemma_bytes_lt_irreflexive(a.0);
        <String as StoreKey>::lemma_irreflexive(a.1);
    }

    proof fn lemma_transitive(a: (Seq<u8>, Seq<char>), b: (Seq<u8>, Seq<char>), c: (Seq<u8>, Seq<char>)) {
        if bytes_lt(a.0, b.0) && bytes_lt(b.0, c.0) {
            lemma_bytes_lt_transitive(a.0, b.0, c.0);
        } else if a.0 == b.0 && b.0 == c.0 {
            <String as StoreKey>::lemma_transitive(a.1, b.1, c.1);
        }
    }

    proof fn lemma_total(a: (Seq<u8>, Seq<char>), b: (Seq<u8>, Seq<char>)) {
        if a.0 != b.0 {
            lemma_bytes_lt_total(a.0, b.0);
        } else {
            <String as StoreKey>::lemma_total(a.1, b.1);
        }
    }

    fn less(&self, other: &Address) -> (r: bool) {
        if bytes_less(self.canonical.as_slice(), other.canonical.as_slice()) {
            return true;
        }
        if bytes_less(other.canonical.as_slice(), self.canonical.as_slice()) {
            return false;
        }
        proof {
            if self.canonical@ != other.canonical@ {
                lemma_bytes_lt_total(self.canonical@, other.canonical@);
            }
        }
        self.human.less(&other.human)
    }

    fn same(&self, other: &Address) -> (r: bool) {
        let lt = bytes_less(self.canonical.as_slice(), other.canonical.as_slice());
        let gt = bytes_less(other.canonical.as_slice(), self.canonical.as_slice());
        proof {
            if self.canonical@ != other.canonical@ {
                lemma_bytes_lt_total(self.canonical@, other.canonical@);
            } else {
                lemma_bytes_lt_irreflexive(self.canonical@);
            }
        }
        !lt && !gt && self.human == other.human
    }

    fn duplicate(&self) -> (r: Address) {
        self.copy()
    }
}

} // verus!
