//! Arbitrary-precision transfer amounts, held as canonical big-endian bytes.
use vstd::prelude::*;

verus! {

/// `256` raised to `n`.
pub open spec fn pow256(n: nat) -> nat
    decreases n,
{
    if n == 0 {
        1
    } else {
        256 * pow256((n - 1) as nat)
    }
}

/// The number that `s` denotes when read as big-endian base-256 digits.
pub open spec fn be_value(s: Seq<u8>) -> nat
    decreases s.len(),
{
    if s.len() == 0 {
        0
    } else {
        be_value(s.drop_last()) * 256 + s.last() as nat
    }
}

/// The `n` big-endian bytes of `v`, keeping only its `n` lowest-order digits.
pub open spec fn be_fixed(v: nat, n: nat) -> Seq<u8>
    decreases n,
{
    if n == 0 {
        Seq::empty()
    } else {
        be_fixed(v / 256, (n - 1) as nat).push((v % 256) as u8)
    }
}

/// No leading zero byte: each number has exactly one such form.
pub open spec fn canonical(s: Seq<u8>) -> bool {
    s.len() == 0 || s[0] != 0
}

pub proof fn lemma_pow256_positive(n: nat)
    ensures
        pow256(n) >= 1,
    decreases n,
{
    if n > 0 {
        lemma_pow256_positive((n - 1) as nat);
    }
}

pub proof fn lemma_pow256_monotonic(a: nat, b: nat)
    requires
        a <= b,
    ensures
        pow256(a) <= pow256(b),
    decreases b,
{
    if a < b {
        lemma_pow256_monotonic(a, (b - 1) as nat);
        lemma_pow256_positive((b - 1) as nat);
    }
}

/// Reading past a leading digit: `d` then `s` is `d * 256^|s| + value(s)`.
pub proof fn lemma_be_value_prepend(d: u8, s: Seq<u8>)
    ensures
        be_value(seq![d] + s) == d as nat * pow256(s.len()) + be_value(s),
    decreases s.len(),
{
    let t = seq![d] + s;
    if s.len() == 0 {
        assert(t.drop_last() =~= Seq::<u8>::empty());
        assert(be_value(t.drop_last()) == 0);
        assert(pow256(0) == 1);
        assert(d as nat * 1 == d as nat);
    } else {
        assert(t.drop_last() =~= seq![d] + s.drop_last());
        assert(t.last() == s.last());
        lemma_be_value_prepend(d, s.drop_last());
        let p = pow256(s.drop_last().len());
        assert(pow256(s.len()) == 256 * p);
        assert(be_value(t) == be_value(t.drop_last()) * 256 + t.last() as nat);
        assert(be_value(s) == be_value(s.drop_last()) * 256 + s.last() as nat);
        assert((d as nat * p + be_value(s.drop_last())) * 256 == d as nat * (256 * p)
            + be_value(s.drop_last()) * 256) by (nonlinear_arith);
    }
}

/// Leading zero bytes do not change the value.
pub proof fn lemma_be_value_zero_prefix(z: Seq<u8>, s: Seq<u8>)
    requires
        forall|i: int| 0 <= i < z.len() ==> z[i] == 0,
    ensures
        be_value(z + s) == be_value(s),
    decreases z.len(),
{
    if z.len() > 0 {
        let rest = z.drop_first();
        assert(z + s =~= seq![0u8] + (rest + s));
        lemma_be_value_prepend(0, rest + s);
        lemma_be_value_zero_prefix(rest, s);
    }
}

/// A value read from `n` digits is below `256^n`.
pub proof fn lemma_be_value_upper(s: Seq<u8>)
    ensures
        be_value(s) < pow256(s.len()),
    decreases s.len(),
{
    if s.len() > 0 {
        lemma_be_value_upper(s.drop_last());
        let a = be_value(s.drop_last());
        let p = pow256(s.drop_last().len());
        let d = s.last() as nat;
        assert(a * 256 + d < 256 * p) by (nonlinear_arith)
            requires
                a < p,
                d < 256,
        ;
    }
}

/// A canonical value of `n > 0` digits is at least `256^(n-1)`.
pub proof fn lemma_be_value_lower(s: Seq<u8>)
    requires
        canonical(s),
        s.len() > 0,
    ensures
        be_value(s) >= pow256((s.len() - 1) as nat),
{
    let rest = s.drop_first();
    assert(s =~= seq![s[0]] + rest);
    lemma_be_value_prepend(s[0], rest);
    let p = pow256(rest.len());
    assert(s[0] as nat * p >= p) by (nonlinear_arith)
        requires
            s[0] as nat >= 1,
    ;
}

/// A canonical form denotes zero exactly when it is empty.
pub proof fn lemma_canonical_zero(s: Seq<u8>)
    requires
        canonical(s),
    ensures
        (be_value(s) == 0) == (s.len() == 0),
{
    if s.len() > 0 {
        lemma_be_value_lower(s);
        lemma_pow256_positive((s.len() - 1) as nat);
    }
}

/// A canonical form fits in `n` bytes exactly when its value is below `256^n`.
pub proof fn lemma_canonical_fits(s: Seq<u8>, n: nat)
    requires
        canonical(s),
    ensures
        (s.len() <= n) == (be_value(s) < pow256(n)),
{
    if s.len() <= n {
        lemma_be_value_upper(s);
        lemma_pow256_monotonic(s.len(), n);
    } else {
        lemma_be_value_lower(s);
        lemma_pow256_monotonic(n, (s.len() - 1) as nat);
    }
}

/// Writing a sequence's value back in as many digits gives the sequence.
pub proof fn lemma_be_fixed_of_value(s: Seq<u8>)
    ensures
        be_fixed(be_value(s), s.len()) == s,
    decreases s.len(),
{
    if s.len() > 0 {
        let a = be_value(s.drop_last());
        let d = s.last() as nat;
        let v = a * 256 + d;
        assert(v / 256 == a && v % 256 == d) by (nonlinear_arith)
            requires
                v == a * 256 + d,
                d < 256,
        ;
        lemma_be_fixed_of_value(s.drop_last());
        assert(be_fixed(v, s.len()) =~= s.drop_last().push(s.last()));
        assert(s.drop_last().push(s.last()) =~= s);
    }
}

/// Reading `n` fixed digits of a value below `256^n` gives the value back.
pub proof fn lemma_be_value_of_fixed(v: nat, n: nat)
    requires
        v < pow256(n),
    ensures
        be_fixed(v, n).len() == n,
        be_value(be_fixed(v, n)) == v,
    decreases n,
{
    if n > 0 {
        let p = pow256((n - 1) as nat);
        assert(v / 256 < p && (v / 256) * 256 + v % 256 == v) by (nonlinear_arith)
            requires
                v < 256 * p,
        ;
        lemma_be_value_of_fixed(v / 256, (n - 1) as nat);
        let f = be_fixed(v, n);
        assert(f.drop_last() =~= be_fixed(v / 256, (n - 1) as nat));
    }
}

/// A transfer quantity: a non-negative integer of any size.
pub struct Amount {
    be: Vec<u8>,
}

impl View for Amount {
    type V = nat;

    closed spec fn view(&self) -> nat {
        be_value(self.be@)
    }
}

impl Amount {
    #[verifier::type_invariant]
    closed spec fn inv(self) -> bool {
        canonical(self.be@)
    }

    /// The amount whose big-endian bytes are `bytes`; leading zeros are allowed.
    pub fn from_be_bytes(bytes: &[u8]) -> (r: Amount)
        ensures
            r@ == be_value(bytes@),
    {
        let mut start: usize = 0;
        while start < bytes.len() && bytes[start] == 0
            invariant
                start <= bytes@.len(),
                forall|i: int| 0 <= i < start ==> bytes@[i] == 0,
            decreases bytes.len() - start,
        {
            start = start + 1;
        }
        let mut be: Vec<u8> = Vec::new();
        let mut i: usize = start;
        while i < bytes.len()
            invariant
                start <= i <= bytes@.len(),
                be@ == bytes@.subrange(start as int, i as int),
            decreases bytes.len() - i,
        {
            be.push(bytes[i]);
            i = i + 1;
            assert(be@ =~= bytes@.subrange(start as int, i as int));
        }
        proof {
            assert(bytes@ =~= bytes@.subrange(0, start as int) + be@);
            lemma_be_value_zero_prefix(bytes@.subrange(0, start as int), be@);
        }
        Amount { be }
    }

    /// The amount `v`.
    pub fn from_u64(v: u64) -> (r: Amount)
        ensures
            r@ == v as nat,
    {
        let mut rest: u64 = v;
        let mut be: Vec<u8> = Vec::new();
        proof {
            assert(pow256(0) == 1);
            assert(be_value(be@) == 0);
        }
        while rest > 0
            invariant
                v as nat == rest as nat * pow256(be@.len()) + be_value(be@),
                be@.len() > 0 && rest == 0 ==> be@[0] != 0,
                be@.len() == 0 ==> rest == v,
            decreases rest,
        {
            let d: u8 = (rest % 256) as u8;
            let next: u64 = rest / 256;
            proof {
                let p = pow256(be@.len());
                lemma_be_value_prepend(d, be@);
                assert(rest as nat * p == next as nat * (256 * p) + d as nat * p) by (nonlinear_arith)
                    requires
                        rest as nat == next as nat * 256 + d as nat,
                ;
            }
            let ghost old_be = be@;
            be.insert(0, d);
            assert(be@ =~= seq![d] + old_be);
            rest = next;
        }
        Amount { be }
    }

    /// Whether the amount is zero.
    pub fn is_zero(&self) -> (r: bool)
        ensures
            r == (self@ == 0),
    {
        proof {
            use_type_invariant(self);
            lemma_canonical_zero(self.be@);
        }
        self.be.len() == 0
    }

    /// The shortest big-endian bytes of the amount: none for zero, else no
    /// leading zero byte.
    pub fn to_be_bytes(&self) -> (r: Vec<u8>)
        ensures
            be_value(r@) == self@,
            canonical(r@),
    {
        proof {
            use_type_invariant(self);
        }
        let mut out: Vec<u8> = Vec::new();
        let mut i: usize = 0;
        while i < self.be.len()
            invariant
                i <= self.be@.len(),
                out@ == self.be@.subrange(0, i as int),
            decreases self.be.len() - i,
        {
            out.push(self.be[i]);
            i = i + 1;
            assert(out@ =~= self.be@.subrange(0, i as int));
        }
        assert(out@ =~= self.be@);
        out
    }

    /// A second amount equal to this one.
    pub fn duplicate(&self) -> (r: Amount)
        ensures
            r@ == self@,
    {
        proof {
            use_type_invariant(self);
        }
        let be = self.to_be_bytes();
        Amount { be }
    }
}

} // verus!
