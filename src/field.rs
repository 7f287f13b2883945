//! Elements of the Pallas base field, held as canonical little-endian bytes.
//! The arithmetic itself is done by `halo2_proofs::pasta::Fp`.

use halo2_proofs::pasta::group::ff::PrimeField;
use halo2_proofs::pasta::Fp;
use vstd::prelude::*;

verus! {

/// The order of the Pallas base field:
/// 0x40000000000000000000000000000000224698fc094cf91b992d30ed00000001.
pub open spec fn modulus() -> nat {
    let b: nat = 0x1_0000_0000_0000_0000nat;
    0x4000000000000000nat * (b * b * b) + 0x224698fc094cf91bnat * b + 0x992d30ed00000001nat
}

/// The number that a little-endian byte string stands for.
pub open spec fn le_value(s: Seq<u8>) -> nat
    decreases s.len(),
{
    if s.len() == 0 {
        0
    } else {
        s[0] as nat + 256 * le_value(s.subrange(1, s.len() as int))
    }
}

/// Addition in the field, on canonical representatives.
pub open spec fn field_add(a: nat, b: nat) -> nat {
    (a + b) % modulus()
}

/// A field element: the canonical little-endian encoding of a number below
/// the modulus.
#[derive(Clone, Copy, Debug)]
pub struct Fe {
    bytes: [u8; 32],
}

impl Fe {
    /// The number this element stands for (the encoding is canonical, so
    /// reducing it changes nothing).
    pub closed spec fn val(&self) -> nat {
        le_value(self.bytes@) % modulus()
    }

    pub proof fn lemma_val_below(f: Fe)
        ensures
            f.val() < modulus(),
    {
        lemma_modulus_positive();
    }

    /// The encoding is canonical: the number lies below the modulus.
    #[verifier::type_invariant]
    spec fn canonical(&self) -> bool {
        le_value(self.bytes@) < modulus()
    }

    /// The canonical little-endian encoding.
    pub fn to_bytes(&self) -> (r: [u8; 32])
        ensures
            le_value(r@) == self.val(),
    {
        proof {
            use_type_invariant(self);
            lemma_modulus_positive();
            vstd::arithmetic::div_mod::lemma_small_mod(le_value(self.bytes@), modulus());
        }
        self.bytes
    }

    pub fn zero() -> (r: Fe)
        ensures
            r.val() == 0,
    {
        let bytes = [0u8; 32];
        proof {
            lemma_le_value_zeros(bytes@);
            lemma_modulus_positive();
            vstd::arithmetic::div_mod::lemma_small_mod(0, modulus());
        }
        Fe { bytes }
    }

    pub fn from_u64(n: u64) -> (r: Fe)
        ensures
            r.val() == n as nat,
    {
        let bytes = fp_from_u64(n);
        proof {
            lemma_modulus_positive();
            vstd::arithmetic::div_mod::lemma_small_mod(n as nat, modulus());
        }
        Fe { bytes }
    }

    pub fn add(&self, other: &Fe) -> (r: Fe)
        ensures
            r.val() == field_add(self.val(), other.val()),
    {
        proof {
            use_type_invariant(self);
            use_type_invariant(other);
        }
        let bytes = fp_add(&self.bytes, &other.bytes);
        proof {
            lemma_modulus_positive();
            vstd::arithmetic::div_mod::lemma_small_mod(le_value(self.bytes@), modulus());
            vstd::arithmetic::div_mod::lemma_small_mod(le_value(other.bytes@), modulus());
            vstd::arithmetic::div_mod::lemma_mod_twice((le_value(self.bytes@) + le_value(other.bytes@)) as int, modulus() as int);
        }
        Fe { bytes }
    }

    /// Whether the two elements stand for the same number.
    pub fn same(&self, other: &Fe) -> (r: bool)
        ensures
            r == (self.val() == other.val()),
    {
        proof {
            use_type_invariant(self);
            use_type_invariant(other);
            lemma_modulus_positive();
            vstd::arithmetic::div_mod::lemma_small_mod(le_value(self.bytes@), modulus());
            vstd::arithmetic::div_mod::lemma_small_mod(le_value(other.bytes@), modulus());
        }
        let mut i: usize = 0;
        while i < 32
            invariant
                i <= 32,
                self.val() == le_value(self.bytes@),
                other.val() == le_value(other.bytes@),
                forall|j: int| 0 <= j < i ==> self.bytes@[j] == other.bytes@[j],
            decreases 32 - i,
        {
            if self.bytes[i] != other.bytes[i] {
                proof {
                    if self.val() == other.val() {
                        lemma_le_value_injective(self.bytes@, other.bytes@);
                        assert(self.bytes@[i as int] == other.bytes@[i as int]);
                    }
                }
                return false;
            }
            i = i + 1;
        }
        assert(self.bytes@ =~= other.bytes@);
        true
    }
}

pub proof fn lemma_modulus_positive()
    ensures
        modulus() > 0x1_0000_0000_0000_0000nat,
{
    let b: nat = 0x1_0000_0000_0000_0000nat;
    assert(b * b * b >= b) by (nonlinear_arith)
        requires
            b > 1,
    ;
}

proof fn lemma_le_value_zeros(s: Seq<u8>)
    requires
        forall|j: int| 0 <= j < s.len() ==> s[j] == 0,
    ensures
        le_value(s) == 0,
    decreases s.len(),
{
    if s.len() > 0 {
        lemma_le_value_zeros(s.subrange(1, s.len() as int));
    }
}

/// Two byte strings of one length that stand for the same number are equal.
proof fn lemma_le_value_injective(s: Seq<u8>, t: Seq<u8>)
    requires
        s.len() == t.len(),
        le_value(s) == le_value(t),
    ensures
        s =~= t,
    decreases s.len(),
{
    if s.len() > 0 {
        let rs = s.subrange(1, s.len() as int);
        let rt = t.subrange(1, t.len() as int);
        let (a, b, x, y) = (s[0] as int, t[0] as int, le_value(rs) as int, le_value(rt) as int);
        assert(a == b && x == y) by (nonlinear_arith)
            requires
                0 <= a < 256,
                0 <= b < 256,
                0 <= x,
                0 <= y,
                a + 256 * x == b + 256 * y,
        ;
        lemma_le_value_injective(rs, rt);
        assert forall|j: int| 0 <= j < s.len() implies s[j] == t[j] by {
            if j > 0 {
                assert(s[j] == rs[j - 1]);
                assert(t[j] == rt[j - 1]);
            }
        }
    }
}

/// Relies on `From<u64> for pasta::Fp` followed by `PrimeField::to_repr`:
/// the canonical little-endian bytes of the number `n`, which lies below the
/// modulus.
#[verifier::external_body]
fn fp_from_u64(n: u64) -> (r: [u8; 32])
    ensures
        le_value(r@) == n as nat,
{
    Fp::from(n).to_repr()
}

/// Relies on `Add for pasta::Fp`, with `PrimeField::from_repr` (which accepts
/// every canonical encoding) and `PrimeField::to_repr` around it: the
/// canonical bytes of the sum modulo the field's order.
#[verifier::external_body]
fn fp_add(a: &[u8; 32], b: &[u8; 32]) -> (r: [u8; 32])
    requires
        le_value(a@) < modulus(),
        le_value(b@) < modulus(),
    ensures
        le_value(r@) == (le_value(a@) + le_value(b@)) % modulus(),
{
    let x = Fp::from_repr(*a).unwrap();
    let y = Fp::from_repr(*b).unwrap();
    (x + y).to_repr()
}

} // verus!
