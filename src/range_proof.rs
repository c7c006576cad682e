//! Range proofs: each part encodes 0 or 1, and the parts sum to the target.
use vstd::arithmetic::div_mod::{lemma_mul_mod_noop_right, lemma_small_mod};
use vstd::arithmetic::power::pow;
use vstd::prelude::*;

use crate::cipher::{check_spec, ct_view, CipherFunctor, EGICipher};
use crate::primering::{field_div, PrimeRing};

verus! {

/// The check that `t` encodes 0 or 1 against challenge `b` and response `s`:
/// `γ^s = t.1 * t.0^b` (zero) or `γ^s = t.1 * (t.0 / γ)^b` (one), modulo `p`.
pub open spec fn bit_proof_spec(p: int, g: int, b: nat, s: nat, t: (int, int)) -> bool {
    let lhs = pow(g, s) % p;
    ||| lhs == (t.1 * pow(t.0, b)) % p
    ||| lhs == (t.1 * pow(field_div(p, t.0, g), b)) % p
}

/// Every part passes the bit check with the shared `(b, s)` and the parts sum to `target`.
pub open spec fn within_exp_spec(
    p: int,
    g: int,
    b: nat,
    s: nat,
    target: (int, int),
    parts: Seq<(u128, u128)>,
) -> bool {
    &&& forall|i: int| 0 <= i < parts.len() ==> #[trigger] bit_proof_spec(p, g, b, s, ct_view(parts[i]))
    &&& check_spec(p, parts, target)
}

/// Parts that each pass the bit check and sum to the target make the range proof hold.
pub proof fn lemma_within_exp_accepts(
    p: int,
    g: int,
    b: nat,
    s: nat,
    target: (int, int),
    parts: Seq<(u128, u128)>,
)
    requires
        forall|i: int| 0 <= i < parts.len() ==> #[trigger] bit_proof_spec(p, g, b, s, ct_view(parts[i])),
        check_spec(p, parts, target),
    ensures
        within_exp_spec(p, g, b, s, target, parts),
{
}

/// Replacing any one part by a ciphertext that fails the bit check makes the range proof
/// fail, whatever the other parts and the target.
pub proof fn lemma_within_exp_rejects(
    p: int,
    g: int,
    b: nat,
    s: nat,
    target: (int, int),
    parts: Seq<(u128, u128)>,
    i: int,
    bad: (u128, u128),
)
    requires
        0 <= i < parts.len(),
        !bit_proof_spec(p, g, b, s, ct_view(bad)),
    ensures
        !within_exp_spec(p, g, b, s, target, parts.update(i, bad)),
{
    assert(parts.update(i, bad)[i] == bad);
}

/// Zero-knowledge checks on ciphertexts.
pub trait CipherProof<K, F, T> {
    /// The parameters are usable.
    spec fn proof_ready(&self) -> bool;

    /// Whether `t` encodes 0 or 1, given challenge `b` and response `s`.
    fn bit_proof(&self, b: F, s: F, t: T) -> bool
        requires
            self.proof_ready(),
    ;

    /// Whether `target` is the sum of the parts of `proof`, each of which encodes 0 or 1.
    fn within_exp(&self, b: F, s: F, target: T, proof: Vec<T>) -> bool
        requires
            self.proof_ready(),
            proof@.len() > 0,
    ;
}

impl CipherProof<u128, u128, (u128, u128)> for EGICipher {
    open spec fn proof_ready(&self) -> bool {
        self.wf()
    }

    fn bit_proof(&self, b: u128, s: u128, t: (u128, u128)) -> (ok: bool)
        ensures
            ok == bit_proof_spec(self.prime as int, self.gamma as int, b as nat, s as nat, ct_view(t)),
    {
        let ring = self.prime;
        let b0 = ring.power(t.0, b);
        proof {
            lemma_small_mod(self.gamma as nat, ring as nat);
        }
        let q = ring.div(t.0, self.gamma);
        let b1 = ring.power(q, b);
        let lhs = ring.power(self.gamma, s);
        proof {
            lemma_mul_mod_noop_right(t.1 as int, pow(t.0 as int, b as nat), ring as int);
            lemma_mul_mod_noop_right(t.1 as int, pow(q as int, b as nat), ring as int);
        }
        lhs == ring.mul(t.1, b0) || lhs == ring.mul(t.1, b1)
    }

    fn within_exp(&self, b: u128, s: u128, target: (u128, u128), proof: Vec<(u128, u128)>) -> (ok: bool)
        ensures
            ok == within_exp_spec(
                self.prime as int,
                self.gamma as int,
                b as nat,
                s as nat,
                ct_view(target),
                proof@,
            ),
    {
        let ghost p = self.prime as int;
        let ghost g = self.gamma as int;
        let mut all = true;
        let mut i: usize = 0;
        while i < proof.len()
            invariant
                self.wf(),
                p == self.prime as int,
                g == self.gamma as int,
                i <= proof@.len(),
                all <==> forall|j: int| 0 <= j < i ==> #[trigger] bit_proof_spec(p, g, b as nat, s as nat, ct_view(proof@[j])),
            decreases proof@.len() - i,
        {
            let bit = self.bit_proof(b, s, proof[i]);
            proof {
                assert(bit == bit_proof_spec(p, g, b as nat, s as nat, ct_view(proof@[i as int])));
            }
            all = all && bit;
            i = i + 1;
        }
        all && self.check(proof, target)
    }
}

} // verus!
