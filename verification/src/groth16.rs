//! The proof binding layer: decodes verification-key and proof documents
//! into the pairing library's group elements and consults the pairing
//! check. Only the calls into ark_bn254 / ark_groth16 are trusted; every
//! arity check and document walk here is verified.
use vstd::prelude::*;

use core::str::FromStr;
use ark_bn254::Bn254;
use ark_groth16::{prepare_verifying_key, verify_proof, VerifyingKey};
use crate::Error;
use crate::u256::is_dec_digits;

verus! {

/// A G1 point as a Circom document writes it: decimal coordinates.
pub type CircomG1Affine = Vec<String>;

/// A G2 point as a Circom document writes it: pairs of decimal coordinates.
pub type CircomG2Affine = Vec<Vec<String>>;

/// A zero-knowledge proof document: protocol and curve tags and three
/// group elements.
pub struct CircomProof {
    pub pi_a: CircomG1Affine,
    pub pi_b: CircomG2Affine,
    pub pi_c: CircomG1Affine,
    pub protocol: String,
    pub curve: String,
}

/// A verification-key document: tags, the public-input count, and the
/// group-element parameters of the verifying key.
pub struct CircomVerificationKey {
    pub protocol: String,
    pub curve: String,
    pub n_public: u64,
    pub vk_alpha_1: CircomG1Affine,
    pub vk_beta_2: CircomG2Affine,
    pub vk_gamma_2: CircomG2Affine,
    pub vk_delta_2: CircomG2Affine,
    pub vk_alphabeta_12: Vec<Vec<Vec<String>>>,
    pub ic: Vec<CircomG1Affine>,
}

// The affine point types cannot be declared to the verifier (their struct
// carries an outside trait bound), so the library carries them through
// opaque single-field holders.
/// A decoded BN254 G1 group element, opaque to the verifier.
#[verifier::external_body]
pub struct G1Point(ark_bn254::G1Affine);

/// A decoded BN254 G2 group element, opaque to the verifier.
#[verifier::external_body]
pub struct G2Point(ark_bn254::G2Affine);

#[verifier::external_type_specification]
#[verifier::external_body]
#[verifier::reject_recursive_types(P)]
pub struct ExFp256<P>(ark_ff::Fp256<P>);

#[verifier::external_type_specification]
#[verifier::external_body]
pub struct ExFrParameters(ark_bn254::FrParameters);

/// The decimal numerals ark's field parser accepts: digits only, nonempty,
/// no unnecessary leading zero.
pub open spec fn spec_field_numeral(s: Seq<char>) -> bool {
    &&& s.len() > 0
    &&& is_dec_digits(s)
    &&& (s[0] == '0' ==> s.len() == 1)
}

/// A well-formed G1 coordinate document.
pub open spec fn spec_g1_ok(v: Seq<Seq<char>>) -> bool {
    &&& v.len() >= 3
    &&& spec_field_numeral(v[0])
    &&& spec_field_numeral(v[1])
    &&& spec_field_numeral(v[2])
}

/// A well-formed G2 coordinate document.
pub open spec fn spec_g2_ok(v: Seq<Seq<Seq<char>>>) -> bool {
    &&& v.len() >= 3
    &&& forall|i: int|
        0 <= i < 3 ==> (#[trigger] v[i]).len() >= 2 && spec_field_numeral(v[i][0])
            && spec_field_numeral(v[i][1])
}

/// A verification-key document whose group elements all parse.
pub open spec fn spec_vk_elements_ok(vk: CircomVerificationKey) -> bool {
    &&& spec_g1_ok(vk.vk_alpha_1.deep_view())
    &&& spec_g2_ok(vk.vk_beta_2.deep_view())
    &&& spec_g2_ok(vk.vk_gamma_2.deep_view())
    &&& spec_g2_ok(vk.vk_delta_2.deep_view())
    &&& forall|i: int|
        0 <= i < vk.ic@.len() ==> spec_g1_ok((#[trigger] vk.ic@[i]).deep_view())
}

/// A proof document whose group elements all parse.
pub open spec fn spec_proof_elements_ok(p: CircomProof) -> bool {
    &&& spec_g1_ok(p.pi_a.deep_view())
    &&& spec_g2_ok(p.pi_b.deep_view())
    &&& spec_g1_ok(p.pi_c.deep_view())
}

/// Everything the pairing check needs of the two documents and the inputs:
/// all group elements parse and the input count matches the key's slots.
/// (Closed: callers treat well-formedness as one opaque condition.)
pub closed spec fn spec_documents_ok(
    vk: CircomVerificationKey,
    p: CircomProof,
    inputs: Seq<Seq<char>>,
) -> bool {
    &&& spec_vk_elements_ok(vk)
    &&& spec_proof_elements_ok(p)
    &&& forall|i: int| 0 <= i < inputs.len() ==> spec_field_numeral(#[trigger] inputs[i])
    &&& inputs.len() + 1 == vk.ic@.len()
}

/// What the Groth16 pairing check answers for a key document, a proof
/// document and a public-input list: a function of the three documents
/// alone (the oracle is deterministic and side-effect-free). `Some` carries
/// the verdict; `None` is an outcome the pairing library reports as an
/// error (an input count that does not match the key's slots, or a
/// degenerate identity output of the pairing product).
pub uninterp spec fn spec_groth16_verdict(
    vk: CircomVerificationKey,
    p: CircomProof,
    inputs: Seq<Seq<char>>,
) -> Option<bool>;

#[verifier::external_type_specification]
#[verifier::external_body]
pub struct ExFqParameters(ark_bn254::FqParameters);

/// Relies on ark_ff's decimal field parser for the base field: it succeeds
/// exactly on acceptable field numerals.
#[verifier::external_body]
fn fq_from_dec(s: &String) -> (r: Result<ark_bn254::Fq, Error>)
    ensures
        r is Ok <==> spec_field_numeral(s@),
        r matches Err(e) ==> e == Error::Format,
{
    ark_bn254::Fq::from_str(s.as_str()).map_err(|_| Error::Format)
}

/// Relies on ark_bn254's G1 construction: three projective base-field
/// coordinates become one affine point.
#[verifier::external_body]
fn g1_from_coords(x: ark_bn254::Fq, y: ark_bn254::Fq, z: ark_bn254::Fq) -> G1Point
{
    G1Point(ark_bn254::G1Affine::from(ark_bn254::G1Projective::new(x, y, z)))
}

/// Relies on ark_bn254's G2 construction: three quadratic-extension
/// coordinates, given as coefficient pairs, become one affine point.
#[verifier::external_body]
fn g2_from_coords(
    x0: ark_bn254::Fq,
    x1: ark_bn254::Fq,
    y0: ark_bn254::Fq,
    y1: ark_bn254::Fq,
    z0: ark_bn254::Fq,
    z1: ark_bn254::Fq,
) -> G2Point
{
    let x = ark_bn254::Fq2::new(x0, x1);
    let y = ark_bn254::Fq2::new(y0, y1);
    let z = ark_bn254::Fq2::new(z0, z1);
    G2Point(ark_bn254::G2Affine::from(ark_bn254::G2Projective::new(x, y, z)))
}

/// Decodes a G1 document: three decimal coordinates become one affine
/// point; it succeeds exactly when all three are acceptable field numerals.
pub fn g1_affine(g1: &CircomG1Affine) -> (r: Result<G1Point, Error>)
    requires
        g1@.len() >= 3,
    ensures
        r is Ok <==> spec_g1_ok(g1.deep_view()),
        r matches Err(e) ==> e == Error::Format,
{
    proof {
        assert(g1.deep_view().len() == g1@.len());
    }
    let x = match fq_from_dec(&g1[0]) {
        Ok(v) => v,
        Err(e) => {
            return Err(e);
        },
    };
    let y = match fq_from_dec(&g1[1]) {
        Ok(v) => v,
        Err(e) => {
            return Err(e);
        },
    };
    let z = match fq_from_dec(&g1[2]) {
        Ok(v) => v,
        Err(e) => {
            return Err(e);
        },
    };
    Ok(g1_from_coords(x, y, z))
}

/// Decodes a G2 document: three coordinate pairs become one affine point;
/// it succeeds exactly when all six are acceptable field numerals.
pub fn g2_affine(g2: &CircomG2Affine) -> (r: Result<G2Point, Error>)
    requires
        g2@.len() >= 3,
        forall|i: int| 0 <= i < 3 ==> (#[trigger] g2@[i])@.len() >= 2,
    ensures
        r is Ok <==> spec_g2_ok(g2.deep_view()),
        r matches Err(e) ==> e == Error::Format,
{
    proof {
        assert(g2.deep_view().len() == g2@.len());
        assert(g2.deep_view()[0] == g2@[0].deep_view());
        assert(g2.deep_view()[1] == g2@[1].deep_view());
        assert(g2.deep_view()[2] == g2@[2].deep_view());
        assert(g2.deep_view()[0].len() == g2@[0]@.len());
        assert(g2.deep_view()[1].len() == g2@[1]@.len());
        assert(g2.deep_view()[2].len() == g2@[2]@.len());
        assert(g2.deep_view()[0][0] == (g2@[0])@[0]@);
        assert(g2.deep_view()[0][1] == (g2@[0])@[1]@);
        assert(g2.deep_view()[1][0] == (g2@[1])@[0]@);
        assert(g2.deep_view()[1][1] == (g2@[1])@[1]@);
        assert(g2.deep_view()[2][0] == (g2@[2])@[0]@);
        assert(g2.deep_view()[2][1] == (g2@[2])@[1]@);
    }
    let x0 = match fq_from_dec(&g2[0][0]) {
        Ok(v) => v,
        Err(e) => {
            return Err(e);
        },
    };
    let x1 = match fq_from_dec(&g2[0][1]) {
        Ok(v) => v,
        Err(e) => {
            return Err(e);
        },
    };
    let y0 = match fq_from_dec(&g2[1][0]) {
        Ok(v) => v,
        Err(e) => {
            return Err(e);
        },
    };
    let y1 = match fq_from_dec(&g2[1][1]) {
        Ok(v) => v,
        Err(e) => {
            return Err(e);
        },
    };
    let z0 = match fq_from_dec(&g2[2][0]) {
        Ok(v) => v,
        Err(e) => {
            return Err(e);
        },
    };
    let z1 = match fq_from_dec(&g2[2][1]) {
        Ok(v) => v,
        Err(e) => {
            return Err(e);
        },
    };
    Ok(g2_from_coords(x0, x1, y0, y1, z0, z1))
}

/// Relies on ark_ff's decimal field parser for the scalar field: it succeeds
/// exactly on acceptable field numerals.
#[verifier::external_body]
fn fr_from_dec(s: &String) -> (r: Result<ark_bn254::Fr, Error>)
    ensures
        r is Ok <==> spec_field_numeral(s@),
        r matches Err(e) ==> e == Error::Format,
{
    ark_bn254::Fr::from_str(s.as_str()).map_err(|_| Error::Format)
}

/// Relies on ark_groth16's `prepare_verifying_key` and `verify_proof`,
/// with the key, proof and inputs decoded by ark_bn254's parsers: the
/// verdict is a function of the three documents alone. `None` stands for
/// either error the pairing library reports; the arity error is excluded
/// here by the precondition, a degenerate identity output of the pairing
/// product is not.
#[verifier::external_body]
fn groth16_verdict(
    vk: &CircomVerificationKey,
    p: &CircomProof,
    inputs: &Vec<String>,
) -> (r: Option<bool>)
    requires
        spec_documents_ok(*vk, *p, inputs.deep_view()),
    ensures
        r == spec_groth16_verdict(*vk, *p, inputs.deep_view()),
{
    let g = |e| g1_affine(e).unwrap().0;
    let h = |e| g2_affine(e).unwrap().0;
    let key = VerifyingKey::<Bn254> {
        alpha_g1: g(&vk.vk_alpha_1),
        beta_g2: h(&vk.vk_beta_2),
        gamma_g2: h(&vk.vk_gamma_2),
        delta_g2: h(&vk.vk_delta_2),
        gamma_abc_g1: vk.ic.iter().map(&g).collect(),
    };
    let prf = ark_groth16::Proof { a: g(&p.pi_a), b: h(&p.pi_b), c: g(&p.pi_c) };
    let frs: Vec<_> = inputs.iter().map(|s| fr_from_dec(s).unwrap()).collect();
    verify_proof(&prepare_verifying_key(&key), &prf, &frs).ok()
}

/// Checks a G2 document's arity, then converts it.
fn g2_checked(g2: &CircomG2Affine) -> (r: Result<G2Point, Error>)
    ensures
        r is Ok <==> spec_g2_ok(g2.deep_view()),
        r matches Err(e) ==> e == Error::Format,
{
    proof {
        assert(g2.deep_view().len() == g2@.len());
    }
    if g2.len() < 3 {
        return Err(Error::Format);
    }
    let mut i: usize = 0;
    while i < 3
        invariant
            i <= 3,
            g2@.len() >= 3,
            forall|t: int| 0 <= t < i ==> (#[trigger] g2@[t])@.len() >= 2,
        decreases 3 - i,
    {
        if g2[i].len() < 2 {
            proof {
                assert(g2.deep_view()[i as int].len() == g2@[i as int]@.len());
            }
            return Err(Error::Format);
        }
        i = i + 1;
    }
    g2_affine(g2)
}

/// Checks a G1 document's arity, then converts it.
fn g1_checked(g1: &CircomG1Affine) -> (r: Result<G1Point, Error>)
    ensures
        r is Ok <==> spec_g1_ok(g1.deep_view()),
        r matches Err(e) ==> e == Error::Format,
{
    proof {
        assert(g1.deep_view().len() == g1@.len());
    }
    if g1.len() < 3 {
        return Err(Error::Format);
    }
    g1_affine(g1)
}

/// Decodes both documents and the public inputs, checks the input arity
/// against the key, and consults the pairing check. Succeeds exactly when
/// the documents are well-formed and the pairing verdict is acceptance;
/// every rejection before the pairing check is a format error; a
/// well-formed proof the pairing rejects is a cryptographic-verification
/// error.
pub fn verify_documents(
    vk: &CircomVerificationKey,
    p: &CircomProof,
    inputs: &Vec<String>,
) -> (r: Result<(), Error>)
    ensures
        r is Ok <==> (spec_documents_ok(*vk, *p, inputs.deep_view()) && spec_groth16_verdict(
            *vk,
            *p,
            inputs.deep_view(),
        ) == Some(true)),
        r == Err::<(), Error>(Error::CryptographicVerification) <==> (spec_documents_ok(
            *vk,
            *p,
            inputs.deep_view(),
        ) && spec_groth16_verdict(*vk, *p, inputs.deep_view()) == Some(false)),
        r is Err ==> r == Err::<(), Error>(Error::Format) || r == Err::<(), Error>(
            Error::CryptographicVerification,
        ),
        !spec_documents_ok(*vk, *p, inputs.deep_view()) ==> r == Err::<(), Error>(Error::Format),
{
    if let Err(e) = g1_checked(&vk.vk_alpha_1) {
        return Err(e);
    }
    if let Err(e) = g2_checked(&vk.vk_beta_2) {
        return Err(e);
    }
    if let Err(e) = g2_checked(&vk.vk_gamma_2) {
        return Err(e);
    }
    if let Err(e) = g2_checked(&vk.vk_delta_2) {
        return Err(e);
    }
    let n = vk.ic.len();
    let mut i: usize = 0;
    while i < n
        invariant
            i <= n,
            n == vk.ic@.len(),
            forall|t: int| 0 <= t < i ==> spec_g1_ok((#[trigger] vk.ic@[t]).deep_view()),
        decreases n - i,
    {
        if let Err(e) = g1_checked(&vk.ic[i]) {
            return Err(e);
        }
        i = i + 1;
    }
    if let Err(e) = g1_checked(&p.pi_a) {
        return Err(e);
    }
    if let Err(e) = g2_checked(&p.pi_b) {
        return Err(e);
    }
    if let Err(e) = g1_checked(&p.pi_c) {
        return Err(e);
    }
    if let Err(e) = parse_public_inputs(inputs) {
        proof {
            assert(inputs.deep_view().len() == inputs@.len());
            assert forall|k: int| 0 <= k < inputs@.len() implies #[trigger] inputs.deep_view()[k]
                == (inputs@[k])@ by {}
            let bad = choose|k: int|
                0 <= k < inputs@.len() && !spec_field_numeral((#[trigger] inputs@[k])@);
            assert(!spec_field_numeral(inputs.deep_view()[bad]));
        }
        return Err(e);
    }
    if n == 0 || inputs.len() != n - 1 {
        return Err(Error::Format);
    }
    match groth16_verdict(vk, p, inputs) {
        Some(true) => Ok(()),
        Some(false) => Err(Error::CryptographicVerification),
        None => Err(Error::Format),
    }
}

/// Parses the public-input numerals into scalar field elements.
fn parse_public_inputs(inputs: &Vec<String>) -> (r: Result<Vec<ark_bn254::Fr>, Error>)
    ensures
        r is Ok <==> (forall|i: int|
            0 <= i < inputs@.len() ==> spec_field_numeral((#[trigger] inputs@[i])@)),
        r is Err ==> r == Err::<Vec<ark_bn254::Fr>, Error>(Error::Format),
{
    let mut out: Vec<ark_bn254::Fr> = Vec::new();
    let n = inputs.len();
    let mut i: usize = 0;
    while i < n
        invariant
            i <= n,
            n == inputs@.len(),
            forall|t: int| 0 <= t < i ==> spec_field_numeral((#[trigger] inputs@[t])@),
        decreases n - i,
    {
        let f = match fr_from_dec(&inputs[i]) {
            Ok(v) => v,
            Err(e) => return Err(e),
        };
        out.push(f);
        i = i + 1;
    }
    Ok(out)
}

} // verus!
