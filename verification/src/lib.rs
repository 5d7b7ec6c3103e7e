//! A social-recovery account scheme: security questions are registered as
//! commitments in a fixed-depth Merkle accumulator, and two privileged
//! transitions (rotating one question, recovering ownership) are gated by
//! zero-knowledge proofs checked against the live accumulator root.
use vstd::prelude::*;

pub mod groth16;
pub mod merkle_tree;
pub mod text;
pub mod u256;

use crate::groth16::{
    CircomProof, CircomVerificationKey, spec_documents_ok, spec_groth16_verdict,
    verify_documents,
};
use crate::merkle_tree::{Hasher, MerkleTree, Branch, on_path};
use crate::u256::{
    U256, dec_rep, dec_value, is_dec_digits, pow256, u256_of, be_bytes, strip_trailing_zeros,
    strip_zero_suffix, lemma_u256_of_value, lemma_value_injective, lemma_value_bound,
};
use crate::text::{parse_string_list, spec_parsed_string_list, str_eq, utf8_to_string};
use vstd::utf8::{valid_utf8, decode_utf8};

verus! {

/// Reasons an operation on the recovery contract is rejected.
/// Every rejection leaves the contract state unchanged.
#[derive(Clone, Copy, PartialEq, Eq, Structural, Debug)]
pub enum Error {
    /// The caller is not the current owner (admin-only operation).
    Authorization,
    /// The question registry is already at the tree's leaf capacity.
    Capacity,
    /// The named question is not in the registry, or a leaf index lies
    /// beyond the tree's capacity.
    NotFound,
    /// The claimed root does not match the live accumulator root.
    StaleProof,
    /// The nullifier was already consumed in this recovery epoch.
    Replay,
    /// The destination disagrees with the pending recovery destination.
    Conflict,
    /// A malformed document, unparseable numeral, or arity mismatch.
    Format,
    /// A well-formed proof failed the pairing check.
    CryptographicVerification,
    /// Rotation attempted while a recovery is in progress, or recovery
    /// attempted with an empty question registry.
    StateConflict,
}

/// Index of the first registry entry reading `q`, or -1.
pub open spec fn spec_first_match(qs: Seq<String>, q: Seq<char>) -> int
    decreases qs.len(),
{
    if qs.len() == 0 {
        -1
    } else if qs[0]@ == q {
        0
    } else if spec_first_match(qs.drop_first(), q) < 0 {
        -1
    } else {
        1 + spec_first_match(qs.drop_first(), q)
    }
}

/// Whether some entry reads `q`.
pub open spec fn spec_contains_str(qs: Seq<String>, q: Seq<char>) -> bool {
    exists|i: int| 0 <= i < qs.len() && (#[trigger] qs[i])@ == q
}

/// The two proof roles the contract knows.
pub open spec fn spec_role_known(role: Seq<char>) -> bool {
    role == "update"@ || role == "recover"@
}

/// The destination identity a recovery numeral names: its value's 32
/// big-endian bytes, trailing zero bytes stripped, decoded as UTF-8.
/// (Opaque: contracts treat the decoding as one condition; `decode_owner`
/// computes it.)
#[verifier::opaque]
pub open spec fn spec_owner_decode(numeral: Seq<char>) -> Option<Seq<char>> {
    if is_dec_digits(numeral) && dec_value(numeral) < pow256() {
        if valid_utf8(strip_trailing_zeros(be_bytes(u256_of(dec_value(numeral))))) {
            Some(decode_utf8(strip_trailing_zeros(be_bytes(u256_of(dec_value(numeral))))))
        } else {
            None
        }
    } else {
        None
    }
}

proof fn lemma_first_match_at(qs: Seq<String>, q: Seq<char>, i: int)
    requires
        0 <= i < qs.len(),
        qs[i]@ == q,
        forall|t: int| 0 <= t < i ==> (#[trigger] qs[t])@ != q,
    ensures
        spec_first_match(qs, q) == i,
    decreases i,
{
    if i > 0 {
        lemma_first_match_at(qs.drop_first(), q, i - 1);
    }
}

proof fn lemma_first_match_none(qs: Seq<String>, q: Seq<char>)
    requires
        forall|t: int| 0 <= t < qs.len() ==> (#[trigger] qs[t])@ != q,
    ensures
        spec_first_match(qs, q) == -1,
    decreases qs.len(),
{
    if qs.len() > 0 {
        lemma_first_match_none(qs.drop_first(), q);
    }
}

/// Finds the first registry entry reading `q`.
fn find_question(questions: &Vec<String>, q: &String) -> (r: Option<usize>)
    ensures
        r matches Some(i) ==> 0 <= i < questions@.len() && spec_first_match(questions@, q@) == i,
        r is None <==> spec_first_match(questions@, q@) < 0,
{
    let n = questions.len();
    let mut i: usize = 0;
    while i < n
        invariant
            i <= n,
            n == questions@.len(),
            forall|t: int| 0 <= t < i ==> (#[trigger] questions@[t])@ != q@,
        decreases n - i,
    {
        if str_eq(questions[i].as_str(), q.as_str()) {
            proof {
                lemma_first_match_at(questions@, q@, i as int);
            }
            return Some(i);
        }
        i = i + 1;
    }
    proof {
        lemma_first_match_none(questions@, q@);
    }
    None
}

/// Whether the list holds an entry reading `s`.
fn contains_string(list: &Vec<String>, s: &String) -> (r: bool)
    ensures
        r == spec_contains_str(list@, s@),
{
    let n = list.len();
    let mut i: usize = 0;
    while i < n
        invariant
            i <= n,
            n == list@.len(),
            forall|t: int| 0 <= t < i ==> (#[trigger] list@[t])@ != s@,
        decreases n - i,
    {
        if str_eq(list[i].as_str(), s.as_str()) {
            return true;
        }
        i = i + 1;
    }
    false
}

/// A copy of a string list, entry for entry.
fn clone_strings(list: &Vec<String>) -> (r: Vec<String>)
    ensures
        r@ == list@,
{
    let n = list.len();
    let mut out: Vec<String> = Vec::new();
    let mut i: usize = 0;
    while i < n
        invariant
            i <= n,
            n == list@.len(),
            out@.len() == i,
            forall|t: int| 0 <= t < i ==> out@[t] == list@[t],
        decreases n - i,
    {
        let s = list[i].clone();
        out.push(s);
        i = i + 1;
    }
    proof {
        assert(out@ =~= list@);
    }
    out
}

/// Decodes a destination identity from its numeral.
fn decode_owner(numeral: &String) -> (r: Option<String>)
    ensures
        r is Some <==> spec_owner_decode(numeral@) is Some,
        r matches Some(s) ==> spec_owner_decode(numeral@) == Some(s@),
{
    proof {
        reveal(spec_owner_decode);
    }
    let val = match U256::from_dec_str(numeral.as_str()) {
        Some(v) => v,
        None => {
            return None;
        },
    };
    proof {
        lemma_u256_of_value(val);
    }
    let bytes = val.to_big_endian();
    let stripped = strip_zero_suffix(bytes);
    utf8_to_string(stripped)
}

/// The proof-gated social-recovery contract: the accumulator, the question
/// registry, the consumed nullifiers of the current recovery epoch, the
/// pending destination, and the two verification-key documents.
pub struct Contract<H: Hasher<Hash = U256>> {
    /// Key document for the "rotation" proof role.
    pub update_verification_key: CircomVerificationKey,
    /// Key document for the "recovery" proof role.
    pub recover_verification_key: CircomVerificationKey,
    /// The current owner identity.
    pub owner_id: String,
    /// The accumulator over question commitments.
    pub tree: MerkleTree<H>,
    /// Question texts, index-aligned with the accumulator leaves.
    pub questions: Vec<String>,
    /// Nullifiers consumed in the current recovery epoch.
    pub recovers: Vec<String>,
    /// The destination of an in-progress recovery.
    pub new_owner: Option<String>,
}

impl<H: Hasher<Hash = U256>> Contract<H> {
    /// The contract invariant: a well-formed tree, a registry within the
    /// leaf capacity, nullifiers unique within the epoch, and a pending
    /// destination exactly while a recovery is in progress.
    pub open spec fn wf(self) -> bool {
        &&& self.tree.wf()
        &&& self.questions@.len() <= self.tree.spec_num_leaves()
        &&& (self.recovers@.len() < self.questions@.len() || self.recovers@.len() == 0)
        &&& forall|i: int, j: int|
            0 <= i < j < self.recovers@.len() ==> (#[trigger] self.recovers@[i])@ != (
            #[trigger] self.recovers@[j])@
        &&& (self.new_owner is Some <==> self.recovers@.len() > 0)
    }

    /// Two contract states agree on every field.
    pub open spec fn same_state(a: Self, b: Self) -> bool {
        &&& a.update_verification_key == b.update_verification_key
        &&& a.recover_verification_key == b.recover_verification_key
        &&& a.owner_id == b.owner_id
        &&& a.tree == b.tree
        &&& a.questions == b.questions
        &&& a.recovers == b.recovers
        &&& a.new_owner == b.new_owner
    }

    /// The claimed root `s` names the live root canonically.
    pub open spec fn spec_root_claim_canonical(self, s: Seq<char>) -> bool {
        self.tree.nodes@.len() > 0 && s == dec_rep(self.tree.spec_root().value())
    }

    /// The claimed root `s` parses and equals the live root's value.
    pub open spec fn spec_root_claim_value(self, s: Seq<char>) -> bool {
        self.tree.nodes@.len() > 0 && dec_value(s) == self.tree.spec_root().value()
    }

    /// The verification key a role selects (meaningful for known roles).
    pub open spec fn spec_key_for(self, role: Seq<char>) -> CircomVerificationKey {
        if role == "update"@ {
            self.update_verification_key
        } else {
            self.recover_verification_key
        }
    }

    /// The protocol-level acceptance conditions of a proof document under a
    /// role: a known role, "groth16" tags on key and proof, well-formed
    /// group elements, and a matching public-input count.
    #[verifier::opaque]
    pub open spec fn spec_verify_accepts(
        self,
        p: CircomProof,
        inputs: Seq<Seq<char>>,
        role: Seq<char>,
    ) -> bool {
        &&& spec_role_known(role)
        &&& self.spec_key_for(role).protocol@ == "groth16"@
        &&& p.protocol@ == "groth16"@
        &&& spec_documents_ok(self.spec_key_for(role), p, inputs)
    }

    /// Creates the contract with an all-default accumulator of the given
    /// depth and an empty registry.
    pub fn new(
        depth: usize,
        update_verification_key: CircomVerificationKey,
        recover_verification_key: CircomVerificationKey,
        owner_id: String,
    ) -> (r: Self)
        requires
            depth <= 32,
        ensures
            r.wf(),
            r.update_verification_key == update_verification_key,
            r.recover_verification_key == recover_verification_key,
            r.owner_id == owner_id,
            r.tree.depth == depth,
            r.tree.is_all_default((U256 { w0: 0, w1: 0, w2: 0, w3: 0 })),
            r.questions@.len() == 0,
            r.recovers@.len() == 0,
            r.new_owner is None,
    {
        Contract {
            update_verification_key,
            recover_verification_key,
            owner_id,
            tree: MerkleTree::new(depth, U256::zero()),
            questions: Vec::new(),
            recovers: Vec::new(),
            new_owner: None,
        }
    }

    /// Owner-only append of one question and its leaf commitment. Fails
    /// closed with the exact error for a foreign caller, a full registry
    /// (in particular, always at depth 0), or an unparseable commitment.
    pub fn add_security_question(&mut self, caller: &str, question: String, leaf: String) -> (r:
        Result<(), Error>)
        requires
            old(self).wf(),
        ensures
            final(self).wf(),
            r is Err ==> Self::same_state(*final(self), *old(self)),
            r == Err::<(), Error>(Error::Authorization) <==> caller@ != old(self).owner_id@,
            caller@ == old(self).owner_id@ ==> (r == Err::<(), Error>(Error::Capacity)
                <==> old(self).questions@.len() >= old(self).tree.spec_num_leaves()),
            r is Ok <==> (caller@ == old(self).owner_id@
                && old(self).questions@.len() < old(self).tree.spec_num_leaves()
                && is_dec_digits(leaf@) && dec_value(leaf@) < pow256()),
            r == Err::<(), Error>(Error::Format) <==> (caller@ == old(self).owner_id@
                && old(self).questions@.len() < old(self).tree.spec_num_leaves()
                && !(is_dec_digits(leaf@) && dec_value(leaf@) < pow256())),
            r is Ok ==> {
                let idx = old(self).questions@.len() as int;
                &&& final(self).questions@ == old(self).questions@.push(question)
                &&& final(self).tree.depth == old(self).tree.depth
                &&& final(self).tree.leaf_view().len() == old(self).tree.leaf_view().len()
                &&& final(self).tree.leaf_view()[idx].value() == dec_value(leaf@)
                &&& forall|k: int|
                    0 <= k < old(self).tree.leaf_view().len() && k != idx
                        ==> final(self).tree.leaf_view()[k] == old(self).tree.leaf_view()[k]
                &&& forall|j: int|
                    0 <= j < old(self).tree.nodes@.len() && !on_path(
                        j,
                        old(self).tree.spec_num_internal() + idx,
                    ) ==> final(self).tree.nodes@[j] == old(self).tree.nodes@[j]
                &&& final(self).owner_id == old(self).owner_id
                &&& final(self).recovers == old(self).recovers
                &&& final(self).new_owner == old(self).new_owner
                &&& final(self).update_verification_key == old(self).update_verification_key
                &&& final(self).recover_verification_key == old(self).recover_verification_key
            },
    {
        if !str_eq(caller, self.owner_id.as_str()) {
            return Err(Error::Authorization);
        }
        let cap = self.tree.num_leaves();
        if self.questions.len() >= cap {
            return Err(Error::Capacity);
        }
        let value = match U256::from_dec_str(leaf.as_str()) {
            Some(v) => v,
            None => {
                return Err(Error::Format);
            },
        };
        let idx = self.questions.len();
        match self.tree.set(idx, value) {
            Ok(()) => (),
            Err(_) => {
                proof {
                    assert(false);
                }
            },
        }
        self.questions.push(question);
        Ok(())
    }

    /// Checks a proof document against the key for the given role. Unknown
    /// roles, protocol tags other than "groth16", unparseable group
    /// elements and arity mismatches are format errors; a well-formed proof
    /// the pairing check rejects is a cryptographic-verification error.
    pub fn verify(&self, prf: &CircomProof, public_input: &Vec<String>, proof_type: &str) -> (r:
        Result<(), Error>)
        ensures
            r is Ok <==> (self.spec_verify_accepts(*prf, public_input.deep_view(), proof_type@)
                && spec_groth16_verdict(
                self.spec_key_for(proof_type@),
                *prf,
                public_input.deep_view(),
            ) == Some(true)),
            r == Err::<(), Error>(Error::CryptographicVerification) <==> (self.spec_verify_accepts(
                *prf,
                public_input.deep_view(),
                proof_type@,
            ) && spec_groth16_verdict(
                self.spec_key_for(proof_type@),
                *prf,
                public_input.deep_view(),
            ) == Some(false)),
            r is Err ==> r == Err::<(), Error>(Error::Format) || r == Err::<(), Error>(
                Error::CryptographicVerification,
            ),
    {
        proof {
            reveal(Contract::spec_verify_accepts);
            reveal_strlit("update");
            reveal_strlit("recover");
            assert("update"@.len() != "recover"@.len());
        }
        let key = if str_eq(proof_type, "update") {
            &self.update_verification_key
        } else if str_eq(proof_type, "recover") {
            &self.recover_verification_key
        } else {
            return Err(Error::Format);
        };
        if !str_eq(key.protocol.as_str(), "groth16") {
            return Err(Error::Format);
        }
        if !str_eq(prf.protocol.as_str(), "groth16") {
            return Err(Error::Format);
        }
        verify_documents(key, prf, public_input)
    }

    /// Rotates one question under a "rotation" proof bound to the live
    /// root. The public inputs carry, in order: the new commitment, the
    /// claimed current root (canonical decimal), the question being
    /// replaced, and its replacement text.
    #[verifier::rlimit(50)]
    pub fn update_security_question(&mut self, prf: CircomProof, public_input: String) -> (r:
        Result<(), Error>)
        requires
            old(self).wf(),
        ensures
            final(self).wf(),
            r is Err ==> Self::same_state(*final(self), *old(self)),
            r == Err::<(), Error>(Error::StateConflict) <==> old(self).recovers@.len() > 0,
            old(self).recovers@.len() == 0 && spec_parsed_string_list(public_input@) is None
                ==> r == Err::<(), Error>(Error::Format),
            old(self).recovers@.len() == 0 ==> (spec_parsed_string_list(public_input@)
                matches Some(v) ==> {
                &&& v.len() < 4 ==> r == Err::<(), Error>(Error::Format)
                &&& r == Err::<(), Error>(Error::StaleProof) <==> (v.len() >= 4
                    && !old(self).spec_root_claim_canonical(v[1]))
                &&& r == Err::<(), Error>(Error::NotFound) <==> (v.len() >= 4
                    && old(self).spec_root_claim_canonical(v[1])
                    && spec_first_match(old(self).questions@, v[2]) < 0)
                &&& (r is Ok <==> (v.len() >= 4 && old(self).spec_root_claim_canonical(v[1])
                    && spec_first_match(old(self).questions@, v[2]) >= 0
                    && old(self).spec_verify_accepts(prf, v, "update"@)
                    && spec_groth16_verdict(old(self).update_verification_key, prf, v)
                        == Some(true) && is_dec_digits(v[0]) && dec_value(v[0]) < pow256()))
                &&& (r == Err::<(), Error>(Error::CryptographicVerification) <==> (v.len() >= 4
                    && old(self).spec_root_claim_canonical(v[1])
                    && spec_first_match(old(self).questions@, v[2]) >= 0
                    && old(self).spec_verify_accepts(prf, v, "update"@)
                    && spec_groth16_verdict(old(self).update_verification_key, prf, v)
                        == Some(false)))
                &&& r is Ok ==> {
                    let idx = spec_first_match(old(self).questions@, v[2]);
                    &&& v.len() >= 4
                    &&& old(self).spec_root_claim_canonical(v[1])
                    &&& 0 <= idx < old(self).questions@.len()
                    &&& final(self).questions@.len() == old(self).questions@.len()
                    &&& final(self).questions@[idx]@ == v[3]
                    &&& forall|k: int|
                        0 <= k < old(self).questions@.len() && k != idx
                            ==> final(self).questions@[k] == old(self).questions@[k]
                    &&& final(self).tree.depth == old(self).tree.depth
                    &&& final(self).tree.leaf_view().len() == old(self).tree.leaf_view().len()
                    &&& final(self).tree.leaf_view()[idx].value() == dec_value(v[0])
                    &&& forall|k: int|
                        0 <= k < old(self).tree.leaf_view().len() && k != idx
                            ==> final(self).tree.leaf_view()[k] == old(self).tree.leaf_view()[k]
                    &&& final(self).owner_id == old(self).owner_id
                    &&& final(self).recovers == old(self).recovers
                    &&& final(self).new_owner == old(self).new_owner
                    &&& final(self).update_verification_key == old(self).update_verification_key
                    &&& final(self).recover_verification_key == old(self).recover_verification_key
                }
            }),
    {
        if self.recovers.len() > 0 {
            return Err(Error::StateConflict);
        }
        let v = match parse_string_list(public_input.as_str()) {
            Some(v) => v,
            None => {
                return Err(Error::Format);
            },
        };
        if v.len() < 4 {
            return Err(Error::Format);
        }
        proof {
            assert(v.deep_view().len() == v@.len());
        }
        // Stale-proof rejection: the claimed root must print the live root.
        if self.tree.depth() == 0 {
            return Err(Error::StaleProof);
        }
        proof {
            vstd::arithmetic::power2::lemma_pow2_pos((self.tree.depth - 1) as nat);
        }
        let live = self.tree.root();
        let live_s = live.to_dec_string();
        if !str_eq(live_s.as_str(), v[1].as_str()) {
            return Err(Error::StaleProof);
        }
        // The replaced question must exist.
        let idx = match find_question(&self.questions, &v[2]) {
            Some(i) => i,
            None => {
                return Err(Error::NotFound);
            },
        };
        // Cryptographic validity under the rotation key.
        match self.verify(&prf, &v, "update") {
            Ok(()) => (),
            Err(e) => {
                return Err(e);
            },
        }
        let leaf = match U256::from_dec_str(v[0].as_str()) {
            Some(u) => u,
            None => {
                return Err(Error::Format);
            },
        };
        match self.tree.set(idx, leaf) {
            Ok(()) => (),
            Err(_) => {
                proof {
                    assert(false);
                }
            },
        }
        let new_q = v[3].clone();
        self.questions[idx] = new_q;
        Ok(())
    }

    /// Checks one recovery proof against the current state, in protocol
    /// order: destination decoding and agreement, nullifier novelty, root
    /// freshness, then cryptographic validity. On acceptance it returns the
    /// decoded destination; it changes nothing.
    #[verifier::rlimit(100)]
    fn check_recovery(&self, prf: &CircomProof, v: &Vec<String>) -> (r: Result<String, Error>)
        requires
            self.wf(),
            v@.len() >= 3,
        ensures
            spec_owner_decode((v@[2])@) is None ==> r == Err::<String, Error>(Error::Format),
            spec_owner_decode((v@[2])@) matches Some(owner) ==> {
                &&& (r == Err::<String, Error>(Error::Conflict) <==> (self.new_owner
                    matches Some(cur) && cur@ != owner))
                &&& (self.new_owner matches Some(cur) ==> cur@ == owner) ==> {
                    &&& (r == Err::<String, Error>(Error::Replay) <==> spec_contains_str(
                        self.recovers@,
                        (v@[0])@,
                    ))
                    &&& !spec_contains_str(self.recovers@, (v@[0])@) ==> {
                        &&& !(is_dec_digits((v@[1])@) && dec_value((v@[1])@) < pow256()) ==> r
                            == Err::<String, Error>(Error::Format)
                        &&& (r == Err::<String, Error>(Error::StaleProof) <==> (is_dec_digits(
                            (v@[1])@,
                        ) && dec_value((v@[1])@) < pow256() && !self.spec_root_claim_value(
                            (v@[1])@,
                        )))
                        &&& (r is Ok <==> (is_dec_digits((v@[1])@) && dec_value((v@[1])@)
                            < pow256() && self.spec_root_claim_value((v@[1])@)
                            && self.spec_verify_accepts(*prf, v.deep_view(), "recover"@)
                            && spec_groth16_verdict(
                            self.recover_verification_key,
                            *prf,
                            v.deep_view(),
                        ) == Some(true)))
                        &&& (r == Err::<String, Error>(Error::CryptographicVerification) <==> (
                        is_dec_digits((v@[1])@) && dec_value((v@[1])@) < pow256()
                            && self.spec_root_claim_value((v@[1])@) && self.spec_verify_accepts(
                            *prf,
                            v.deep_view(),
                            "recover"@,
                        ) && spec_groth16_verdict(
                            self.recover_verification_key,
                            *prf,
                            v.deep_view(),
                        ) == Some(false)))
                    }
                }
            },
            r matches Ok(dest) ==> spec_owner_decode((v@[2])@) == Some(dest@),
            r is Err ==> (r == Err::<String, Error>(Error::Format) || r == Err::<String, Error>(
                Error::Conflict,
            ) || r == Err::<String, Error>(Error::Replay) || r == Err::<String, Error>(
                Error::StaleProof,
            ) || r == Err::<String, Error>(Error::CryptographicVerification)),
    {
        proof {
            assert(v.deep_view().len() == v@.len());
            reveal_strlit("update");
            reveal_strlit("recover");
            assert("update"@.len() != "recover"@.len());
        }
        let dest = match decode_owner(&v[2]) {
            Some(s) => s,
            None => {
                return Err(Error::Format);
            },
        };
        // Every proof in one epoch must name the same destination.
        match &self.new_owner {
            Some(cur) => {
                if !str_eq(cur.as_str(), dest.as_str()) {
                    return Err(Error::Conflict);
                }
            },
            None => {},
        }
        // A nullifier is consumed at most once per epoch.
        if contains_string(&self.recovers, &v[0]) {
            return Err(Error::Replay);
        }
        // Stale-proof rejection: the claimed root must equal the live root.
        let claimed = match U256::from_dec_str(v[1].as_str()) {
            Some(u) => u,
            None => {
                return Err(Error::Format);
            },
        };
        if self.tree.depth() == 0 {
            proof {
                lemma_value_bound(claimed);
            }
            return Err(Error::StaleProof);
        }
        proof {
            vstd::arithmetic::power2::lemma_pow2_pos((self.tree.depth - 1) as nat);
        }
        let live = self.tree.root();
        if !(live == claimed) {
            proof {
                lemma_value_injective(live, claimed);
                lemma_value_bound(claimed);
            }
            return Err(Error::StaleProof);
        }
        proof {
            lemma_value_injective(live, claimed);
        }
        // Cryptographic validity under the recovery key.
        match self.verify(prf, v, "recover") {
            Ok(()) => Ok(dest),
            Err(e) => Err(e),
        }
    }

    /// Applies an accepted recovery proof: records the nullifier and the
    /// pending destination, and completes the epoch — adopt the
    /// destination, reset the accumulator, clear registry and nullifiers —
    /// exactly when the consumed nullifiers reach the registry's size.
    fn apply_recovery(&mut self, nullifier: String, dest: String)
        requires
            old(self).wf(),
            old(self).questions@.len() > 0,
            !spec_contains_str(old(self).recovers@, nullifier@),
            old(self).new_owner matches Some(cur) ==> cur@ == dest@,
        ensures
            final(self).wf(),
            final(self).update_verification_key == old(self).update_verification_key,
            final(self).recover_verification_key == old(self).recover_verification_key,
            old(self).questions@.len() == old(self).recovers@.len() + 1 ==> {
                &&& final(self).owner_id@ == dest@
                &&& final(self).new_owner is None
                &&& final(self).recovers@.len() == 0
                &&& final(self).questions@.len() == 0
                &&& final(self).tree.depth == old(self).tree.depth
                &&& final(self).tree.is_all_default((U256 { w0: 0, w1: 0, w2: 0, w3: 0 }))
            },
            old(self).questions@.len() != old(self).recovers@.len() + 1 ==> {
                &&& final(self).owner_id == old(self).owner_id
                &&& (final(self).new_owner matches Some(p) && p@ == dest@)
                &&& final(self).recovers@.len() == old(self).recovers@.len() + 1
                &&& final(self).recovers@[old(self).recovers@.len() as int]@ == nullifier@
                &&& forall|k: int|
                    0 <= k < old(self).recovers@.len() ==> final(self).recovers@[k] == old(
                        self,
                    ).recovers@[k]
                &&& final(self).questions == old(self).questions
                &&& final(self).tree == old(self).tree
            },
    {
        let ghost pre = *self;
        self.recovers.push(nullifier);
        proof {
            assert forall|i: int, j: int|
                0 <= i < j < self.recovers@.len() implies (#[trigger] self.recovers@[i])@ != (
            #[trigger] self.recovers@[j])@ by {
                if j == self.recovers@.len() - 1 {
                    assert(pre.recovers@[i]@ != pre.recovers@[j]@ || true);
                    assert(!spec_contains_str(pre.recovers@, nullifier@));
                    assert(pre.recovers@[i]@ != nullifier@);
                }
            }
        }
        if self.new_owner.is_none() {
            let pending = dest.clone();
            self.new_owner = Some(pending);
        }
        // Idempotent finalization: the epoch completes exactly when every
        // question has been answered by a distinct valid proof.
        if self.questions.len() == self.recovers.len() {
            self.owner_id = dest;
            self.new_owner = None;
            let depth = self.tree.depth();
            self.tree = MerkleTree::new(depth, U256::zero());
            self.questions.clear();
            self.recovers.clear();
        }
    }

    /// Consumes one "recovery" proof. The public inputs carry, in order: a
    /// nullifier, the claimed current root, and the destination identity
    /// numeral. A recovery with an empty registry is rejected: the
    /// nullifier set stays bounded by the registry's size. The epoch completes — the destination becomes the owner and
    /// the accumulator, registry and nullifier set reset — exactly when the
    /// consumed nullifiers reach the registry's size.
    #[verifier::rlimit(100)]
    #[verifier::spinoff_prover]
    pub fn recover(&mut self, prf: CircomProof, public_input: String) -> (r: Result<(), Error>)
        requires
            old(self).wf(),
        ensures
            final(self).wf(),
            r is Err ==> Self::same_state(*final(self), *old(self)),
            r == Err::<(), Error>(Error::StateConflict) <==> old(self).questions@.len() == 0,
            r is Ok <==> ({
                &&& old(self).questions@.len() > 0
                &&& spec_parsed_string_list(public_input@) matches Some(v)
                &&& v.len() >= 3
                &&& spec_owner_decode(v[2]) matches Some(owner)
                &&& (old(self).new_owner matches Some(cur) ==> cur@ == owner)
                &&& !spec_contains_str(old(self).recovers@, v[0])
                &&& is_dec_digits(v[1]) && dec_value(v[1]) < pow256()
                &&& old(self).spec_root_claim_value(v[1])
                &&& old(self).spec_verify_accepts(prf, v, "recover"@)
                &&& spec_groth16_verdict(old(self).recover_verification_key, prf, v) == Some(true)
            }),
            r == Err::<(), Error>(Error::CryptographicVerification) <==> ({
                &&& old(self).questions@.len() > 0
                &&& spec_parsed_string_list(public_input@) matches Some(v)
                &&& v.len() >= 3
                &&& spec_owner_decode(v[2]) matches Some(owner)
                &&& (old(self).new_owner matches Some(cur) ==> cur@ == owner)
                &&& !spec_contains_str(old(self).recovers@, v[0])
                &&& is_dec_digits(v[1]) && dec_value(v[1]) < pow256()
                &&& old(self).spec_root_claim_value(v[1])
                &&& old(self).spec_verify_accepts(prf, v, "recover"@)
                &&& spec_groth16_verdict(old(self).recover_verification_key, prf, v) == Some(
                    false,
                )
            }),
            old(self).questions@.len() > 0 && spec_parsed_string_list(public_input@) is None
                ==> r == Err::<(), Error>(Error::Format),
            old(self).questions@.len() > 0 ==> (spec_parsed_string_list(public_input@)
                matches Some(v) ==> {
                &&& (v.len() < 3 || spec_owner_decode(v[2]) is None) ==> r == Err::<(), Error>(
                    Error::Format,
                )
                &&& v.len() >= 3 ==> (spec_owner_decode(v[2]) matches Some(owner) ==> {
                    &&& (r == Err::<(), Error>(Error::Conflict) <==> (old(self).new_owner
                        matches Some(cur) && cur@ != owner))
                    &&& (old(self).new_owner matches Some(cur) ==> cur@ == owner) ==> {
                        &&& (r == Err::<(), Error>(Error::Replay) <==> spec_contains_str(
                            old(self).recovers@,
                            v[0],
                        ))
                        &&& !spec_contains_str(old(self).recovers@, v[0]) ==> {
                            &&& !(is_dec_digits(v[1]) && dec_value(v[1]) < pow256()) ==> r
                                == Err::<(), Error>(Error::Format)
                            &&& (r == Err::<(), Error>(Error::StaleProof) <==> (is_dec_digits(
                                v[1],
                            ) && dec_value(v[1]) < pow256() && !old(self).spec_root_claim_value(
                                v[1],
                            )))
                            &&& r is Ok ==> {
                                &&& final(self).update_verification_key
                                    == old(self).update_verification_key
                                &&& final(self).recover_verification_key
                                    == old(self).recover_verification_key
                                &&& if old(self).questions@.len() == old(self).recovers@.len()
                                    + 1 {
                                    // Epoch completion: adopt the destination, reset
                                    // the accumulator, clear registry and nullifiers.
                                    &&& final(self).owner_id@ == owner
                                    &&& final(self).new_owner is None
                                    &&& final(self).recovers@.len() == 0
                                    &&& final(self).questions@.len() == 0
                                    &&& final(self).tree.depth == old(self).tree.depth
                                    &&& final(self).tree.is_all_default(
                                        (U256 { w0: 0, w1: 0, w2: 0, w3: 0 }),
                                    )
                                } else {
                                    // Partial progress: one more nullifier, the
                                    // destination pending, everything else untouched.
                                    &&& final(self).owner_id == old(self).owner_id
                                    &&& (final(self).new_owner matches Some(p) && p@ == owner)
                                    &&& final(self).recovers@.len() == old(self).recovers@.len()
                                        + 1
                                    &&& final(self).recovers@[old(self).recovers@.len() as int]@
                                        == v[0]
                                    &&& forall|k: int|
                                        0 <= k < old(self).recovers@.len()
                                            ==> final(self).recovers@[k] == old(self).recovers@[k]
                                    &&& final(self).questions == old(self).questions
                                    &&& final(self).tree == old(self).tree
                                }
                            }
                        }
                    }
                })
            }),
    {
        if self.questions.len() == 0 {
            return Err(Error::StateConflict);
        }
        let v = match parse_string_list(public_input.as_str()) {
            Some(v) => v,
            None => {
                return Err(Error::Format);
            },
        };
        if v.len() < 3 {
            return Err(Error::Format);
        }
        proof {
            reveal_strlit("update");
            reveal_strlit("recover");
            assert("update"@.len() != "recover"@.len());
            assert(v.deep_view().len() == v@.len());
            assert(v.deep_view()[0] == (v@[0])@);
            assert(v.deep_view()[1] == (v@[1])@);
            assert(v.deep_view()[2] == (v@[2])@);
        }
        let dest = match self.check_recovery(&prf, &v) {
            Ok(d) => d,
            Err(e) => {
                return Err(e);
            },
        };
        // Record the consumed nullifier and the pending destination;
        // complete the epoch when the registry is fully answered.
        let nullifier = v[0].clone();
        self.apply_recovery(nullifier, dest);
        Ok(())
    }

    /// The registered question texts, in leaf order.
    pub fn get_questions(&self) -> (r: Vec<String>)
        ensures
            r@ == self.questions@,
    {
        clone_strings(&self.questions)
    }

    /// The nullifiers consumed in the current epoch, in consumption order.
    pub fn get_recovers(&self) -> (r: Vec<String>)
        ensures
            r@ == self.recovers@,
    {
        clone_strings(&self.recovers)
    }

    /// The current owner identity.
    pub fn get_owner(&self) -> (r: String)
        ensures
            r == self.owner_id,
    {
        self.owner_id.clone()
    }

    /// The inclusion proof for a registered question: the live root, the
    /// path direction bits and the sibling hashes, all as decimal strings;
    /// absent for an unknown question or a tree without a proof (depth 1 or
    /// less).
    pub fn get_proof_path(&self, question: String) -> (r: Option<
        (String, Vec<String>, Vec<String>),
    >)
        requires
            self.wf(),
        ensures
            r is Some <==> (spec_first_match(self.questions@, question@) >= 0 && self.tree.depth
                > 1),
            r matches Some(t) ==> {
                let idx = spec_first_match(self.questions@, question@);
                let path = self.tree.spec_sibling_path(self.tree.spec_num_internal() + idx);
                &&& t.0@ == dec_rep(self.tree.spec_root().value())
                &&& t.1@.len() == path.len()
                &&& t.2@.len() == path.len()
                &&& path.len() + 1 == self.tree.depth
                &&& forall|k: int|
                    0 <= k < path.len() ==> (#[trigger] t.1@[k])@ == spec_direction_bit(path[k])
                        && t.2@[k]@ == dec_rep(spec_sibling_of(path[k]).value())
            },
    {
        let idx = match find_question(&self.questions, &question) {
            Some(i) => i,
            None => {
                return None;
            },
        };
        if self.tree.depth() <= 1 {
            return None;
        }
        proof {
            vstd::arithmetic::power2::lemma_pow2_pos((self.tree.depth - 1) as nat);
        }
        let prf = match self.tree.inclusion_proof(idx) {
            Some(p) => p,
            None => {
                proof {
                    assert(false);
                }
                return None;
            },
        };
        let n = prf.0.len();
        let mut dirs: Vec<String> = Vec::new();
        let mut sibs: Vec<String> = Vec::new();
        let mut k: usize = 0;
        proof {
            reveal_strlit("0");
            reveal_strlit("1");
        }
        while k < n
            invariant
                k <= n,
                n == prf.0@.len(),
                dirs@.len() == k,
                sibs@.len() == k,
                "0"@ == seq!['0'],
                "1"@ == seq!['1'],
                forall|t: int|
                    0 <= t < k ==> (#[trigger] dirs@[t])@ == spec_direction_bit(prf.0@[t])
                        && sibs@[t]@ == dec_rep(spec_sibling_of(prf.0@[t]).value()),
            decreases n - k,
        {
            match &prf.0[k] {
                Branch::Left(s) => {
                    dirs.push(String::from_str("0"));
                    sibs.push(s.to_dec_string());
                },
                Branch::Right(s) => {
                    dirs.push(String::from_str("1"));
                    sibs.push(s.to_dec_string());
                },
            }
            k = k + 1;
        }
        let root_s = self.tree.root().to_dec_string();
        Some((root_s, dirs, sibs))
    }
}

/// "0" for a left branch (the sibling is on the right), "1" for a right
/// branch.
pub open spec fn spec_direction_bit<H: Hasher<Hash = U256>>(b: Branch<H>) -> Seq<char> {
    match b {
        Branch::Left(_) => seq!['0'],
        Branch::Right(_) => seq!['1'],
    }
}

/// The sibling hash a branch carries.
pub open spec fn spec_sibling_of<H: Hasher<Hash = U256>>(b: Branch<H>) -> U256 {
    match b {
        Branch::Left(s) => s,
        Branch::Right(s) => s,
    }
}

/// Update locality: the root path of leaf `leaf` holds exactly `depth`
/// array slots, and `set`'s contract leaves every slot off that path
/// unchanged — a point update touches `depth` nodes and no others.
pub proof fn lemma_update_locality<H: Hasher>(t: MerkleTree<H>, leaf: int)
    requires
        t.wf(),
        0 <= leaf < t.spec_num_leaves(),
    ensures
        crate::merkle_tree::root_path(t.spec_num_internal() + leaf).len() == t.depth,
        forall|j: int|
            #[trigger] on_path(j, t.spec_num_internal() + leaf) <==> crate::merkle_tree::root_path(
                t.spec_num_internal() + leaf,
            ).contains(j),
{
    let pos = t.spec_num_internal() + leaf;
    vstd::arithmetic::power2::lemma_pow2_pos((t.depth - 1) as nat);
    crate::merkle_tree::lemma_level_in_range((t.depth - 1) as nat, pos);
    crate::merkle_tree::lemma_root_path_len(pos);
    assert forall|j: int|
        #[trigger] on_path(j, pos) <==> crate::merkle_tree::root_path(pos).contains(j) by {
        crate::merkle_tree::lemma_on_path_is_root_path(j, pos);
    }
}

/// Destination agreement: once a recovery is pending toward one identity,
/// the pending slot names that identity and no other, so `recover`'s
/// contract rejects any later proof in the epoch that decodes to a
/// different destination with `Conflict`.
pub proof fn lemma_destination_pinned<H: Hasher<Hash = U256>>(
    post: Contract<H>,
    owner: Seq<char>,
    other: Seq<char>,
)
    requires
        post.new_owner matches Some(p) && p@ == owner,
        other != owner,
    ensures
        post.new_owner matches Some(p) && p@ != other,
{
}

/// No double spend of nullifiers: a successful, non-completing recovery
/// that consumed nullifier `n` leaves `n` registered for the rest of the
/// epoch, and `recover`'s contract rejects a registered nullifier with
/// `Replay`.
pub proof fn lemma_nullifier_consumed<H: Hasher<Hash = U256>>(
    pre: Contract<H>,
    post: Contract<H>,
    n: Seq<char>,
)
    requires
        post.recovers@.len() == pre.recovers@.len() + 1,
        post.recovers@[pre.recovers@.len() as int]@ == n,
    ensures
        spec_contains_str(post.recovers@, n),
{
    assert((post.recovers@[pre.recovers@.len() as int])@ == n);
}

} // verus!
