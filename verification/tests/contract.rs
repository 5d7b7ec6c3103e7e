use zk_recovery::groth16::{CircomProof, CircomVerificationKey};
use zk_recovery::merkle_tree::{MerkleTree, MixHasher};
use zk_recovery::u256::U256;
use zk_recovery::{Contract, Error};

fn g1_zero() -> Vec<String> {
    vec!["0".to_string(), "0".to_string(), "0".to_string()]
}

fn g2_zero() -> Vec<Vec<String>> {
    vec![
        vec!["0".to_string(), "0".to_string()],
        vec!["0".to_string(), "0".to_string()],
        vec!["0".to_string(), "0".to_string()],
    ]
}

/// A degenerate verifying key whose group elements are all the identity:
/// the pairing product collapses to 1 == 1, so any proof document made of
/// identity points verifies against any inputs of the right arity.
fn permissive_vk(n_public: u64) -> CircomVerificationKey {
    CircomVerificationKey {
        protocol: "groth16".to_string(),
        curve: "bn128".to_string(),
        n_public,
        vk_alpha_1: g1_zero(),
        vk_beta_2: g2_zero(),
        vk_gamma_2: g2_zero(),
        vk_delta_2: g2_zero(),
        vk_alphabeta_12: Vec::new(),
        ic: (0..=n_public).map(|_| g1_zero()).collect(),
    }
}

fn trivial_proof() -> CircomProof {
    CircomProof {
        pi_a: g1_zero(),
        pi_b: g2_zero(),
        pi_c: g1_zero(),
        protocol: "groth16".to_string(),
        curve: "bn128".to_string(),
    }
}

fn fresh_contract(depth: usize) -> Contract<MixHasher> {
    Contract::new(depth, permissive_vk(4), permissive_vk(3), "alice".to_string())
}

/// The decimal numeral whose big-endian bytes spell `name` (zero padded).
fn owner_numeral(name: &str) -> String {
    let bytes = name.as_bytes();
    assert!(bytes.len() <= 8);
    let mut top = [0u8; 8];
    top[..bytes.len()].copy_from_slice(bytes);
    let v = U256 { w0: 0, w1: 0, w2: 0, w3: u64::from_be_bytes(top) };
    v.to_dec_string()
}

fn root_string(c: &Contract<MixHasher>) -> String {
    c.tree.root().to_dec_string()
}

fn recover_input(nullifier: &str, root: &str, dest: &str) -> String {
    format!("[\"{}\",\"{}\",\"{}\"]", nullifier, root, dest)
}

fn update_input(new_leaf: &str, root: &str, old_q: &str, new_q: &str) -> String {
    format!("[\"{}\",\"{}\",\"{}\",\"{}\"]", new_leaf, root, old_q, new_q)
}

#[test]
fn owner_only_appends_with_capacity_bound() {
    let mut c = fresh_contract(2);
    assert_eq!(
        c.add_security_question("mallory", "q0".to_string(), "101".to_string()),
        Err(Error::Authorization)
    );
    assert_eq!(
        c.add_security_question("alice", "q0".to_string(), "x1".to_string()),
        Err(Error::Format)
    );
    assert_eq!(c.add_security_question("alice", "q0".to_string(), "101".to_string()), Ok(()));
    assert_eq!(c.add_security_question("alice", "q1".to_string(), "102".to_string()), Ok(()));
    // capacity of a depth-2 tree is 2 leaves
    assert_eq!(
        c.add_security_question("alice", "q2".to_string(), "103".to_string()),
        Err(Error::Capacity)
    );
    assert_eq!(c.get_questions(), vec!["q0".to_string(), "q1".to_string()]);
}

#[test]
fn depth_zero_rejects_all_leaf_operations() {
    let mut c = fresh_contract(0);
    assert_eq!(
        c.add_security_question("alice", "q0".to_string(), "101".to_string()),
        Err(Error::Capacity)
    );
    let input = update_input("201", "0", "q0", "q0b");
    assert_eq!(c.update_security_question(trivial_proof(), input), Err(Error::StaleProof));
}

#[test]
fn rotation_rejects_stale_roots_and_unknown_questions() {
    // question identifiers are decimal field elements, as the public-input
    // layout demands
    let mut c = fresh_contract(3);
    c.add_security_question("alice", "701".to_string(), "101".to_string()).unwrap();
    c.add_security_question("alice", "702".to_string(), "102".to_string()).unwrap();
    let r0 = root_string(&c);

    // unknown question
    let bad_q = update_input("201", &r0, "699", "703");
    assert_eq!(c.update_security_question(trivial_proof(), bad_q), Err(Error::NotFound));

    // a successful rotation changes the root
    let ok = update_input("201", &r0, "701", "703");
    assert_eq!(c.update_security_question(trivial_proof(), ok), Ok(()));
    let r1 = root_string(&c);
    assert_ne!(r0, r1);
    assert_eq!(c.get_questions(), vec!["703".to_string(), "702".to_string()]);

    // a proof still bound to the old root is rejected
    let stale = update_input("202", &r0, "702", "704");
    assert_eq!(c.update_security_question(trivial_proof(), stale), Err(Error::StaleProof));
}

#[test]
fn rotation_rejects_malformed_documents() {
    let mut c = fresh_contract(3);
    c.add_security_question("alice", "701".to_string(), "101".to_string()).unwrap();
    let r0 = root_string(&c);
    assert_eq!(
        c.update_security_question(trivial_proof(), "not json".to_string()),
        Err(Error::Format)
    );
    assert_eq!(
        c.update_security_question(trivial_proof(), format!("[\"201\",\"{}\"]", r0)),
        Err(Error::Format)
    );
    // an unparseable replacement commitment
    let bad_leaf = update_input("20x", &r0, "701", "703");
    assert_eq!(c.update_security_question(trivial_proof(), bad_leaf), Err(Error::Format));
}

#[test]
fn unknown_proof_role_is_a_format_error() {
    let c = fresh_contract(2);
    let inputs = vec!["1".to_string(), "2".to_string(), "3".to_string()];
    assert_eq!(c.verify(&trivial_proof(), &inputs, "bogus"), Err(Error::Format));
    // arity mismatch against the key's input slots
    let short = vec!["1".to_string()];
    assert_eq!(c.verify(&trivial_proof(), &short, "recover"), Err(Error::Format));
}

#[test]
fn nullifier_double_spend_is_rejected() {
    let mut c = fresh_contract(3);
    c.add_security_question("alice", "q0".to_string(), "101".to_string()).unwrap();
    c.add_security_question("alice", "q1".to_string(), "102".to_string()).unwrap();
    let dest = owner_numeral("bob");
    let r = root_string(&c);
    assert_eq!(c.recover(trivial_proof(), recover_input("11", &r, &dest)), Ok(()));
    assert_eq!(
        c.recover(trivial_proof(), recover_input("11", &r, &dest)),
        Err(Error::Replay)
    );
    assert_eq!(c.get_recovers(), vec!["11".to_string()]);
    assert_eq!(c.get_owner(), "alice".to_string());
}

#[test]
fn recovery_destinations_must_agree() {
    let mut c = fresh_contract(3);
    c.add_security_question("alice", "q0".to_string(), "101".to_string()).unwrap();
    c.add_security_question("alice", "q1".to_string(), "102".to_string()).unwrap();
    let r = root_string(&c);
    assert_eq!(
        c.recover(trivial_proof(), recover_input("11", &r, &owner_numeral("bob"))),
        Ok(())
    );
    assert_eq!(
        c.recover(trivial_proof(), recover_input("12", &r, &owner_numeral("carol"))),
        Err(Error::Conflict)
    );
    // nothing changed: the same nullifier set, the same owner
    assert_eq!(c.get_recovers(), vec!["11".to_string()]);
    assert_eq!(c.get_owner(), "alice".to_string());
}

#[test]
fn recovery_rejects_stale_roots() {
    let mut c = fresh_contract(3);
    c.add_security_question("alice", "q0".to_string(), "101".to_string()).unwrap();
    let dest = owner_numeral("bob");
    assert_eq!(
        c.recover(trivial_proof(), recover_input("11", "123456", &dest)),
        Err(Error::StaleProof)
    );
    assert_eq!(
        c.recover(trivial_proof(), recover_input("11", "no-root", &dest)),
        Err(Error::Format)
    );
}

#[test]
fn rotation_is_blocked_while_recovery_is_in_progress() {
    let mut c = fresh_contract(3);
    c.add_security_question("alice", "701".to_string(), "101".to_string()).unwrap();
    c.add_security_question("alice", "702".to_string(), "102".to_string()).unwrap();
    let r = root_string(&c);
    c.recover(trivial_proof(), recover_input("11", &r, &owner_numeral("bob"))).unwrap();
    let rot = update_input("201", &r, "701", "703");
    assert_eq!(c.update_security_question(trivial_proof(), rot), Err(Error::StateConflict));
}

#[test]
fn full_recovery_scenario_at_depth_three() {
    // depth 3: capacity 4 leaves; three questions with distinct commitments
    let mut c = fresh_contract(3);
    c.add_security_question("alice", "801".to_string(), "101".to_string()).unwrap();
    c.add_security_question("alice", "802".to_string(), "102".to_string()).unwrap();
    c.add_security_question("alice", "803".to_string(), "103".to_string()).unwrap();
    let r0 = root_string(&c);

    // rotate the second question against the live root
    let rot = update_input("202", &r0, "802", "804");
    assert_eq!(c.update_security_question(trivial_proof(), rot), Ok(()));
    let r1 = root_string(&c);
    assert_ne!(r0, r1);

    // a second rotation still bound to the old root must fail
    let stale = update_input("203", &r0, "801", "805");
    assert_eq!(c.update_security_question(trivial_proof(), stale), Err(Error::StaleProof));

    // recover with three distinct nullifiers and one destination
    let dest = owner_numeral("bob");
    assert_eq!(c.recover(trivial_proof(), recover_input("11", &r1, &dest)), Ok(()));
    assert_eq!(c.recover(trivial_proof(), recover_input("12", &r1, &dest)), Ok(()));
    assert_eq!(c.get_owner(), "alice".to_string());
    assert_eq!(c.get_recovers().len(), 2);

    assert_eq!(c.recover(trivial_proof(), recover_input("13", &r1, &dest)), Ok(()));
    assert_eq!(c.get_owner(), "bob".to_string());
    assert_eq!(c.get_recovers().len(), 0);
    assert_eq!(c.get_questions().len(), 0);
    let fresh: MerkleTree<MixHasher> = MerkleTree::new(3, U256::zero());
    assert_eq!(c.tree.root(), fresh.root());
}

#[test]
fn proof_paths_come_with_direction_bits_and_siblings() {
    let mut c = fresh_contract(3);
    c.add_security_question("alice", "q0".to_string(), "101".to_string()).unwrap();
    c.add_security_question("alice", "q1".to_string(), "102".to_string()).unwrap();
    let (root, dirs, sibs) = c.get_proof_path("q1".to_string()).unwrap();
    assert_eq!(root, root_string(&c));
    assert_eq!(dirs.len(), 2);
    assert_eq!(sibs.len(), 2);
    // leaf 1 is a right child: its first sibling is leaf 0's commitment
    assert_eq!(dirs[0], "1".to_string());
    assert_eq!(sibs[0], "101".to_string());
    assert!(c.get_proof_path("nope".to_string()).is_none());
    // depth 1 has no usable path
    let mut small = fresh_contract(1);
    small.add_security_question("alice", "q0".to_string(), "101".to_string()).unwrap();
    assert!(small.get_proof_path("q0".to_string()).is_none());
}

#[test]
fn cryptographically_invalid_proofs_are_rejected() {
    // a key whose gamma element and input slots are not the identity makes
    // the pairing product differ from 1 for the identity proof
    let mut vk = permissive_vk(3);
    vk.vk_gamma_2 = vec![
        vec!["1".to_string(), "0".to_string()],
        vec!["2".to_string(), "0".to_string()],
        vec!["1".to_string(), "0".to_string()],
    ];
    vk.ic = (0..4)
        .map(|_| vec!["1".to_string(), "2".to_string(), "1".to_string()])
        .collect();
    let mut c: Contract<MixHasher> =
        Contract::new(3, permissive_vk(4), vk, "alice".to_string());
    c.add_security_question("alice", "q0".to_string(), "101".to_string()).unwrap();
    let r = root_string(&c);
    let dest = owner_numeral("bob");
    assert_eq!(
        c.recover(trivial_proof(), recover_input("11", &r, &dest)),
        Err(Error::CryptographicVerification)
    );
    assert_eq!(c.get_recovers().len(), 0);
    assert_eq!(c.get_owner(), "alice".to_string());
}

#[test]
fn invalid_destination_bytes_are_a_format_error() {
    let mut c = fresh_contract(2);
    c.add_security_question("alice", "q0".to_string(), "101".to_string()).unwrap();
    let r = root_string(&c);
    // a destination numeral whose leading byte 0xFF can never start UTF-8
    let v = U256 { w0: 0, w1: 0, w2: 0, w3: 0xFF00_0000_0000_0000 };
    let dest = v.to_dec_string();
    assert_eq!(
        c.recover(trivial_proof(), recover_input("11", &r, &dest)),
        Err(Error::Format)
    );
    assert_eq!(c.get_recovers().len(), 0);
}

#[test]
fn recovery_with_empty_registry_is_rejected() {
    let mut c = fresh_contract(3);
    let dest = owner_numeral("bob");
    assert_eq!(
        c.recover(trivial_proof(), recover_input("11", "0", &dest)),
        Err(Error::StateConflict)
    );
    assert_eq!(c.get_recovers().len(), 0);
    assert_eq!(c.get_owner(), "alice".to_string());
}
