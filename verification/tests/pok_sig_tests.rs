#![allow(non_snake_case)]

use amcl_wrapper::field_elem::{FieldElement, FieldElementVector};
use ps_sig::keys::{keygen_2018, Params};
use ps_sig::pok_sig_2018::PoKOfSignature;
use ps_sig::signature_2018::Signature;
use ps_sig::pok_vc::ProverCommitting;
use ps_sig::VerkeyGroup;
use amcl_wrapper::group_elem::GroupElement;
use std::collections::{HashMap, HashSet};

#[test]
fn test_PoK_sig() {
    let count_msgs = 5;
    let params = Params::new("test".as_bytes());
    let (sk, vk) = keygen_2018(count_msgs, &params);

    let msgs = (0..count_msgs)
        .map(|_| FieldElement::random())
        .collect::<Vec<FieldElement>>();
    let sig = Signature::new(msgs.as_slice(), &sk).unwrap();
    assert!(sig.verify(msgs.clone(), &vk, &params).unwrap());

    let pok = PoKOfSignature::init(&sig, &vk, &params, msgs.clone(), None, HashSet::new()).unwrap();

    let chal_prover = FieldElement::from_msg_hash(&pok.to_bytes());

    let proof = pok.gen_proof(&chal_prover).unwrap();

    // The verifier generates the challenge on its own.
    let chal_bytes = proof.get_bytes_for_challenge(HashSet::new(), &vk, &params);
    let chal_verifier = FieldElement::from_msg_hash(&chal_bytes);

    assert!(proof.verify(&vk, &params, HashMap::new(), &chal_verifier).unwrap());

    // PoK with supplied blindings
    let blindings = FieldElementVector::random(count_msgs);
    let pok_1 = PoKOfSignature::init(
        &sig,
        &vk,
        &params,
        msgs,
        Some(blindings.as_slice()),
        HashSet::new(),
    )
    .unwrap();
    let chal_prover = FieldElement::from_msg_hash(&pok_1.to_bytes());
    let proof_1 = pok_1.gen_proof(&chal_prover).unwrap();

    // The verifier generates the challenge on its own.
    let chal_bytes = proof_1.get_bytes_for_challenge(HashSet::new(), &vk, &params);
    let chal_verifier = FieldElement::from_msg_hash(&chal_bytes);
    assert!(proof_1
        .verify(&vk, &params, HashMap::new(), &chal_verifier)
        .unwrap());
}

#[test]
fn test_PoK_sig_reveal_messages() {
    let count_msgs = 10;
    let params = Params::new("test".as_bytes());
    let (sk, vk) = keygen_2018(count_msgs, &params);

    let msgs = (0..count_msgs)
        .map(|_| FieldElement::random())
        .collect::<Vec<FieldElement>>();

    let sig = Signature::new(msgs.as_slice(), &sk).unwrap();
    assert!(sig.verify(msgs.clone(), &vk, &params).unwrap());

    let mut revealed_msg_indices = HashSet::new();
    revealed_msg_indices.insert(2);
    revealed_msg_indices.insert(4);
    revealed_msg_indices.insert(9);

    let pok = PoKOfSignature::init(
        &sig,
        &vk,
        &params,
        msgs.clone(),
        None,
        revealed_msg_indices.clone(),
    )
    .unwrap();

    let chal_prover = FieldElement::from_msg_hash(&pok.to_bytes());

    let proof = pok.gen_proof(&chal_prover).unwrap();

    let mut revealed_msgs = HashMap::new();
    for i in &revealed_msg_indices {
        revealed_msgs.insert(i.clone(), msgs[*i].clone());
    }
    // The verifier generates the challenge on its own.
    let chal_bytes = proof.get_bytes_for_challenge(revealed_msg_indices.clone(), &vk, &params);
    let chal_verifier = FieldElement::from_msg_hash(&chal_bytes);
    assert!(proof
        .verify(&vk, &params, revealed_msgs.clone(), &chal_verifier)
        .unwrap());

    // Reveal wrong message
    let mut revealed_msgs_1 = revealed_msgs.clone();
    revealed_msgs_1.insert(2, FieldElement::random());
    assert!(!proof
        .verify(&vk, &params, revealed_msgs_1.clone(), &chal_verifier)
        .unwrap());
}

#[test]
fn prover_and_verifier_transcripts_are_byte_equal() {
    let count_msgs = 6;
    let params = Params::new("test".as_bytes());
    let (sk, vk) = keygen_2018(count_msgs, &params);
    let msgs = (0..count_msgs)
        .map(|_| FieldElement::random())
        .collect::<Vec<FieldElement>>();
    let sig = Signature::new(msgs.as_slice(), &sk).unwrap();

    let mut revealed = HashSet::new();
    revealed.insert(1);
    revealed.insert(3);

    let pok =
        PoKOfSignature::init(&sig, &vk, &params, msgs.clone(), None, revealed.clone()).unwrap();
    let prover_bytes = pok.to_bytes();
    let chal = FieldElement::from_msg_hash(&prover_bytes);
    let proof = pok.gen_proof(&chal).unwrap();
    let verifier_bytes = proof.get_bytes_for_challenge(revealed, &vk, &params);
    assert_eq!(prover_bytes, verifier_bytes);
}

#[test]
fn two_proofs_on_the_same_messages_differ() {
    let count_msgs = 4;
    let params = Params::new("test".as_bytes());
    let (sk, vk) = keygen_2018(count_msgs, &params);
    let msgs = (0..count_msgs)
        .map(|_| FieldElement::random())
        .collect::<Vec<FieldElement>>();
    let sig = Signature::new(msgs.as_slice(), &sk).unwrap();

    let pok_a =
        PoKOfSignature::init(&sig, &vk, &params, msgs.clone(), None, HashSet::new()).unwrap();
    let pok_b = PoKOfSignature::init(&sig, &vk, &params, msgs, None, HashSet::new()).unwrap();
    // fresh randomness: the randomized signatures and commitments differ
    assert_ne!(pok_a.to_bytes(), pok_b.to_bytes());
}

#[test]
fn revealing_the_m_prime_slot_is_an_error() {
    let count_msgs = 5;
    let params = Params::new("test".as_bytes());
    let (sk, vk) = keygen_2018(count_msgs, &params);
    let msgs = (0..count_msgs)
        .map(|_| FieldElement::random())
        .collect::<Vec<FieldElement>>();
    let sig = Signature::new(msgs.as_slice(), &sk).unwrap();
    assert!(sig.verify(msgs.clone(), &vk, &params).unwrap());

    // the slot after the user messages carries m_prime and cannot be revealed
    let mut revealed = HashSet::new();
    revealed.insert(count_msgs);
    let r = PoKOfSignature::init(&sig, &vk, &params, msgs, None, revealed);
    assert!(matches!(
        r,
        Err(ps_sig::errors::PSError::GeneralError { .. })
    ));
}

#[test]
fn mismatched_response_count_is_an_error() {
    let mut committing = ProverCommitting::new();
    committing.commit(&VerkeyGroup::generator(), None);
    committing.commit(&VerkeyGroup::random(), None);
    let committed = committing.finish();
    let secrets = vec![FieldElement::random()];
    let r = committed.gen_proof(&FieldElement::random(), secrets.as_slice());
    assert!(matches!(
        r,
        Err(ps_sig::errors::PSError::UnequalNoOfBasesExponents {
            bases: 2,
            exponents: 1
        })
    ));
}
