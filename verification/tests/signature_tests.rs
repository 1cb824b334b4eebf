use amcl_wrapper::field_elem::FieldElement;
use ps_sig::keys::{keygen, Params};
use ps_sig::signature::Signature;

#[test]
fn signature_test_signature_all_known_messages() {
    let params = Params::new("test".as_bytes());
    for i in 0..10 {
        let count_msgs = (i % 5) + 1;
        let (sk, vk) = keygen(count_msgs, &params);
        let msgs = (0..count_msgs)
            .map(|_| FieldElement::random())
            .collect::<Vec<FieldElement>>();
        let sig = Signature::new(msgs.as_slice(), &sk, &params).unwrap();
        assert!(sig.verify(msgs, &vk, &params).unwrap());
    }
}

#[test]
fn signature_test_deterministic_signature_all_known_messages() {
    let params = Params::new("test".as_bytes());
    for i in 0..10 {
        let count_msgs = (i % 5) + 1;
        let (sk, vk) = keygen(count_msgs, &params);
        let msgs = (0..count_msgs)
            .map(|_| FieldElement::random())
            .collect::<Vec<FieldElement>>();
        let sig = Signature::new_deterministic(msgs.as_slice(), &sk).unwrap();
        assert!(sig.verify(msgs, &vk, &params).unwrap());
    }
}

#[test]
fn deterministic_signature_is_byte_equal_across_invocations() {
    let params = Params::new("test".as_bytes());
    let (sk, vk) = keygen(4, &params);
    let msgs = (0..4)
        .map(|_| FieldElement::random())
        .collect::<Vec<FieldElement>>();
    let sig_a = Signature::new_deterministic(msgs.as_slice(), &sk).unwrap();
    let sig_b = Signature::new_deterministic(msgs.as_slice(), &sk).unwrap();
    assert_eq!(sig_a.to_bytes(), sig_b.to_bytes());
    assert!(sig_a.verify(msgs, &vk, &params).unwrap());
}

#[test]
fn generated_secrets_are_never_zero() {
    let params = Params::new("test".as_bytes());
    let (sk, _) = keygen(4, &params);
    assert!(!sk.x.is_zero());
    for y in &sk.y {
        assert!(!y.is_zero());
    }
}

#[test]
fn verify_with_wrong_message_count_is_an_error() {
    let params = Params::new("test".as_bytes());
    let (sk, vk) = keygen(3, &params);
    let msgs = (0..3)
        .map(|_| FieldElement::random())
        .collect::<Vec<FieldElement>>();
    let sig = Signature::new(msgs.as_slice(), &sk, &params).unwrap();
    let short = msgs[..2].to_vec();
    let r = sig.verify(short, &vk, &params);
    assert!(matches!(
        r,
        Err(ps_sig::errors::PSError::UnsupportedNoOfMessages {
            expected: 3,
            given: 2
        })
    ));
}

#[test]
fn signing_with_wrong_message_count_is_an_error() {
    let params = Params::new("test".as_bytes());
    let (sk, _vk) = keygen(3, &params);
    let msgs = (0..2)
        .map(|_| FieldElement::random())
        .collect::<Vec<FieldElement>>();
    let r = Signature::new(msgs.as_slice(), &sk, &params);
    assert!(matches!(
        r,
        Err(ps_sig::errors::PSError::UnsupportedNoOfMessages {
            expected: 2,
            given: 3
        })
    ));
}

#[test]
fn signature_round_trips_through_bytes() {
    let params = Params::new("test".as_bytes());
    let (sk, vk) = keygen(2, &params);
    let msgs = (0..2)
        .map(|_| FieldElement::random())
        .collect::<Vec<FieldElement>>();
    let sig = Signature::new(msgs.as_slice(), &sk, &params).unwrap();
    let bytes = sig.to_bytes();
    assert_eq!(bytes.len(), 194);
    let back = Signature::from_bytes(bytes.as_slice()).unwrap();
    assert_eq!(back.to_bytes(), bytes);
    assert!(back.verify(msgs, &vk, &params).unwrap());
    assert!(Signature::from_bytes(&bytes[1..]).is_err());
}

#[test]
fn randomized_signature_still_verifies() {
    let params = Params::new("test".as_bytes());
    let (sk, vk) = keygen(3, &params);
    let msgs = (0..3)
        .map(|_| FieldElement::random())
        .collect::<Vec<FieldElement>>();
    let sig = Signature::new(msgs.as_slice(), &sk, &params).unwrap();
    let r = FieldElement::random();
    let randomized = sig.randomize(&r);
    assert_ne!(randomized.to_bytes(), sig.to_bytes());
    assert!(randomized.verify(msgs.clone(), &vk, &params).unwrap());
    assert!(sig.verify(msgs, &vk, &params).unwrap());
}
