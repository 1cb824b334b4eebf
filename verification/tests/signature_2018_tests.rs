use amcl_wrapper::field_elem::FieldElement;
use ps_sig::keys::{keygen_2018, Params};
use ps_sig::signature_2018::Signature;

#[test]
fn signature_2018_test_signature_all_known_messages() {
    let params = Params::new("test".as_bytes());
    for i in 0..10 {
        let count_msgs = (i % 5) + 1;
        let (sk, vk) = keygen_2018(count_msgs, &params);
        let msgs = (0..count_msgs)
            .map(|_| FieldElement::random())
            .collect::<Vec<FieldElement>>();
        let sig = Signature::new(msgs.as_slice(), &sk).unwrap();
        assert!(sig.verify(msgs, &vk, &params).unwrap());
    }
}

#[test]
fn test_signature_deterministic_m_all_known_messages() {
    let params = Params::new("test".as_bytes());
    for i in 0..10 {
        let count_msgs = (i % 5) + 1;
        let (sk, vk) = keygen_2018(count_msgs, &params);
        let msgs = (0..count_msgs)
            .map(|_| FieldElement::random())
            .collect::<Vec<FieldElement>>();
        let sig = Signature::new_with_deterministic_m(msgs.as_slice(), &sk).unwrap();
        assert!(sig.verify(msgs, &vk, &params).unwrap());
    }
}

#[test]
fn signature_2018_test_deterministic_signature_all_known_messages() {
    let params = Params::new("test".as_bytes());
    for i in 0..10 {
        let count_msgs = (i % 5) + 1;
        let (sk, vk) = keygen_2018(count_msgs, &params);
        let msgs = (0..count_msgs)
            .map(|_| FieldElement::random())
            .collect::<Vec<FieldElement>>();
        let sig = Signature::new_deterministic(msgs.as_slice(), &sk).unwrap();
        assert!(sig.verify(msgs, &vk, &params).unwrap());
    }
}

#[test]
fn deterministic_2018_signature_is_byte_equal_across_invocations() {
    let params = Params::new("test".as_bytes());
    let (sk, vk) = keygen_2018(3, &params);
    let msgs = (0..3)
        .map(|_| FieldElement::random())
        .collect::<Vec<FieldElement>>();
    let sig_a = Signature::new_deterministic(msgs.as_slice(), &sk).unwrap();
    let sig_b = Signature::new_deterministic(msgs.as_slice(), &sk).unwrap();
    assert_eq!(sig_a.to_bytes(), sig_b.to_bytes());
    assert!(sig_a.verify(msgs, &vk, &params).unwrap());
}

#[test]
fn signature_2018_round_trips_through_bytes() {
    let params = Params::new("test".as_bytes());
    let (sk, vk) = keygen_2018(2, &params);
    let msgs = (0..2)
        .map(|_| FieldElement::random())
        .collect::<Vec<FieldElement>>();
    let sig = Signature::new(msgs.as_slice(), &sk).unwrap();
    let bytes = sig.to_bytes();
    assert_eq!(bytes.len(), 242);
    let back = Signature::from_bytes(bytes.as_slice()).unwrap();
    assert_eq!(back.to_bytes(), bytes);
    assert!(back.verify(msgs, &vk, &params).unwrap());
    assert!(Signature::from_bytes(&bytes[..241]).is_err());
}

#[test]
fn verify_2018_with_wrong_message_count_is_an_error() {
    let params = Params::new("test".as_bytes());
    let (sk, vk) = keygen_2018(3, &params);
    let msgs = (0..3)
        .map(|_| FieldElement::random())
        .collect::<Vec<FieldElement>>();
    let sig = Signature::new(msgs.as_slice(), &sk).unwrap();
    let short = msgs[..2].to_vec();
    let r = sig.verify(short, &vk, &params);
    assert!(matches!(
        r,
        Err(ps_sig::errors::PSError::UnsupportedNoOfMessages {
            expected: 4,
            given: 3
        })
    ));
}
