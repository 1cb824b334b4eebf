use amcl_wrapper::field_elem::FieldElement;
use amcl_wrapper::group_elem::GroupElement;
use ps_sig::keys::{keygen, keygen_2018, Params};
use ps_sig::signature::Signature;
use ps_sig::signature_2018::Signature as Signature18;
use ps_sig::SignatureGroup;

#[test]
fn deterministic_signature_on_small_messages_verifies() {
    let params = Params::new("test".as_bytes());
    let msgs = vec![
        FieldElement::from(1u64),
        FieldElement::from(2u64),
        FieldElement::from(3u64),
    ];
    let (sk, vk) = keygen(3, &params);
    let sig = Signature::new_deterministic(msgs.as_slice(), &sk).unwrap();
    assert!(sig.verify(msgs, &vk, &params).unwrap());
}

#[test]
fn changed_message_fails_verification_without_an_error() {
    let params = Params::new("test".as_bytes());
    let msgs = vec![
        FieldElement::from(1u64),
        FieldElement::from(2u64),
        FieldElement::from(3u64),
    ];
    let (sk, vk) = keygen(3, &params);
    let sig = Signature::new_deterministic(msgs.as_slice(), &sk).unwrap();
    let tampered = vec![
        FieldElement::from(1u64),
        FieldElement::from(2u64),
        FieldElement::from(4u64),
    ];
    assert!(!sig.verify(tampered, &vk, &params).unwrap());
}

#[test]
fn tampered_signature_components_fail_verification() {
    let params = Params::new("test".as_bytes());
    let (sk, vk) = keygen(2, &params);
    let msgs = (0..2)
        .map(|_| FieldElement::random())
        .collect::<Vec<FieldElement>>();
    let sig = Signature::new(msgs.as_slice(), &sk, &params).unwrap();
    assert!(sig.verify(msgs.clone(), &vk, &params).unwrap());
    let bad_sigma_1 = Signature {
        sigma_1: sig.sigma_1.clone() + SignatureGroup::generator(),
        sigma_2: sig.sigma_2.clone(),
    };
    assert!(!bad_sigma_1.verify(msgs.clone(), &vk, &params).unwrap());
    let bad_sigma_2 = Signature {
        sigma_1: sig.sigma_1.clone(),
        sigma_2: sig.sigma_2.clone() + SignatureGroup::generator(),
    };
    assert!(!bad_sigma_2.verify(msgs, &vk, &params).unwrap());
}

#[test]
fn identity_components_fail_verification_without_an_error() {
    let params = Params::new("test".as_bytes());
    let (sk, vk) = keygen(2, &params);
    let msgs = (0..2)
        .map(|_| FieldElement::random())
        .collect::<Vec<FieldElement>>();
    let sig = Signature::new(msgs.as_slice(), &sk, &params).unwrap();
    let degenerate = Signature {
        sigma_1: SignatureGroup::identity(),
        sigma_2: sig.sigma_2.clone(),
    };
    assert!(!degenerate.verify(msgs, &vk, &params).unwrap());
}

#[test]
fn scheme_2018_signature_survives_its_own_round_trip_checks() {
    let params = Params::new("test".as_bytes());
    let (sk, vk) = keygen_2018(5, &params);
    let msgs = (0..5)
        .map(|_| FieldElement::random())
        .collect::<Vec<FieldElement>>();
    let sig = Signature18::new(msgs.as_slice(), &sk).unwrap();
    assert!(sig.verify(msgs.clone(), &vk, &params).unwrap());
    let tampered: Vec<FieldElement> = msgs
        .iter()
        .enumerate()
        .map(|(i, m)| {
            if i == 0 {
                m + FieldElement::one()
            } else {
                m.clone()
            }
        })
        .collect();
    assert!(!sig.verify(tampered, &vk, &params).unwrap());
}

#[test]
fn params_are_deterministic_in_the_label() {
    let a = Params::new("test".as_bytes());
    let b = Params::new("test".as_bytes());
    let c = Params::new("other".as_bytes());
    assert_eq!(a.g.to_bytes(false), b.g.to_bytes(false));
    assert_eq!(a.g_tilde.to_bytes(false), b.g_tilde.to_bytes(false));
    assert_ne!(a.g.to_bytes(false), c.g.to_bytes(false));
}
