use amcl_wrapper::field_elem::FieldElement;
use amcl_wrapper::group_elem::GroupElement;
use ps_sig::keys::{keygen, keygen_2018, Params};
use ps_sig::multi_signature::{AggregatedVerkeyFast, MultiSignatureFast};
use ps_sig::signature::Signature;
use ps_sig::signature_2018::Signature as Signature18;
use ps_sig::SignatureGroup;

#[test]
fn test_multi_signature_all_known_messages() {
    let params = Params::new("test".as_bytes());
    for i in 0..10 {
        let count_msgs = (i % 5) + 1;
        let (sk_1, vk_1) = keygen(count_msgs, &params);
        let (sk_2, vk_2) = keygen(count_msgs, &params);
        let (sk_3, vk_3) = keygen(count_msgs, &params);

        let msgs = (0..count_msgs)
            .map(|_| FieldElement::random())
            .collect::<Vec<FieldElement>>();

        let sig_1 = Signature::new_deterministic(msgs.as_slice(), &sk_1).unwrap();
        let sig_2 = Signature::new_deterministic(msgs.as_slice(), &sk_2).unwrap();
        let sig_3 = Signature::new_deterministic(msgs.as_slice(), &sk_3).unwrap();

        let multi_sig = MultiSignatureFast::from_sigs(vec![&sig_1, &sig_2, &sig_3]).unwrap();

        assert!(
            MultiSignatureFast::verify(&multi_sig, msgs, vec![&vk_1, &vk_2, &vk_3], &params)
                .unwrap()
        )
    }
}

#[test]
fn test_multi_signature_2018_all_known_messages() {
    let params = Params::new("test".as_bytes());
    for i in 0..10 {
        let count_msgs = (i % 5) + 1;
        let (sk_1, vk_1) = keygen_2018(count_msgs, &params);
        let (sk_2, vk_2) = keygen_2018(count_msgs, &params);
        let (sk_3, vk_3) = keygen_2018(count_msgs, &params);

        let msgs = (0..count_msgs)
            .map(|_| FieldElement::random())
            .collect::<Vec<FieldElement>>();

        let sig_1 = Signature18::new_deterministic(msgs.as_slice(), &sk_1).unwrap();
        let sig_2 = Signature18::new_deterministic(msgs.as_slice(), &sk_2).unwrap();
        let sig_3 = Signature18::new_deterministic(msgs.as_slice(), &sk_3).unwrap();

        let multi_sig = MultiSignatureFast::from_sigs_2018(vec![&sig_1, &sig_2, &sig_3]).unwrap();

        assert!(MultiSignatureFast::verify_2018(
            &multi_sig,
            msgs,
            vec![&vk_1, &vk_2, &vk_3],
            &params
        )
        .unwrap())
    }
}

#[test]
fn aggregating_signatures_with_different_sigma_1_is_rejected() {
    let params = Params::new("test".as_bytes());
    let (sk_1, _) = keygen(2, &params);
    let (sk_2, _) = keygen(2, &params);
    let msgs = (0..2)
        .map(|_| FieldElement::random())
        .collect::<Vec<FieldElement>>();
    // randomized signing gives each signer its own sigma_1
    let sig_1 = Signature::new(msgs.as_slice(), &sk_1, &params).unwrap();
    let sig_2 = Signature::new(msgs.as_slice(), &sk_2, &params).unwrap();
    let r = MultiSignatureFast::from_sigs(vec![&sig_1, &sig_2]);
    assert!(matches!(
        r,
        Err(ps_sig::errors::PSError::IncompatibleSigsForAggregation)
    ));
}

#[test]
fn aggregating_verkeys_of_different_lengths_is_rejected() {
    let params = Params::new("test".as_bytes());
    let (_, vk_1) = keygen(2, &params);
    let (_, vk_2) = keygen(3, &params);
    let r = AggregatedVerkeyFast::from_verkeys(vec![&vk_1, &vk_2]);
    assert!(matches!(
        r,
        Err(ps_sig::errors::PSError::IncompatibleVerkeysForAggregation)
    ));
}

#[test]
fn aggregating_nothing_is_an_error() {
    let r = AggregatedVerkeyFast::from_verkeys(vec![]);
    assert!(matches!(
        r,
        Err(ps_sig::errors::PSError::GeneralError { .. })
    ));
    let r = MultiSignatureFast::from_sigs(vec![]);
    assert!(matches!(
        r,
        Err(ps_sig::errors::PSError::GeneralError { .. })
    ));
}

#[test]
fn aggregate_verify_propagates_aggregation_errors() {
    let params = Params::new("test".as_bytes());
    let (sk_1, vk_1) = keygen(2, &params);
    let (_, vk_2) = keygen(3, &params);
    let msgs = (0..2)
        .map(|_| FieldElement::random())
        .collect::<Vec<FieldElement>>();
    let sig = Signature::new_deterministic(msgs.as_slice(), &sk_1).unwrap();
    // differing key lengths surface as the aggregation error
    let r = MultiSignatureFast::verify(&sig, msgs.clone(), vec![&vk_1, &vk_2], &params);
    assert!(matches!(
        r,
        Err(ps_sig::errors::PSError::IncompatibleVerkeysForAggregation)
    ));
    // a wrong message count surfaces as the verification error
    let r = MultiSignatureFast::verify(&sig, msgs[..1].to_vec(), vec![&vk_1], &params);
    assert!(matches!(
        r,
        Err(ps_sig::errors::PSError::UnsupportedNoOfMessages {
            expected: 2,
            given: 1
        })
    ));
}

#[test]
fn three_signers_aggregate_and_verify() {
    let params = Params::new("test".as_bytes());
    let msgs = vec![FieldElement::from(7u64), FieldElement::from(11u64)];
    let (sk_1, vk_1) = keygen(2, &params);
    let (sk_2, vk_2) = keygen(2, &params);
    let (sk_3, vk_3) = keygen(2, &params);
    let sig_1 = Signature::new_deterministic(msgs.as_slice(), &sk_1).unwrap();
    let sig_2 = Signature::new_deterministic(msgs.as_slice(), &sk_2).unwrap();
    let sig_3 = Signature::new_deterministic(msgs.as_slice(), &sk_3).unwrap();
    let multi_sig = MultiSignatureFast::from_sigs(vec![&sig_1, &sig_2, &sig_3]).unwrap();
    assert!(
        MultiSignatureFast::verify(&multi_sig, msgs, vec![&vk_1, &vk_2, &vk_3], &params).unwrap()
    );
}

#[test]
fn corrupted_signer_makes_the_aggregate_fail() {
    let params = Params::new("test".as_bytes());
    let msgs = vec![FieldElement::from(7u64), FieldElement::from(11u64)];
    let (sk_1, vk_1) = keygen(2, &params);
    let (sk_2, vk_2) = keygen(2, &params);
    let (sk_3, vk_3) = keygen(2, &params);
    let sig_1 = Signature::new_deterministic(msgs.as_slice(), &sk_1).unwrap();
    let sig_2 = Signature::new_deterministic(msgs.as_slice(), &sk_2).unwrap();
    let sig_3 = Signature::new_deterministic(msgs.as_slice(), &sk_3).unwrap();
    // corrupt the second signer's sigma_2 by adding the group generator
    let corrupted = Signature {
        sigma_1: sig_2.sigma_1.clone(),
        sigma_2: sig_2.sigma_2.clone() + SignatureGroup::generator(),
    };
    let multi_sig = MultiSignatureFast::from_sigs(vec![&sig_1, &corrupted, &sig_3]).unwrap();
    assert!(
        !MultiSignatureFast::verify(&multi_sig, msgs, vec![&vk_1, &vk_2, &vk_3], &params).unwrap()
    );
}
