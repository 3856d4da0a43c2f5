use freeix::ca::{
    build_params, create_ca, create_ca_at, is_ascii_domain, issue_leaf, issue_leaf_now, leaf_request, load_ca, root_request,
    validity, CaError, CertUse, KeyUse, LEAF_VALIDITY_DAYS, ROOT_VALIDITY_DAYS,
};

#[test]
fn validity_spans_whole_days() {
    assert_eq!(validity(1_700_000_000, LEAF_VALIDITY_DAYS), Some((1_700_000_000, 1_700_000_000 + 365 * 86400)));
    assert_eq!(validity(0, ROOT_VALIDITY_DAYS), Some((0, 3650 * 86400)));
    assert_eq!(validity(i64::MAX, 1), None);
}

#[test]
fn only_ascii_domains_can_be_named() {
    assert!(is_ascii_domain("ads.example.com"));
    assert!(!is_ascii_domain("bücher.example"));
    assert!(is_ascii_domain(""));
}

#[test]
fn created_ca_reloads_from_its_pem_texts() {
    let ca = create_ca().unwrap();
    assert!(ca.cert_pem.contains("BEGIN CERTIFICATE"));
    assert!(!ca.cert_der.is_empty());
    let again = load_ca(ca.cert_pem.clone(), ca.key_pem.clone()).unwrap();
    assert_eq!(again.cert_pem, ca.cert_pem);
    assert_eq!(again.key_pem, ca.key_pem);
}

#[test]
fn unreadable_pem_is_refused() {
    assert!(matches!(load_ca("not a certificate".to_string(), "not a key".to_string()), Err(CaError::Rcgen(_))));
}

#[test]
fn leaf_for_non_ascii_domain_is_refused_without_panic() {
    let ca = create_ca().unwrap();
    match issue_leaf(&ca, "bücher.example", 1_700_000_000) {
        Err(CaError::InvalidDomain(d)) => assert_eq!(d, "bücher.example"),
        _ => panic!("expected InvalidDomain"),
    }
}

#[test]
fn leaf_for_ascii_domain_is_issued() {
    let ca = create_ca().unwrap();
    let (cert, key) = issue_leaf(&ca, "www.example.com", 1_700_000_000).unwrap();
    assert!(!cert.is_empty());
    assert!(!key.is_empty());
    let (cert2, _) = issue_leaf_now(&ca, "www.example.com").unwrap();
    assert!(!cert2.is_empty());
}

#[test]
fn leaf_with_uncountable_time_is_refused() {
    let ca = create_ca().unwrap();
    assert!(matches!(issue_leaf(&ca, "www.example.com", i64::MAX), Err(CaError::InvalidTime)));
}

#[test]
fn root_request_names_the_freeix_authority() {
    let r = root_request(1_000).unwrap();
    assert_eq!(r.common_name, "FreeIX Root CA");
    assert_eq!(r.organization, Some("FreeIX".to_string()));
    assert_eq!(r.dns_name, None);
    assert_eq!(r.usage, CertUse::Authority);
    assert_eq!(r.key_uses, vec![KeyUse::CertSign, KeyUse::CrlSign]);
    assert_eq!((r.not_before, r.not_after), (1_000, 1_000 + 3650 * 86400));
    assert!(root_request(i64::MAX).is_none());
}

#[test]
fn leaf_request_names_the_domain_for_a_year() {
    let r = leaf_request("www.example.com", 5).unwrap();
    assert_eq!(r.common_name, "www.example.com");
    assert_eq!(r.organization, None);
    assert_eq!(r.dns_name, Some("www.example.com".to_string()));
    assert_eq!(r.usage, CertUse::EndEntity);
    assert!(r.key_uses.is_empty());
    assert_eq!((r.not_before, r.not_after), (5, 5 + 365 * 86400));
}

#[test]
fn non_ascii_dns_name_is_refused_by_rcgen() {
    let r = leaf_request("bücher.example", 5).unwrap();
    assert!(matches!(build_params(&r), Err(CaError::Rcgen(_))));
    let ok = leaf_request("buecher.example", 5).unwrap();
    assert!(build_params(&ok).is_ok());
}

#[test]
fn root_at_a_given_time() {
    assert!(matches!(create_ca_at(i64::MAX), Err(CaError::InvalidTime)));
    let ca = create_ca_at(1_700_000_000).unwrap();
    assert!(ca.cert_pem.contains("BEGIN CERTIFICATE"));
    let last_start = 253402300799 - 3650 * 86400;
    assert!(create_ca_at(last_start).is_ok());
}
