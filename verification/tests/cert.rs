use web_video_catcher::cert::{ca_needs_generation, generate_ca};

#[test]
fn ca_is_made_only_when_missing() {
    assert!(ca_needs_generation(false));
    assert!(!ca_needs_generation(true));
}

#[test]
fn generated_ca_has_pem_and_der() {
    let (pem, der) = generate_ca().unwrap();
    assert!(pem.starts_with("-----BEGIN CERTIFICATE-----"));
    assert!(!der.is_empty());
    let (pem2, _) = generate_ca().unwrap();
    assert_ne!(pem, pem2);
}
