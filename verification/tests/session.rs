use banking_stage_sidecar::session::{assemble, tls_material, transport, SessionError, Transport};

fn some(text: &str) -> Option<String> {
    Some(text.to_string())
}

#[test]
fn material_is_decoded_from_base64() {
    let m = tls_material(some("aGVsbG8="), some("AAEC/w=="), some("secret")).ok().unwrap();
    assert_eq!(m.ca_pem, b"hello".to_vec());
    assert_eq!(m.client_pks, vec![0u8, 1, 2, 255]);
    assert_eq!(m.client_pks_password, "secret");
}

#[test]
fn empty_text_decodes_to_no_bytes() {
    let m = tls_material(some(""), some(""), some("")).ok().unwrap();
    assert!(m.ca_pem.is_empty());
    assert!(m.client_pks.is_empty());
}

#[test]
fn missing_settings_are_reported_in_order() {
    assert_eq!(tls_material(None, None, None).err(), Some(SessionError::CaPemMissing));
    assert_eq!(tls_material(some("?"), None, None).err(), Some(SessionError::ClientPksMissing));
    assert_eq!(
        tls_material(some("?"), some("?"), None).err(),
        Some(SessionError::ClientPksPassMissing)
    );
}

#[test]
fn undecodable_settings_are_reported_in_order() {
    assert_eq!(
        tls_material(some("not base64!"), some("also not"), some("p")).err(),
        Some(SessionError::CaPemDecode)
    );
    assert_eq!(
        tls_material(some("aGVsbG8="), some("aGVsbG8"), some("p")).err(),
        Some(SessionError::ClientPksDecode)
    );
}

#[test]
fn assemble_reports_the_certificate_first() {
    assert_eq!(assemble(None, None, "p".to_string()).err(), Some(SessionError::CaPemDecode));
    assert_eq!(
        assemble(Some(vec![1]), None, "p".to_string()).err(),
        Some(SessionError::ClientPksDecode)
    );
    let m = assemble(Some(vec![1]), Some(vec![2, 3]), "p".to_string()).ok().unwrap();
    assert_eq!((m.ca_pem, m.client_pks, m.client_pks_password), (vec![1], vec![2, 3], "p".to_string()));
}

#[test]
fn plain_transport_needs_no_settings() {
    assert!(matches!(transport(true, None, None, None), Ok(Transport::Plain)));
    assert!(matches!(transport(true, some("junk!"), None, None), Ok(Transport::Plain)));
}

#[test]
fn tls_transport_needs_all_settings() {
    assert!(matches!(transport(false, None, None, None), Err(SessionError::CaPemMissing)));
    match transport(false, some("aGVsbG8="), some("d29ybGQ="), some("pw")) {
        Ok(Transport::Tls(m)) => {
            assert_eq!(m.ca_pem, b"hello".to_vec());
            assert_eq!(m.client_pks, b"world".to_vec());
            assert_eq!(m.client_pks_password, "pw");
        }
        _ => panic!("expected TLS material"),
    }
}
