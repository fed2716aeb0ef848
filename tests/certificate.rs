use cert_monitor::{CertError, SimpleCertificate, UtcInstant};
use std::time::{SystemTime, UNIX_EPOCH};

const GITEA: &str = "MIIBZjCCAQygAwIBAgISBLpmrI93fX2qc+ic6rU7R/WuMAoGCCqGSM49BAMCMBwxGjAYBgNVBAMMEWdpdGVhLnRzY2hpcmt5LmNoMB4XDTI0MTIyMDAwMDAwMFoXDTI1MDMxOTE2MzAwMFowHDEaMBgGA1UEAwwRZ2l0ZWEudHNjaGlya3kuY2gwWTATBgcqhkjOPQIBBggqhkjOPQMBBwNCAARXJpIgHxYKzsgLgoICVqU+lXYsMlwnYCPWUNDpy753qq4zs3nV4mYX7LaAB5o47EXG1JA3DVGoqTcTV7I2n8NAoy4wLDAcBgNVHREEFTATghFnaXRlYS50c2NoaXJreS5jaDAMBgNVHRMBAf8EAjAAMAoGCCqGSM49BAMCA0gAMEUCIQCV5YJllZcaujDFBsISBXC+b7uMcLdelAa/PjwzScjrLgIgFLldTXJcLTt/O5fUMwMNKEZw89eSiMFhcwN8rx5AXdE=";
const GATEKEEPER: &str = "MIIBezCCASGgAwIBAgICA6EwCgYIKoZIzj0EAwIwITEfMB0GA1UEAwwWZ2F0ZWtlZXBlci50c2NoaXJreS5jaDAeFw0yNDEyMjAwMDAwMDBaFw0yNTAzMTkxNjMwMDBaMCExHzAdBgNVBAMMFmdhdGVrZWVwZXIudHNjaGlya3kuY2gwWTATBgcqhkjOPQIBBggqhkjOPQMBBwNCAARXJpIgHxYKzsgLgoICVqU+lXYsMlwnYCPWUNDpy753qq4zs3nV4mYX7LaAB5o47EXG1JA3DVGoqTcTV7I2n8NAo0kwRzA3BgNVHREEMDAughZnYXRla2VlcGVyLnRzY2hpcmt5LmNoghRvd25jbG91ZC50c2NoaXJreS5jaDAMBgNVHRMBAf8EAjAAMAoGCCqGSM49BAMCA0gAMEUCIQDNoWEGxhdD9TwcN/srfTdjE9pd9HuY5VV2+BWMXAYiwgIgEj+XyXLa72slb8rVNBen4ruONa5qEHU0zFJtDauWEMg=";
const WWW: &str = "MIIBTjCB9qADAgECAgILFzAKBggqhkjOPQQDAjAaMRgwFgYDVQQDDA93d3cudHNjaGlya3kuY2gwHhcNMjQxMjIwMDAwMDAwWhcNMjUwMzE5MTYzMDAwWjAaMRgwFgYDVQQDDA93d3cudHNjaGlya3kuY2gwWTATBgcqhkjOPQIBBggqhkjOPQMBBwNCAARXJpIgHxYKzsgLgoICVqU+lXYsMlwnYCPWUNDpy753qq4zs3nV4mYX7LaAB5o47EXG1JA3DVGoqTcTV7I2n8NAoywwKjAaBgNVHREEEzARgg93d3cudHNjaGlya3kuY2gwDAYDVR0TAQH/BAIwADAKBggqhkjOPQQDAgNHADBEAiAeNc4egibtIFxFPEqEJBi/62DmhhjyjrfcoM5XlIMq4gIgWEDink0KadwS2814W2W5g9oMTuTjGjDwbrujZjeTD1c=";
const EX_GITEA: &str = "MIIBUTCB+KADAgECAgERMAoGCCqGSM49BAMCMBsxGTAXBgNVBAMMEGdpdGVhLmV4YW1wbGUuY2gwHhcNMjQxMjIwMDAwMDAwWhcNMjUwMzE5MTYzMDAwWjAbMRkwFwYDVQQDDBBnaXRlYS5leGFtcGxlLmNoMFkwEwYHKoZIzj0CAQYIKoZIzj0DAQcDQgAEVyaSIB8WCs7IC4KCAlalPpV2LDJcJ2Aj1lDQ6cu+d6quM7N51eJmF+y2gAeaOOxFxtSQNw1RqKk3E1eyNp/DQKMtMCswGwYDVR0RBBQwEoIQZ2l0ZWEuZXhhbXBsZS5jaDAMBgNVHRMBAf8EAjAAMAoGCCqGSM49BAMCA0gAMEUCIQD0XXrWKaevym7yz9IjQmvbOaVAaFacSsQOhn3+RaMiNAIgMsCK57YgQrRmvJrjCQHopXG9B4wnjyyRG3k0DNDSGNg=";
const EX_GATEKEEPER: &str = "MIIBdzCCARygAwIBAgIBEjAKBggqhkjOPQQDAjAgMR4wHAYDVQQDDBVnYXRla2VlcGVyLmV4YW1wbGUuY2gwHhcNMjQxMjIwMDAwMDAwWhcNMjUwMzE5MTYzMDAwWjAgMR4wHAYDVQQDDBVnYXRla2VlcGVyLmV4YW1wbGUuY2gwWTATBgcqhkjOPQIBBggqhkjOPQMBBwNCAARXJpIgHxYKzsgLgoICVqU+lXYsMlwnYCPWUNDpy753qq4zs3nV4mYX7LaAB5o47EXG1JA3DVGoqTcTV7I2n8NAo0cwRTA1BgNVHREELjAsghVnYXRla2VlcGVyLmV4YW1wbGUuY2iCE293bmNsb3VkLmV4YW1wbGUuY2gwDAYDVR0TAQH/BAIwADAKBggqhkjOPQQDAgNJADBGAiEAuPKXZQSrowszUpYUdB45lgQ9x36OX/eyf73KjRYieWoCIQDxMLU11bEUcsY7MX0oMrqWfsljr2Jmkl7ApKmJNjx+kg==";
const EX_WWW: &str = "MIIBTDCB8qADAgECAgETMAoGCCqGSM49BAMCMBkxFzAVBgNVBAMMDnd3dy5leGFtcGxlLmNoMB4XDTI0MTIyMDAwMDAwMFoXDTI1MDMxOTE2MzAwMFowGTEXMBUGA1UEAwwOd3d3LmV4YW1wbGUuY2gwWTATBgcqhkjOPQIBBggqhkjOPQMBBwNCAARXJpIgHxYKzsgLgoICVqU+lXYsMlwnYCPWUNDpy753qq4zs3nV4mYX7LaAB5o47EXG1JA3DVGoqTcTV7I2n8NAoyswKTAZBgNVHREEEjAQgg53d3cuZXhhbXBsZS5jaDAMBgNVHRMBAf8EAjAAMAoGCCqGSM49BAMCA0kAMEYCIQD991tZi2H6LYVM1daPQrQfHOZL/L3sXycDjmD0M85DlwIhAKXl42RMS0wJJ0ANC5xn40W63mNBuruomnhW4vf8/B9B";
const MIXED_CA: &str = "MIIBfTCCASSgAwIBAgICfwEwCgYIKoZIzj0EAwIwHzEOMAwGA1UEAwwFbXVsdGkxDTALBgNVBAMMBG5hbWUwHhcNMjQxMjIwMDAwMDAwWhcNMzAwMTAxMDAwMDAwWjAfMQ4wDAYDVQQDDAVtdWx0aTENMAsGA1UEAwwEbmFtZTBZMBMGByqGSM49AgEGCCqGSM49AwEHA0IABFcmkiAfFgrOyAuCggJWpT6VdiwyXCdgI9ZQ0OnLvneqrjOzedXiZhfstoAHmjjsRcbUkDcNUaipNxNXsjafw0CjUDBOMDsGA1UdEQQ0MDKCDGEuZXhhbXBsZS5jaIcECgAAAYEOb3BzQGV4YW1wbGUuY2iCDGIuZXhhbXBsZS5jaDAPBgNVHRMBAf8EBTADAQH/MAoGCCqGSM49BAMCA0cAMEQCIDZtw3XdSwzFccJ8njVs4Vw7A6dAa6bh9F3n/DJZpArNAiBEyRkkRJwpLBvht7tOQ04xfY/nCetnaPeJlWCZRAe8OA==";
const NO_NAMES: &str = "MIH+MIGloAMCAQICASAwCgYIKoZIzj0EAwIwADAeFw0yNDEyMjAwMDAwMDBaFw0yNTAzMTkxNjMwMDBaMAAwWTATBgcqhkjOPQIBBggqhkjOPQMBBwNCAARXJpIgHxYKzsgLgoICVqU+lXYsMlwnYCPWUNDpy753qq4zs3nV4mYX7LaAB5o47EXG1JA3DVGoqTcTV7I2n8NAoxAwDjAMBgNVHRMBAf8EAjAAMAoGCCqGSM49BAMCA0gAMEUCIAIu9LfANw3/M1RI+M9OSgG3kXQukivV342usT6/nDHiAiEAtmNzsxejuZMPp/Wz1eBSu1aI6X/6MEgsW1WO7skp//s=";

fn der(b64: &str) -> Vec<u8> {
    data_encoding::BASE64.decode(b64.as_bytes()).unwrap()
}

fn chain() -> Vec<Vec<u8>> {
    vec![der(GITEA), der(GATEKEEPER), der(WWW)]
}

// Whole days since 2025-02-10 05:30:00 +01:00, rounded.
fn test_day_offset() -> i64 {
    let now = SystemTime::now().duration_since(UNIX_EPOCH).unwrap().as_secs_f64();
    let date_zero = 1_739_161_800.0_f64;
    ((now - date_zero) / (3600.0 * 24.0)).round() as i64
}

#[test]
fn test_cert_load() {
    let der_cert = der(GITEA);
    let cert = SimpleCertificate::from_certificate_der(&der_cert);
    if let Ok(c) = cert {
        assert_eq!(c.get_common_name(), "gitea.tschirky.ch");
        assert_eq!(c.get_serial_number(), "04ba66ac8f777d7daa73e89ceab53b47f5ae");
        assert_eq!(c.get_san_dns_names(), &["gitea.tschirky.ch"]);

        assert_eq!(c.get_remaining_days(), 38 - test_day_offset());
    } else {
        assert!(false);
    }
}

#[test]
fn test_get_common_name_ok_1() {
    let certs = chain();
    let cert = SimpleCertificate::find_matching_certificate("owncloud.tschirky.ch", Some(&certs));
    assert!(cert.is_some());
    let cert = cert.unwrap();
    assert_eq!(cert.get_common_name(), "gatekeeper.tschirky.ch");
    assert_eq!(cert.get_san_dns_names(), &["gatekeeper.tschirky.ch", "owncloud.tschirky.ch"]);
}

#[test]
fn test_get_common_name_ok_2() {
    let certs = chain();
    let cert = SimpleCertificate::find_matching_certificate("gitea.tschirky.ch", Some(&certs));
    assert!(cert.is_some());
    let cert = cert.unwrap();
    assert_eq!(cert.get_common_name(), "gitea.tschirky.ch");
    assert_eq!(cert.get_san_dns_names(), &["gitea.tschirky.ch"]);
}

#[test]
fn test_get_common_name_nok_1() {
    let certs = chain();
    let cert = SimpleCertificate::find_matching_certificate("mirko.tschirky.ch", Some(&certs));
    assert!(cert.is_none());
}

#[test]
fn test_write_to_pem() {
    let gitea = SimpleCertificate::from_certificate_der(&der(GITEA)).unwrap();
    println!("{}", gitea.get_pem());
    assert!(gitea.get_pem().starts_with("-----BEGIN CERTIFICATE-----\n"));
}

#[test]
fn compare_pem() {
    let mut pem = "-----BEGIN CERTIFICATE-----\n".to_string();
    let mut b64 = data_encoding::BASE64.encode(&der(GITEA));
    while let Some((line, remaining)) = b64.split_at_checked(65) {
        pem.push_str(line);
        if !remaining.is_empty() {
            b64 = remaining.to_string();
            pem.push('\n');
        } else {
            b64 = String::new();
        }
    }
    if !b64.is_empty() {
        pem.push_str(&b64);
    }
    pem.push_str("\n-----END CERTIFICATE-----\n");
    println!("{}", pem);
    let gitea = SimpleCertificate::from_certificate_der(&der(GITEA)).unwrap();
    assert_eq!(gitea.get_pem(), pem);
}

#[test]
fn example_chain_owncloud_gives_gatekeeper_record() {
    let certs = vec![der(EX_GITEA), der(EX_GATEKEEPER), der(EX_WWW)];
    let cert = SimpleCertificate::find_matching_certificate("owncloud.example.ch", Some(&certs)).unwrap();
    assert_eq!(cert.get_common_name(), "gatekeeper.example.ch");
    assert_eq!(cert.get_san_dns_names(), &["gatekeeper.example.ch", "owncloud.example.ch"]);
}

#[test]
fn unknown_host_has_no_match() {
    let certs = vec![der(EX_GITEA), der(EX_GATEKEEPER), der(EX_WWW)];
    assert!(SimpleCertificate::find_matching_certificate("mail.example.ch", Some(&certs)).is_none());
}

#[test]
fn empty_or_absent_chain_has_no_match() {
    let empty: Vec<Vec<u8>> = Vec::new();
    assert!(SimpleCertificate::find_matching_certificate("gitea.tschirky.ch", Some(&empty)).is_none());
    assert!(SimpleCertificate::find_matching_certificate("gitea.tschirky.ch", None).is_none());
}

#[test]
fn matching_is_case_sensitive() {
    let certs = chain();
    assert!(SimpleCertificate::find_matching_certificate("Gitea.tschirky.ch", Some(&certs)).is_none());
    assert!(SimpleCertificate::find_matching_certificate("OWNCLOUD.TSCHIRKY.CH", Some(&certs)).is_none());
    assert!(SimpleCertificate::find_matching_certificate("*.tschirky.ch", Some(&certs)).is_none());
}

#[test]
fn last_matching_entry_wins() {
    let certs = vec![der(GITEA), der(WWW), der(GITEA)];
    let only_first = vec![der(GITEA), der(WWW)];
    let a = SimpleCertificate::find_matching_certificate("gitea.tschirky.ch", Some(&certs)).unwrap();
    let b = SimpleCertificate::find_matching_certificate("gitea.tschirky.ch", Some(&only_first)).unwrap();
    assert_eq!(a.get_pem(), b.get_pem());
    let mixed = vec![der(EX_WWW), der(WWW)];
    let w = SimpleCertificate::find_matching_certificate("www.tschirky.ch", Some(&mixed)).unwrap();
    assert_eq!(w.get_common_name(), "www.tschirky.ch");
}

#[test]
fn malformed_entries_are_skipped() {
    let mut broken = der(GATEKEEPER);
    broken.truncate(40);
    let certs = vec![vec![0x30, 0x03, 0x02], der(GITEA), broken];
    let c = SimpleCertificate::find_matching_certificate("gitea.tschirky.ch", Some(&certs)).unwrap();
    assert_eq!(c.get_common_name(), "gitea.tschirky.ch");
    assert!(SimpleCertificate::find_matching_certificate("owncloud.tschirky.ch", Some(&certs)).is_none());
}

#[test]
fn truncated_bytes_are_invalid_format() {
    let mut bytes = der(GITEA);
    bytes.truncate(bytes.len() / 2);
    match SimpleCertificate::from_certificate_der(&bytes) {
        Err(CertError::InvalidFormat(msg)) => assert!(!msg.is_empty()),
        _ => panic!("expected InvalidFormat"),
    }
}

#[test]
fn garbage_and_empty_bytes_are_invalid_format() {
    for bytes in [vec![], vec![0xff, 0x00, 0x12], b"not a certificate".to_vec()] {
        match SimpleCertificate::from_certificate_der(&bytes) {
            Err(CertError::InvalidFormat(msg)) => assert!(!msg.is_empty()),
            _ => panic!("expected InvalidFormat"),
        }
    }
}

#[test]
fn decodes_all_fields() {
    let c = SimpleCertificate::from_certificate_der(&der(MIXED_CA)).unwrap();
    assert_eq!(c.get_common_name(), "multiname");
    assert_eq!(c.get_serial_number(), "7f01");
    assert_eq!(c.get_san_dns_names(), &["a.example.ch", "b.example.ch"]);
    assert!(c.is_ca());
    assert_eq!(c.get_expiration_date(), UtcInstant { seconds: 1_893_456_000, nanos: 0 });
    let g = SimpleCertificate::from_certificate_der(&der(GITEA)).unwrap();
    assert!(!g.is_ca());
    assert_eq!(g.get_expiration_date(), UtcInstant { seconds: 1_742_401_800, nanos: 0 });
}

#[test]
fn certificate_without_names() {
    let c = SimpleCertificate::from_certificate_der(&der(NO_NAMES)).unwrap();
    assert_eq!(c.get_common_name(), "");
    assert!(c.get_san_dns_names().is_empty());
    assert_eq!(c.get_serial_number(), "20");
    let certs = vec![der(NO_NAMES)];
    assert!(SimpleCertificate::find_matching_certificate("", Some(&certs)).is_some());
    assert!(SimpleCertificate::find_matching_certificate("x", Some(&certs)).is_none());
}

#[test]
fn remaining_days_at_given_instants() {
    let c = SimpleCertificate::from_certificate_der(&der(GITEA)).unwrap();
    let exp = c.get_expiration_date().seconds;
    let at = |seconds: i64, nanos: u32| c.remaining_days_at(UtcInstant { seconds, nanos });
    assert_eq!(at(exp - 10 * 86_400, 0), 10);
    assert_eq!(at(exp - 86_400 - 1, 0), 1);
    assert_eq!(at(exp - 86_400, 0), 1);
    assert_eq!(at(exp - 86_399, 999_999_999), 0);
    assert_eq!(at(exp, 0), 0);
    assert_eq!(at(exp, 1), 0);
    assert_eq!(at(exp + 43_200, 0), 0);
    assert_eq!(at(exp + 86_400, 0), -1);
    assert_eq!(at(exp + 86_400 * 5 + 7, 0), -5);
}

#[test]
fn remaining_days_decrease_as_time_advances() {
    let c = SimpleCertificate::from_certificate_der(&der(GITEA)).unwrap();
    let exp = c.get_expiration_date().seconds;
    let mut last = i64::MAX;
    let mut t = exp - 40 * 86_400;
    while t < exp + 40 * 86_400 {
        let d = c.remaining_days_at(UtcInstant { seconds: t, nanos: 0 });
        assert!(d <= last);
        assert_eq!(d < 0, t >= exp + 86_400);
        last = d;
        t += 3_607;
    }
}

#[test]
fn remaining_days_at_extremes() {
    let far = UtcInstant { seconds: i64::MAX, nanos: u32::MAX };
    let early = UtcInstant { seconds: i64::MIN, nanos: 0 };
    assert_eq!(cert_monitor::remaining_whole_days(far, early), 213_503_982_334_601);
    assert_eq!(cert_monitor::remaining_whole_days(early, far), -213_503_982_334_601);
}
