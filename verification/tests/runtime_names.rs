use workd::runtime::names::{DomainUuid, Name};

// Domains are parsed with little-endian order
// so each byte looks inverted when written in typical Arabic notation.
const GOOD_DOMAIN_BYTES: [u8; 16] = [
    0x21, 0x43, 0x65, 0x87, 0x09, 0xBA, 0xDC, 0xFE, 0xF0, 0xE9, 0x8D, 0x7C, 0x56, 0xB4, 0x23, 0x1a,
];
const GOOD_DOMAIN: &str = "1234567890abcdef0f9ed8c7654b32a1";
const GOOD_SERVICE: &str = "abc._._1.Ser_vicE";
const GOOD_VERSION: &str = "10.0.456-pre-release5";
const GOOD_COMPONENT: &str =
    "1234567890abcdef0f9ed8c7654b32a1:abc._._1.Ser_vicE@10.0.456-pre-release5";

#[test]
fn parse_component() {
    let component = Name::parse(GOOD_COMPONENT).component();

    assert!(component.is_ok());
    let component = component.unwrap();
    assert_eq!(component.service.domain, DomainUuid::parse(GOOD_DOMAIN).unwrap());
    assert_eq!(component.service.service, GOOD_SERVICE);
    assert_eq!(component.version, GOOD_VERSION);
    assert_eq!(component.to_string(), GOOD_COMPONENT);
}

#[test]
fn parse_pod_ids_good() {
    let good_pod_ids = vec![
        ("1a2f", 0x1a2fusize),
        ("abcdefff", 0xabcdefff),
        ("0", 0x0),
        ("ffffffffffffffff", 0xffffffffffffffff),
    ];

    for (pod_id_str, pod_id) in good_pod_ids.iter() {
        let name = format!("{GOOD_DOMAIN}:{GOOD_SERVICE}@{GOOD_VERSION}#{pod_id_str}");

        let pod_name = Name::parse(&name).pod();

        assert!(pod_name.is_ok());
        let pod_name = pod_name.unwrap();
        assert_eq!(pod_name.component.service.domain, DomainUuid::parse(GOOD_DOMAIN).unwrap());
        assert_eq!(pod_name.component.service.service, GOOD_SERVICE);
        assert_eq!(pod_name.component.version, GOOD_VERSION);
        assert_eq!(&pod_name.pod, pod_id);
        assert_eq!(pod_name.to_string(), name);
    }
}

#[test]
fn parse_pod_ids_bad() {
    let bad_pod_ids = vec!["abcdefg", "-1", "10000000000000000"];

    for pod_id in bad_pod_ids.iter() {
        let name = format!("{GOOD_DOMAIN}:{GOOD_SERVICE}@{GOOD_VERSION}#{pod_id}");

        let pod_name = Name::parse(&name).pod();

        assert!(pod_name.is_err());
        assert_eq!(pod_name.unwrap_err().message(), "invalid-pod-id");
    }
}

#[test]
fn parse_versions_good() {
    let good_versions = vec!["1.0.0", "1.2.3-pre-release", "1.2.3-0", "1.2.3-123", "1.2.3-00a"];

    for version in good_versions.iter() {
        let name = format!("{GOOD_DOMAIN}:{GOOD_SERVICE}@{version}");

        let component = Name::parse(&name).component();

        assert!(component.is_ok());
        let component = component.unwrap();
        assert_eq!(component.service.domain, DomainUuid::parse(GOOD_DOMAIN).unwrap());
        assert_eq!(component.service.service, GOOD_SERVICE);
        assert_eq!(component.version, *version);
        assert_eq!(component.to_string(), name);
    }
}

#[test]
fn parse_versions_bad() {
    let bad_versions = vec![
        "1.0.00",           // Double zero goes against spec.
        "1.2.3+build",      // Can't handle '+'.
        "1.2.3-ends-dash-", // Can't end with a dash.
        "1.2.3-00",         // Can't have double-zero in the pre-release either.
        // Too long:
        "1234567890.1234567890.1234567890-ABCDEFGHIJKLMNOPQRSTUVWXYZ-abcdefghijklmnopqrstuvwxyz",
    ];

    for version in bad_versions.iter() {
        let name = format!("{GOOD_DOMAIN}:{GOOD_SERVICE}@{version}");
        let component = Name::parse(&name).component();

        assert!(component.is_err());
        assert_eq!(component.unwrap_err().message(), "invalid-version");
    }
}

#[test]
fn parse_services_bad() {
    let bad_services = vec![
        "NoPackage",
        "_package.StartsWithUnderscore",
        "this.service.name.would.be.too.long.due.to.being.over.SixtyThree",
    ];

    for service in bad_services.iter() {
        let name = format!("{GOOD_DOMAIN}:{service}@{GOOD_VERSION}");

        let component = Name::parse(&name).component();

        assert!(component.is_err());
        assert_eq!(component.unwrap_err().message(), "invalid-service-name");
    }
}

#[test]
fn parse_domain_success() {
    let domain_uuid = DomainUuid::parse(GOOD_DOMAIN);

    assert!(domain_uuid.is_ok());
    assert_eq!(&domain_uuid.unwrap().uuid, &GOOD_DOMAIN_BYTES);
}

#[test]
fn format_domain_success() {
    let domain_uuid = DomainUuid::new(&GOOD_DOMAIN_BYTES);

    let domain = domain_uuid.to_string();

    assert_eq!(domain, GOOD_DOMAIN);
}

#[test]
fn parse_domain_short() {
    // 31 characters instead of 32.
    let domain = "1234567890abcdef1234567890abcde";

    let domain_uuid = DomainUuid::parse(domain);

    assert!(domain_uuid.is_err());
    assert_eq!(domain_uuid.unwrap_err().message(), "domain-uuid-too-short");
}

#[test]
fn parse_domain_long() {
    // 33 characters instead of 32.
    let domain = "1234567890abcdef1234567890abcdef1";

    let domain_uuid = DomainUuid::parse(domain);

    assert!(domain_uuid.is_err());
    assert_eq!(domain_uuid.unwrap_err().message(), "domain-uuid-too-long");
}

#[test]
fn parse_domain_caps() {
    // Hexadecimal digits in domain UUIDs must always be lowercase.
    let domain = "1234567890ABCDEF1234567890ABCDEF";

    let domain_uuid = DomainUuid::parse(domain);

    assert!(domain_uuid.is_err());
    assert_eq!(domain_uuid.unwrap_err().message(), "domain-uuid-invalid-characters");
}

#[test]
fn runtime_version_length_limit() {
    let longest = format!("1.0.0-{}", "a".repeat(57));
    let name = format!("{GOOD_DOMAIN}:{GOOD_SERVICE}@{longest}");
    assert_eq!(Name::parse(&name).component().unwrap().version, longest);
    let too_long = format!("1.0.0-{}", "a".repeat(58));
    let name = format!("{GOOD_DOMAIN}:{GOOD_SERVICE}@{too_long}");
    assert_eq!(Name::parse(&name).component().unwrap_err().message(), "invalid-version");
}
