use workd::runtime::ipam::{
    container_id_from_digest, ipam_container_id, parse_prefix_length, split_ipam_address,
};
use workd::runtime::names::Name;

const POD: &str = "1234567890abcdef0f9ed8c7654b32a1:abc._._1.Ser_vicE@10.0.456-pre-release5#1a2f";

#[test]
fn container_id_hashes_the_pod_name() {
    let pod = Name::parse(POD).pod().unwrap();
    // SHA-256 of the pod name is 8f19aba0...; each byte is written low nibble first.
    assert_eq!(
        ipam_container_id(&pod),
        "f891ba0a487a58a4496ed9e087801ea7b994f991aed2b305918719db28929b37"
    );
}

#[test]
fn container_id_of_a_digest() {
    let digest: Vec<u8> = (0u8..32).collect();
    let id = container_id_from_digest(&digest);
    assert_eq!(id.len(), 64);
    assert!(id.starts_with("00102030"));
}

#[test]
fn allocated_addresses_split() {
    let one = vec!["10.0.0.1/8".to_string()];
    assert_eq!(
        split_ipam_address(&one).unwrap(),
        ("10.0.0.1".to_string(), "8".to_string())
    );
    let two = vec!["10.0.0.1/8".to_string(), "10.0.0.2/8".to_string()];
    assert_eq!(split_ipam_address(&two).unwrap_err().message(), "ipam-add-multiple-addresses");
    let bare = vec!["10.0.0.1".to_string()];
    assert_eq!(split_ipam_address(&bare).unwrap_err().message(), "ipam-result-no-subnetmask");
    let extra = vec!["10.0.0.1/8/9".to_string()];
    assert_eq!(split_ipam_address(&extra).unwrap().1, "8");
}

#[test]
fn prefix_lengths_parse_as_u8() {
    assert_eq!(parse_prefix_length("24").unwrap(), 24);
    assert_eq!(parse_prefix_length("+7").unwrap(), 7);
    assert_eq!(parse_prefix_length("0255").unwrap(), 255);
    for bad in ["", "+", "256", "-1", "8a", "99999999999999999999"] {
        assert_eq!(
            parse_prefix_length(bad).unwrap_err().message(),
            "ipam-subnetmask-format",
            "{bad}"
        );
        assert!(bad.parse::<u8>().is_err());
    }
}
