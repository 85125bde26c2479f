use workd::runtime::containers::{
    blob_url, component_dirs, container_layers, decode_container_file, encode_container_file,
    manifest_url, new_inodes, server_url, ContainerFileError, ExistingPaths, FilesystemUsage,
};
use workd::runtime::names::Name;

const COMPONENT: &str = "1234567890abcdef0f9ed8c7654b32a1:some.Service@1.0.0";

#[test]
fn container_file_round_trip() {
    let bytes = encode_container_file(&[1, 2, 3], &[9, 8]);
    assert_eq!(bytes, vec![3, 0, 0, 0, 0, 0, 0, 0, 1, 2, 3, 9, 8]);
    assert_eq!(decode_container_file(&bytes).unwrap(), (vec![1, 2, 3], vec![9, 8]));
    assert_eq!(decode_container_file(&bytes[..5]), Err(ContainerFileError::NoLength));
    assert_eq!(decode_container_file(&bytes[..10]), Err(ContainerFileError::ShortComponent));
    assert_eq!(
        ContainerFileError::ShortComponent.message(),
        "Failed reading component from container file"
    );
}

#[test]
fn inode_and_byte_accounting() {
    let none = ExistingPaths {
        domain: false,
        server: false,
        component: false,
        container: false,
        image_spec: false,
    };
    assert_eq!(new_inodes(none), (3, 1, 1));
    assert_eq!(new_inodes(ExistingPaths { domain: true, ..none }), (2, 1, 1));
    assert_eq!(new_inodes(ExistingPaths { domain: true, server: true, ..none }), (1, 1, 1));
    let all = ExistingPaths {
        domain: true,
        server: true,
        component: true,
        container: true,
        image_spec: false,
    };
    assert_eq!(new_inodes(all), (0, 0, 1));

    let mut usage = FilesystemUsage { bytes: 100, inodes: 10 };
    usage.add_pull((3, 1, 1), 1000, 20, 5);
    assert_eq!(usage, FilesystemUsage { bytes: 1133, inodes: 15 });
    usage.subtract_removal(1028, 5, 3);
    assert_eq!(usage, FilesystemUsage { bytes: 100, inodes: 10 });
}

#[test]
fn store_paths_and_urls() {
    let name = Name::parse(COMPONENT).component().unwrap();
    assert_eq!(
        component_dirs(&name),
        vec![
            "1234567890abcdef0f9ed8c7654b32a1".to_string(),
            "some.Service".to_string(),
            "1.0.0".to_string()
        ]
    );
    let insecure = vec!["localhost:5000".to_string()];
    let url = server_url("localhost:5000", &insecure, &name);
    assert_eq!(url, "http://localhost:5000/v2/1234567890abcdef0f9ed8c7654b32a1/some.Service");
    let secure = server_url("ghcr.io", &insecure, &name);
    assert_eq!(secure, "https://ghcr.io/v2/1234567890abcdef0f9ed8c7654b32a1/some.Service");
    assert_eq!(manifest_url(&secure, &name), format!("{secure}/manifests/1.0.0"));
    assert_eq!(blob_url(&secure, "sha256:ab"), format!("{secure}/blobs/sha256:ab"));
    let layers = vec!["a".to_string(), "b".to_string()];
    assert_eq!(container_layers(&layers).map(|(x, y)| (x.as_str(), y.as_str())), Some(("a", "b")));
    assert!(container_layers(&vec!["a".to_string()]).is_none());
}
