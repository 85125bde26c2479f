use workd::runtime::config::{resolve_settings, WorkdOptions};

fn options() -> WorkdOptions {
    WorkdOptions {
        config: None,
        incoming: None,
        downstream: None,
        image_store: None,
        insecure_registries: Vec::new(),
        ipam_plugin: None,
        network_interface: None,
        pod_ips: None,
    }
}

#[test]
fn command_line_then_file_then_default() {
    let cli = WorkdOptions {
        incoming: Some("/tmp/cli.sock".to_string()),
        insecure_registries: vec!["a:5000".to_string(), "b:5000".to_string()],
        ..options()
    };
    let file = WorkdOptions {
        incoming: Some("/tmp/file.sock".to_string()),
        pod_ips: Some("10.2.0.0/16".to_string()),
        insecure_registries: vec!["b:5000".to_string(), "c:5000".to_string()],
        ..options()
    };
    let s = resolve_settings(cli, file);
    assert_eq!(s.incoming, "/tmp/cli.sock");
    assert_eq!(s.pod_ips, "10.2.0.0/16");
    assert_eq!(s.downstream, "/run/containerd/containerd.sock");
    assert_eq!(s.image_store, "/var/lib/vimana/images");
    assert_eq!(s.ipam_plugin, "/opt/cni/bin/host-local");
    assert_eq!(s.network_interface, "eth0");
    assert_eq!(s.insecure_registries, vec!["a:5000", "b:5000", "c:5000"]);
}
