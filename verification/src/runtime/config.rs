//! The work node's settings: each option is taken from the command line first, the
//! configuration file second, and its default third.

use vstd::prelude::*;

verus! {

/// The options of the work node, as given on the command line or in the configuration file.
pub struct WorkdOptions {
    /// Path to the configuration file.
    pub config: Option<String>,
    /// Path to the Unix-domain socket on which to listen for CRI requests from Kubelet.
    pub incoming: Option<String>,
    /// Path to the Unix-domain socket to which requests for OCI pods and images go.
    pub downstream: Option<String>,
    /// Root filesystem path under which pulled images are saved.
    pub image_store: Option<String>,
    /// Container registries to pull from over HTTP rather than HTTPS.
    pub insecure_registries: Vec<String>,
    /// Path to a CNI plugin to handle IPAM.
    pub ipam_plugin: Option<String>,
    /// Name of the network interface for data plane traffic.
    pub network_interface: Option<String>,
    /// Exclusive subnet for the IP addresses of the pods on this node.
    pub pod_ips: Option<String>,
}

/// The settings the work node runs with.
pub struct WorkdSettings {
    pub incoming: String,
    pub downstream: String,
    pub image_store: String,
    /// Each registry once.
    pub insecure_registries: Vec<String>,
    pub ipam_plugin: String,
    pub network_interface: String,
    pub pod_ips: String,
}

/// An option: from the command line, else from the file, else the default.
pub open spec fn chosen(cli: Option<String>, file: Option<String>, default: Seq<char>) -> Seq<char> {
    match cli {
        Some(s) => s@,
        None => match file {
            Some(s) => s@,
            None => default,
        },
    }
}

fn choose_option(cli: Option<String>, file: Option<String>, default: &str) -> (s: String)
    ensures
        s@ == chosen(cli, file, default@),
{
    match cli {
        Some(s) => s,
        None => match file {
            Some(s) => s,
            None => default.to_owned(),
        },
    }
}

/// The texts of a list of strings.
pub open spec fn texts(v: Seq<String>) -> Seq<Seq<char>> {
    v.map_values(|s: String| s@)
}

/// Whether `v` holds a string with the text `t`.
fn holds(v: &Vec<String>, t: &String) -> (r: bool)
    ensures
        r == texts(v@).contains(t@),
{
    let mut i: usize = 0;
    while i < v.len()
        invariant
            i <= v@.len(),
            forall|j: int| 0 <= j < i ==> v@[j]@ != t@,
        decreases v@.len() - i,
    {
        if v[i] == *t {
            assert(texts(v@)[i as int] == t@);
            return true;
        }
        i = i + 1;
    }
    proof {
        if texts(v@).contains(t@) {
            let j = choose|j: int| 0 <= j < texts(v@).len() && texts(v@)[j] == t@;
            assert(v@[j]@ == t@);
        }
    }
    false
}

/// Add to `out` the strings of `more` it does not hold yet.
fn add_new(out: &mut Vec<String>, more: Vec<String>)
    requires
        texts(old(out)@).no_duplicates(),
    ensures
        texts(final(out)@).no_duplicates(),
        texts(final(out)@).to_set() == texts(old(out)@).to_set() + texts(more@).to_set(),
{
    let ghost start = texts(out@);
    let mut i: usize = 0;
    while i < more.len()
        invariant
            i <= more@.len(),
            texts(out@).no_duplicates(),
            texts(out@).to_set() == start.to_set() + texts(more@.take(i as int)).to_set(),
        decreases more@.len() - i,
    {
        let s = &more[i];
        let ghost before = texts(out@);
        proof {
            before.lemma_push_to_set_commute(s@);
            texts(more@.take(i as int)).lemma_push_to_set_commute(s@);
        }
        if !holds(out, s) {
            out.push(s.clone());
            assert(texts(out@) =~= before.push(s@));
        } else {
            assert(before.to_set().contains(s@));
        }
        assert(texts(more@.take(i + 1)) =~= texts(more@.take(i as int)).push(s@));
        assert(texts(out@).to_set() =~= start.to_set() + texts(more@.take(i + 1)).to_set());
        i = i + 1;
    }
    assert(more@.take(more@.len() as int) =~= more@);
}

/// The settings given the command-line options and the file's: each option from the
/// command line first, the file second, and its default third; the insecure registries of
/// both, each once.
pub fn resolve_settings(cli: WorkdOptions, file: WorkdOptions) -> (s: WorkdSettings)
    ensures
        s.incoming@ == chosen(cli.incoming, file.incoming, "/run/vimana/workd.sock"@),
        s.downstream@ == chosen(cli.downstream, file.downstream, "/run/containerd/containerd.sock"@),
        s.image_store@ == chosen(cli.image_store, file.image_store, "/var/lib/vimana/images"@),
        s.ipam_plugin@ == chosen(cli.ipam_plugin, file.ipam_plugin, "/opt/cni/bin/host-local"@),
        s.network_interface@ == chosen(cli.network_interface, file.network_interface, "eth0"@),
        s.pod_ips@ == chosen(cli.pod_ips, file.pod_ips, "10.1.0.0/16"@),
        texts(s.insecure_registries@).no_duplicates(),
        texts(s.insecure_registries@).to_set() == texts(cli.insecure_registries@).to_set() + texts(
            file.insecure_registries@,
        ).to_set(),
{
    let mut insecure_registries: Vec<String> = Vec::new();
    assert(texts(insecure_registries@).to_set() =~= Set::<Seq<char>>::empty());
    add_new(&mut insecure_registries, cli.insecure_registries);
    add_new(&mut insecure_registries, file.insecure_registries);
    WorkdSettings {
        incoming: choose_option(cli.incoming, file.incoming, "/run/vimana/workd.sock"),
        downstream: choose_option(cli.downstream, file.downstream, "/run/containerd/containerd.sock"),
        image_store: choose_option(cli.image_store, file.image_store, "/var/lib/vimana/images"),
        insecure_registries,
        ipam_plugin: choose_option(cli.ipam_plugin, file.ipam_plugin, "/opt/cni/bin/host-local"),
        network_interface: choose_option(cli.network_interface, file.network_interface, "eth0"),
        pod_ips: choose_option(cli.pod_ips, file.pod_ips, "10.1.0.0/16"),
    }
}

} // verus!
