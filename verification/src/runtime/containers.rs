//! The local container store: the layout of its files, the accounting of the space they
//! use, and the registry URLs containers are fetched from.
//!
//! Each component directory, `<root>/<domain>/<server>/<version>/`, holds a file
//! `container` with the pre-compiled component and the container metadata: the length of
//! the component (a little-endian `u64`), the component, then the metadata.

use vstd::bytes::{spec_u64_from_le_bytes, spec_u64_to_le_bytes, u64_from_le_bytes, u64_to_le_bytes};
use vstd::prelude::*;

use crate::runtime::names::{domain_uuid_text, ComponentName, ComponentNameView};

verus! {

/// The bytes of a container file holding a component and its metadata.
pub open spec fn container_file_bytes(component: Seq<u8>, metadata: Seq<u8>) -> Seq<u8> {
    spec_u64_to_le_bytes(component.len() as u64) + component + metadata
}

/// The contents of a container file: the component and the metadata.
pub fn encode_container_file(component: &[u8], metadata: &[u8]) -> (bytes: Vec<u8>)
    requires
        component@.len() <= u64::MAX,
    ensures
        bytes@ == container_file_bytes(component@, metadata@),
{
    let mut bytes = u64_to_le_bytes(component.len() as u64);
    let mut i: usize = 0;
    let ghost head = bytes@;
    while i < component.len()
        invariant
            i <= component@.len(),
            bytes@ == head + component@.take(i as int),
        decreases component@.len() - i,
    {
        bytes.push(component[i]);
        assert(component@.take(i + 1) =~= component@.take(i as int).push(component@[i as int]));
        i = i + 1;
    }
    assert(component@.take(i as int) =~= component@);
    let ghost middle = bytes@;
    let mut j: usize = 0;
    while j < metadata.len()
        invariant
            j <= metadata@.len(),
            bytes@ == middle + metadata@.take(j as int),
        decreases metadata@.len() - j,
    {
        bytes.push(metadata[j]);
        assert(metadata@.take(j + 1) =~= metadata@.take(j as int).push(metadata@[j as int]));
        j = j + 1;
    }
    assert(metadata@.take(j as int) =~= metadata@);
    assert(bytes@ =~= container_file_bytes(component@, metadata@));
    bytes
}

/// Why a container file could not be read.
#[derive(Clone, Copy, Debug, PartialEq, Eq, Structural)]
pub enum ContainerFileError {
    /// The file is too short to hold the component's length.
    NoLength,
    /// The file is too short to hold the component its length announces.
    ShortComponent,
}

impl ContainerFileError {
    /// The error's message.
    pub fn message(&self) -> (s: &'static str)
        ensures
            s@ == (match *self {
                ContainerFileError::NoLength => "Failed reading length from container file"@,
                ContainerFileError::ShortComponent => "Failed reading component from container file"@,
            }),
    {
        match self {
            ContainerFileError::NoLength => "Failed reading length from container file",
            ContainerFileError::ShortComponent => "Failed reading component from container file",
        }
    }
}

/// What reading a container file gives: the component of the announced length after the
/// first eight bytes, and the rest as the metadata.
pub open spec fn container_file_parts(bytes: Seq<u8>) -> Result<
    (Seq<u8>, Seq<u8>),
    ContainerFileError,
> {
    if bytes.len() < 8 {
        Err(ContainerFileError::NoLength)
    } else {
        let n = spec_u64_from_le_bytes(bytes.take(8));
        if bytes.len() - 8 < n {
            Err(ContainerFileError::ShortComponent)
        } else {
            Ok((bytes.subrange(8, 8 + n), bytes.subrange(8 + n, bytes.len() as int)))
        }
    }
}

/// Read a container file: the component and the metadata.
pub fn decode_container_file(bytes: &[u8]) -> (res: Result<(Vec<u8>, Vec<u8>), ContainerFileError>)
    ensures
        match res {
            Ok((c, m)) => container_file_parts(bytes@) == Ok::<
                (Seq<u8>, Seq<u8>),
                ContainerFileError,
            >((c@, m@)),
            Err(e) => container_file_parts(bytes@) == Err::<(Seq<u8>, Seq<u8>), ContainerFileError>(
                e,
            ),
        },
{
    if bytes.len() < 8 {
        return Err(ContainerFileError::NoLength);
    }
    let head = slice_range(bytes, 0, 8);
    assert(head@ =~= bytes@.take(8));
    let n = u64_from_le_bytes(head.as_slice());
    let rest = (bytes.len() - 8) as u64;
    if rest < n {
        return Err(ContainerFileError::ShortComponent);
    }
    let end = 8 + n as usize;
    let component = slice_range(bytes, 8, end);
    let metadata = slice_range(bytes, end, bytes.len());
    Ok((component, metadata))
}

/// The bytes of a slice from `lo` to `hi`.
fn slice_range(bytes: &[u8], lo: usize, hi: usize) -> (r: Vec<u8>)
    requires
        lo <= hi <= bytes@.len(),
    ensures
        r@ == bytes@.subrange(lo as int, hi as int),
{
    let mut r: Vec<u8> = Vec::new();
    let mut i = lo;
    while i < hi
        invariant
            lo <= i <= hi <= bytes@.len(),
            r@ == bytes@.subrange(lo as int, i as int),
        decreases hi - i,
    {
        r.push(bytes[i]);
        assert(bytes@.subrange(lo as int, i + 1) =~= bytes@.subrange(lo as int, i as int).push(
            bytes@[i as int],
        ));
        i = i + 1;
    }
    r
}

/// Reading back a container file gives the component and the metadata it was written
/// with.
pub proof fn lemma_container_file_roundtrip(component: Seq<u8>, metadata: Seq<u8>)
    requires
        component.len() <= u64::MAX,
    ensures
        container_file_parts(container_file_bytes(component, metadata)) == Ok::<
            (Seq<u8>, Seq<u8>),
            ContainerFileError,
        >((component, metadata)),
{
    vstd::bytes::lemma_auto_spec_u64_to_from_le_bytes();
    let bytes = container_file_bytes(component, metadata);
    let len = spec_u64_to_le_bytes(component.len() as u64);
    assert(len.len() == 8);
    assert(bytes.take(8) =~= len);
    let n = component.len() as int;
    assert(bytes.subrange(8, 8 + n) =~= component);
    assert(bytes.subrange(8 + n, bytes.len() as int) =~= metadata);
}

/// The number of bytes and of inodes (files and directories) the store uses.
#[derive(Clone, Copy, Debug, PartialEq, Eq, Structural)]
pub struct FilesystemUsage {
    pub bytes: u64,
    pub inodes: u64,
}

/// Which of the paths of a pull already exist.
#[derive(Clone, Copy, Debug, PartialEq, Eq, Structural)]
pub struct ExistingPaths {
    /// The domain directory.
    pub domain: bool,
    /// The server directory, under the domain's.
    pub server: bool,
    /// The component (version) directory, under the server's.
    pub component: bool,
    /// The container file.
    pub container: bool,
    /// The image spec file.
    pub image_spec: bool,
}

/// How many inodes a pull creates: `(directories, container file, image spec file)`.
/// When the component directory exists, files already there are not new; otherwise the
/// missing directories down from the first that exists are, and both files.
pub open spec fn new_inodes_spec(p: ExistingPaths) -> (u64, u64, u64) {
    if p.component {
        (0, if p.container { 0 } else { 1 }, if p.image_spec { 0 } else { 1 })
    } else if p.server {
        (1, 1, 1)
    } else if p.domain {
        (2, 1, 1)
    } else {
        (3, 1, 1)
    }
}

/// How many inodes a pull creates (see [`new_inodes_spec`]).
pub fn new_inodes(p: ExistingPaths) -> (r: (u64, u64, u64))
    ensures
        r == new_inodes_spec(p),
{
    if p.component {
        (0, if p.container { 0 } else { 1 }, if p.image_spec { 0 } else { 1 })
    } else if p.server {
        (1, 1, 1)
    } else if p.domain {
        (2, 1, 1)
    } else {
        (3, 1, 1)
    }
}

/// The usage after a pull: the new inodes, and the bytes of the container file (the
/// length, the component and the metadata) and of the image spec file.
pub open spec fn usage_after_pull(
    usage: FilesystemUsage,
    inodes: (u64, u64, u64),
    component_len: u64,
    metadata_len: u64,
    image_spec_len: u64,
) -> FilesystemUsage {
    FilesystemUsage {
        bytes: (usage.bytes + 8 + component_len + metadata_len + image_spec_len) as u64,
        inodes: (usage.inodes + inodes.0 + inodes.1 + inodes.2) as u64,
    }
}

/// The usage after a removal: the two files, of the given sizes, and the directories
/// removed with them.
pub open spec fn usage_after_removal(
    usage: FilesystemUsage,
    container_len: u64,
    image_spec_len: u64,
    directories: u64,
) -> FilesystemUsage {
    FilesystemUsage {
        bytes: (usage.bytes - container_len - image_spec_len) as u64,
        inodes: (usage.inodes - 2 - directories) as u64,
    }
}

impl FilesystemUsage {
    /// Account for a pull (see [`usage_after_pull`]).
    pub fn add_pull(
        &mut self,
        inodes: (u64, u64, u64),
        component_len: u64,
        metadata_len: u64,
        image_spec_len: u64,
    )
        requires
            old(self).inodes + inodes.0 + inodes.1 + inodes.2 <= u64::MAX,
            old(self).bytes + 8 + component_len + metadata_len + image_spec_len <= u64::MAX,
        ensures
            *final(self) == usage_after_pull(
                *old(self),
                inodes,
                component_len,
                metadata_len,
                image_spec_len,
            ),
    {
        self.inodes = self.inodes + inodes.0;
        self.inodes = self.inodes + inodes.1;
        self.inodes = self.inodes + inodes.2;
        self.bytes = self.bytes + 8;
        self.bytes = self.bytes + component_len;
        self.bytes = self.bytes + metadata_len;
        self.bytes = self.bytes + image_spec_len;
    }

    /// Account for a removal (see [`usage_after_removal`]).
    pub fn subtract_removal(&mut self, container_len: u64, image_spec_len: u64, directories: u64)
        requires
            container_len + image_spec_len <= old(self).bytes,
            2 + directories <= old(self).inodes,
        ensures
            *final(self) == usage_after_removal(*old(self), container_len, image_spec_len, directories),
    {
        self.bytes = self.bytes - container_len;
        self.inodes = self.inodes - 1;
        self.bytes = self.bytes - image_spec_len;
        self.inodes = self.inodes - 1;
        self.inodes = self.inodes - directories;
    }
}

/// Removing a container that a pull stored (creating both its files and `directories`
/// directories) and that takes those directories with it gives back the usage from before
/// the pull: the container file's size is the length, the component and the metadata.
pub proof fn lemma_pull_then_remove(
    usage: FilesystemUsage,
    directories: u64,
    component_len: u64,
    metadata_len: u64,
    image_spec_len: u64,
)
    requires
        usage.inodes + directories + 2 <= u64::MAX,
        usage.bytes + 8 + component_len + metadata_len + image_spec_len <= u64::MAX,
    ensures
        ({
            let pulled = usage_after_pull(
                usage,
                (directories, 1, 1),
                component_len,
                metadata_len,
                image_spec_len,
            );
            let container_len = (8 + component_len + metadata_len) as u64;
            &&& container_len + image_spec_len <= pulled.bytes
            &&& 2 + directories <= pulled.inodes
            &&& usage_after_removal(pulled, container_len, image_spec_len, directories) == usage
        }),
{
}

/// The directories, from the store's root down, that hold a component's files: its
/// domain, its server and its version.
pub open spec fn component_dirs_spec(name: ComponentNameView) -> Seq<Seq<char>> {
    seq![domain_uuid_text(name.service.domain), name.service.service, name.version]
}

/// The directories, from the store's root down, that hold a component's files.
pub fn component_dirs(name: &ComponentName) -> (dirs: Vec<String>)
    ensures
        dirs@.map_values(|s: String| s@) == component_dirs_spec(name@),
{
    let mut dirs: Vec<String> = Vec::new();
    dirs.push(name.service.domain.to_string());
    dirs.push(name.service.service.clone());
    dirs.push(name.version.clone());
    assert(dirs@.map_values(|s: String| s@) =~= component_dirs_spec(name@));
    dirs
}

/// Whether a registry is among those fetched from over plain HTTP.
fn is_insecure(registry: &str, insecure_registries: &Vec<String>) -> (r: bool)
    ensures
        r == exists|i: int| 0 <= i < insecure_registries@.len() && insecure_registries@[i]@ == registry@,
{
    let wanted = registry.to_owned();
    let mut i: usize = 0;
    while i < insecure_registries.len()
        invariant
            wanted@ == registry@,
            i <= insecure_registries@.len(),
            forall|j: int| 0 <= j < i ==> insecure_registries@[j]@ != registry@,
        decreases insecure_registries@.len() - i,
    {
        if insecure_registries[i] == wanted {
            return true;
        }
        i = i + 1;
    }
    false
}

/// The URL under which a registry serves a component's server:
/// `<scheme>://<registry>/v2/<domain>/<server>`, over HTTP for the insecure registries and
/// HTTPS for the others.
pub open spec fn server_url_spec(
    registry: Seq<char>,
    insecure: bool,
    name: ComponentNameView,
) -> Seq<char> {
    (if insecure {
        "http"@
    } else {
        "https"@
    }) + "://"@ + registry + "/v2/"@ + domain_uuid_text(name.service.domain) + "/"@
        + name.service.service
}

/// The URL under which a registry serves a component's server (see [`server_url_spec`]).
pub fn server_url(registry: &str, insecure_registries: &Vec<String>, name: &ComponentName) -> (url:
    String)
    ensures
        url@ == server_url_spec(
            registry@,
            exists|i: int| 0 <= i < insecure_registries@.len() && insecure_registries@[i]@ == registry@,
            name@,
        ),
{
    let insecure = is_insecure(registry, insecure_registries);
    let mut url = String::new();
    if insecure {
        url.append("http");
    } else {
        url.append("https");
    }
    url.append("://");
    url.append(registry);
    url.append("/v2/");
    let domain = name.service.domain.to_string();
    url.append(domain.as_str());
    url.append("/");
    url.append(name.service.service.as_str());
    assert(url@ =~= server_url_spec(registry@, insecure, name@));
    url
}

/// The URL of a component's manifest: `<server url>/manifests/<version>`.
pub fn manifest_url(server_url: &str, name: &ComponentName) -> (url: String)
    ensures
        url@ == server_url@ + "/manifests/"@ + name@.version,
{
    let mut url = String::new();
    url.append(server_url);
    url.append("/manifests/");
    url.append(name.version.as_str());
    assert(url@ =~= server_url@ + "/manifests/"@ + name@.version);
    url
}

/// The URL of a blob of a server: `<server url>/blobs/<digest>`.
pub fn blob_url(server_url: &str, digest: &str) -> (url: String)
    ensures
        url@ == server_url@ + "/blobs/"@ + digest@,
{
    let mut url = String::new();
    url.append(server_url);
    url.append("/blobs/");
    url.append(digest);
    assert(url@ =~= server_url@ + "/blobs/"@ + digest@);
    url
}

/// The blob digests of a manifest's two layers, the component's then the metadata's;
/// every image has exactly two. `None` for any other number of layers.
pub fn container_layers(digests: &Vec<String>) -> (r: Option<(&String, &String)>)
    ensures
        digests@.len() == 2 ==> (r matches Some((a, b)) && *a == digests@[0] && *b == digests@[1]),
        digests@.len() != 2 ==> r is None,
{
    if digests.len() == 2 {
        Some((&digests[0], &digests[1]))
    } else {
        None
    }
}

} // verus!
