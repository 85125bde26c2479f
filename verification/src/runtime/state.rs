//! The pod lifecycle: the decisions the CRI service takes on each request about a pod.
//!
//! Pods generally follow a simple linear lifecycle:
//!     initiated → created → starting → running → stopped → removed → killed
//! although other lifecycles are possible, and most transitions are idempotent.
//! Each transition maps to a request of the CRI API. The [`PodTable`] holds what is known
//! of each pod and takes each request's decision; the work it asks for (binding a socket,
//! shutting a server down, freeing an address) is left to its owner.

use std::collections::HashMap;

use vstd::prelude::*;
use vstd::std_specs::iter::IteratorSpec;

use crate::runtime::error::{status, Code, Status, StatusView};
use crate::runtime::names::PodId;
use crate::text::has_prefix;
use std::time::{Duration, SystemTime, SystemTimeError, UNIX_EPOCH};

verus! {

/// The lifecycle state of a pod.
#[derive(Clone, Copy, Debug, PartialEq, Eq, Structural)]
pub enum PodState {
    /// After `RunPodSandbox`, before `CreateContainer`.
    Initiated,
    /// After `CreateContainer`, before `StartContainer`.
    Created,
    /// At the start of `StartContainer`, while the server is being brought up;
    /// it acts as a lock against concurrent starts.
    Starting,
    /// After `StartContainer`: the pod serves the data plane.
    Running,
    /// After `StopContainer`, before `RemoveContainer`.
    Stopped,
    /// After `RemoveContainer`, before `StopPodSandbox`.
    Removed,
    /// After `StopPodSandbox`, before `RemovePodSandbox`.
    Killed,
}

/// Container metadata, as Kubelet gives it.
#[derive(Clone, Debug, PartialEq, Eq)]
pub struct ContainerMetadata {
    pub name: String,
    pub attempt: u32,
}

/// What `CreateContainer` asks of a container: its metadata, labels, annotations and
/// environment, each list of pairs being a map from key to value.
#[derive(Clone, Debug)]
pub struct ContainerConfig {
    pub metadata: Option<ContainerMetadata>,
    pub labels: Vec<(String, String)>,
    pub annotations: Vec<(String, String)>,
    pub environment: Vec<(String, String)>,
}

/// The model of a list of string pairs: the pairs, as character sequences.
pub open spec fn pairs_view(pairs: Seq<(String, String)>) -> Seq<(Seq<char>, Seq<char>)> {
    Seq::new(pairs.len(), |i: int| (pairs[i].0@, pairs[i].1@))
}

/// The map a list of pairs stands for (a later pair for the same key wins).
pub open spec fn pairs_map(pairs: Seq<(Seq<char>, Seq<char>)>) -> Map<Seq<char>, Seq<char>>
    decreases pairs.len(),
{
    if pairs.len() == 0 {
        Map::empty()
    } else {
        pairs_map(pairs.drop_last()).insert(pairs.last().0, pairs.last().1)
    }
}

/// The model of container metadata.
pub open spec fn metadata_view(m: Option<ContainerMetadata>) -> Option<(Seq<char>, u32)> {
    match m {
        Some(m) => Some((m.name@, m.attempt)),
        None => None,
    }
}

/// The model of a container configuration.
pub struct ContainerConfigView {
    pub metadata: Option<(Seq<char>, u32)>,
    pub labels: Map<Seq<char>, Seq<char>>,
    pub annotations: Map<Seq<char>, Seq<char>>,
    pub environment: Map<Seq<char>, Seq<char>>,
}

impl View for ContainerConfig {
    type V = ContainerConfigView;

    open spec fn view(&self) -> ContainerConfigView {
        ContainerConfigView {
            metadata: metadata_view(self.metadata),
            labels: pairs_map(pairs_view(self.labels@)),
            annotations: pairs_map(pairs_view(self.annotations@)),
            environment: pairs_map(pairs_view(self.environment@)),
        }
    }
}

/// The map of a list of pairs holds exactly the keys of its pairs.
proof fn lemma_pairs_map_keys(pairs: Seq<(Seq<char>, Seq<char>)>)
    ensures
        forall|k: Seq<char>| #[trigger] pairs_map(pairs).contains_key(k)
            <==> exists|a: int| 0 <= a < pairs.len() && pairs[a].0 == k,
    decreases pairs.len(),
{
    if pairs.len() > 0 {
        lemma_pairs_map_keys(pairs.drop_last());
        let d = pairs.drop_last();
        assert forall|k: Seq<char>| #[trigger] pairs_map(pairs).contains_key(k)
            <==> exists|a: int| 0 <= a < pairs.len() && pairs[a].0 == k by {
            if pairs_map(pairs).contains_key(k) && k != pairs.last().0 {
                assert(pairs_map(d).contains_key(k));
                let a = choose|a: int| 0 <= a < d.len() && d[a].0 == k;
                assert(pairs[a].0 == k);
            }
            if exists|a: int| 0 <= a < pairs.len() && pairs[a].0 == k {
                let a = choose|a: int| 0 <= a < pairs.len() && pairs[a].0 == k;
                if a < pairs.len() - 1 {
                    assert(d[a].0 == k);
                    assert(pairs_map(d).contains_key(k));
                }
            }
        }
    }
}

/// A pair whose key no later pair repeats is an entry of the map.
proof fn lemma_pairs_map_last(pairs: Seq<(Seq<char>, Seq<char>)>, j: int)
    requires
        0 <= j < pairs.len(),
        forall|l: int| j < l < pairs.len() ==> pairs[l].0 != pairs[j].0,
    ensures
        pairs_map(pairs).contains_key(pairs[j].0),
        pairs_map(pairs)[pairs[j].0] == pairs[j].1,
    decreases pairs.len(),
{
    if j < pairs.len() - 1 {
        let d = pairs.drop_last();
        assert(d[j] == pairs[j]);
        assert forall|l: int| j < l < d.len() implies d[l].0 != d[j].0 by {
            assert(d[l] == pairs[l]);
        }
        lemma_pairs_map_last(d, j);
        assert(pairs.last().0 != pairs[j].0);
    }
}

/// The value that a list of pairs gives a key: that of its last pair with the key.
pub fn lookup<'a>(pairs: &'a Vec<(String, String)>, key: &String) -> (r: Option<&'a String>)
    ensures
        pairs_map(pairs_view(pairs@)).contains_key(key@) ==> (r matches Some(v) && v@
            == pairs_map(pairs_view(pairs@))[key@]),
        !pairs_map(pairs_view(pairs@)).contains_key(key@) ==> r is None,
{
    let ghost pv = pairs_view(pairs@);
    let mut i: usize = pairs.len();
    while i > 0
        invariant
            i <= pairs@.len(),
            pv == pairs_view(pairs@),
            forall|l: int| i <= l < pairs@.len() ==> pairs@[l].0@ != key@,
        decreases i,
    {
        i = i - 1;
        if pairs[i].0 == *key {
            proof {
                assert forall|l: int| i < l < pv.len() implies pv[l].0 != pv[i as int].0 by {}
                lemma_pairs_map_last(pv, i as int);
            }
            return Some(&pairs[i].1);
        }
    }
    proof {
        lemma_pairs_map_keys(pv);
    }
    None
}

/// Whether every entry of the map of `a` is an entry of the map of `b`.
fn subsumed(a: &Vec<(String, String)>, b: &Vec<(String, String)>) -> (r: bool)
    ensures
        r == forall|k: Seq<char>| #[trigger] pairs_map(pairs_view(a@)).contains_key(k)
            ==> pairs_map(pairs_view(b@)).contains_key(k) && pairs_map(pairs_view(b@))[k]
                == pairs_map(pairs_view(a@))[k],
{
    let ghost ma = pairs_map(pairs_view(a@));
    let ghost mb = pairs_map(pairs_view(b@));
    proof {
        lemma_pairs_map_keys(pairs_view(a@));
    }
    let mut i: usize = 0;
    while i < a.len()
        invariant
            i <= a@.len(),
            ma == pairs_map(pairs_view(a@)),
            mb == pairs_map(pairs_view(b@)),
            forall|k: Seq<char>| #[trigger] ma.contains_key(k)
                <==> exists|x: int| 0 <= x < a@.len() && pairs_view(a@)[x].0 == k,
            forall|x: int| 0 <= x < i ==> #[trigger] mb.contains_key(a@[x].0@) && mb[a@[x].0@]
                == ma[a@[x].0@],
        decreases a@.len() - i,
    {
        let key = &a[i].0;
        assert(pairs_view(a@)[i as int].0 == key@);
        let va = lookup(a, key);
        let vb = lookup(b, key);
        match (va, vb) {
            (Some(x), Some(y)) => {
                if !(*x == *y) {
                    return false;
                }
            },
            _ => {
                return false;
            },
        }
        assert(ma.contains_key(key@));
        assert(mb.contains_key(key@) && mb[key@] == ma[key@]);
        assert(a@[i as int].0@ == key@);
        assert forall|x: int| 0 <= x < i + 1 implies #[trigger] mb.contains_key(a@[x].0@)
            && mb[a@[x].0@] == ma[a@[x].0@] by {
            if x == i {
                assert(a@[x].0@ == key@);
            }
        }
        i = i + 1;
    }
    proof {
        assert forall|k: Seq<char>| #[trigger] ma.contains_key(k) implies mb.contains_key(k)
            && mb[k] == ma[k] by {
            let x = choose|x: int| 0 <= x < a@.len() && pairs_view(a@)[x].0 == k;
            assert(a@[x].0@ == k);
        }
    }
    true
}

/// Whether two lists of string pairs stand for the same map.
pub fn same_pairs(a: &Vec<(String, String)>, b: &Vec<(String, String)>) -> (r: bool)
    ensures
        r == (pairs_map(pairs_view(a@)) == pairs_map(pairs_view(b@))),
{
    let r = subsumed(a, b) && subsumed(b, a);
    proof {
        if r {
            assert(pairs_map(pairs_view(a@)) =~= pairs_map(pairs_view(b@)));
        }
    }
    r
}

/// Whether a result is an internal error with the given message.
pub open spec fn fails_with<T>(r: Result<T, Status>, message: &'static str) -> bool {
    r matches Err(e) && e@ == status(Code::Internal, message)
}

impl ContainerConfig {
    /// The configuration of a container not created yet: no metadata, no labels,
    /// annotations or environment.
    pub fn empty() -> (c: ContainerConfig)
        ensures
            c.metadata is None,
            c.labels@.len() == 0,
            c.annotations@.len() == 0,
            c.environment@.len() == 0,
    {
        ContainerConfig {
            metadata: None,
            labels: Vec::new(),
            annotations: Vec::new(),
            environment: Vec::new(),
        }
    }
}

/// Whether two container configurations are the same: equal metadata, and labels,
/// annotations and environment that stand for the same maps.
pub fn same_config(a: &ContainerConfig, b: &ContainerConfig) -> (r: bool)
    ensures
        r == (a@ == b@),
{
    let same_metadata = match (&a.metadata, &b.metadata) {
        (Some(x), Some(y)) => x.name == y.name && x.attempt == y.attempt,
        (None, None) => true,
        _ => false,
    };
    same_metadata && same_pairs(&a.labels, &b.labels) && same_pairs(&a.annotations, &b.annotations)
        && same_pairs(&a.environment, &b.environment)
}

/// What the runtime knows of a pod and of its container.
#[derive(Debug)]
pub struct PodRecord {
    /// The pod's lifecycle state.
    pub state: PodState,
    /// Labels of the pod sandbox.
    pub pod_labels: Vec<(String, String)>,
    /// Annotations of the pod sandbox.
    pub pod_annotations: Vec<(String, String)>,
    /// Creation time of the pod sandbox, in nanoseconds.
    pub pod_created_at: i64,
    /// Creation time of the container, in nanoseconds (0 until it is created).
    pub container_created_at: i64,
    /// What the container was created with.
    pub container: ContainerConfig,
    /// Start time of the container, in nanoseconds (0 until it is started).
    pub container_started_at: i64,
    /// Finish time of the container, in nanoseconds.
    pub container_finished_at: i64,
    /// Whether the handle that shuts the pod's server down is still held:
    /// it is armed when the server starts and can be taken once.
    pub has_killer: bool,
}

/// What a `StartContainer` request found about the component the pod runs.
#[derive(Clone, Copy, Debug)]
pub enum Readiness {
    /// The component is initialized: its server can be started.
    Ready,
    /// Initializing the component failed with this status.
    Failed(Status),
    /// The component is still initializing.
    Pending,
}

/// What the owner of the table does next on a `StartContainer` request.
#[derive(Clone, Copy, Debug, PartialEq, Eq, Structural)]
pub enum StartStep {
    /// The pod is now `Starting`: bind its socket and start its server, then report
    /// with [`PodTable::finish_start`] or [`PodTable::bind_failed`].
    Bind,
    /// The component is still initializing: wait for it, then ask again.
    Wait,
    /// The pod is already starting or running: nothing to do.
    Done,
}

/// The state of a pod in a table of records, if the table holds it.
pub open spec fn state_of(m: Map<PodId, PodRecord>, pod: PodId) -> Option<PodState> {
    if m.contains_key(pod) {
        Some(m[pod].state)
    } else {
        None
    }
}

/// Whether a pod matches a filter: its state is one of the expected states (any state,
/// when none is given) and each expected label is among its labels with the same value.
pub open spec fn pod_matches(
    state: PodState,
    labels: Map<Seq<char>, Seq<char>>,
    expected_labels: Seq<(Seq<char>, Seq<char>)>,
    expected_states: Seq<PodState>,
) -> bool {
    &&& (expected_states.len() == 0 || expected_states.contains(state))
    &&& forall|i: int|
        0 <= i < expected_labels.len() ==> #[trigger] labels.contains_key(expected_labels[i].0)
            && labels[expected_labels[i].0] == expected_labels[i].1
}

/// The labels of a pod record that a filter looks at: those of the container, or those
/// of the pod sandbox.
pub open spec fn filtered_labels(rec: PodRecord, container_labels: bool) -> Map<Seq<char>, Seq<char>> {
    if container_labels {
        rec.container@.labels
    } else {
        pairs_map(pairs_view(rec.pod_labels@))
    }
}

/// Whether a pod in the given state with the given labels matches the expected labels
/// and states.
pub fn matches_pod(
    state: PodState,
    labels: &Vec<(String, String)>,
    expected_labels: &Vec<(String, String)>,
    expected_states: &Vec<PodState>,
) -> (r: bool)
    ensures
        r == pod_matches(
            state,
            pairs_map(pairs_view(labels@)),
            pairs_view(expected_labels@),
            expected_states@,
        ),
{
    let mut state_ok = expected_states.len() == 0;
    let mut i: usize = 0;
    while i < expected_states.len()
        invariant
            i <= expected_states@.len(),
            state_ok == (expected_states@.len() == 0 || exists|j: int|
                0 <= j < i && expected_states@[j] == state),
        decreases expected_states@.len() - i,
    {
        if expected_states[i] == state {
            state_ok = true;
        }
        i = i + 1;
    }
    if !state_ok {
        return false;
    }
    let ghost m = pairs_map(pairs_view(labels@));
    let ghost el = pairs_view(expected_labels@);
    let mut k: usize = 0;
    while k < expected_labels.len()
        invariant
            k <= expected_labels@.len(),
            m == pairs_map(pairs_view(labels@)),
            el == pairs_view(expected_labels@),
            forall|i: int| 0 <= i < k ==> #[trigger] m.contains_key(el[i].0) && m[el[i].0] == el[i].1,
        decreases expected_labels@.len() - k,
    {
        match lookup(labels, &expected_labels[k].0) {
            Some(actual) => {
                if !(*actual == expected_labels[k].1) {
                    assert(!(m.contains_key(el[k as int].0) && m[el[k as int].0] == el[k as int].1));
                    return false;
                }
            },
            None => {
                assert(!m.contains_key(el[k as int].0));
                return false;
            },
        }
        assert(m.contains_key(el[k as int].0) && m[el[k as int].0] == el[k as int].1);
        k = k + 1;
    }
    true
}

/// The prefix of the labels that the runtime reserves for itself.
pub open spec fn vimana_label_prefix() -> Seq<char> {
    seq!['v', 'i', 'm', 'a', 'n', 'a', '.', 'h', 'o', 's', 't', '/']
}

fn vimana_label_prefix_str() -> (s: &'static str)
    ensures
        s@ == vimana_label_prefix(),
{
    let s = "vimana.host/";
    proof {
        reveal_strlit("vimana.host/");
        assert(s@ =~= vimana_label_prefix());
    }
    s
}

/// Whether every label of `left` under the reserved prefix is a label of `right` with the
/// same value.
pub open spec fn vimana_labels_agree(
    left: Map<Seq<char>, Seq<char>>,
    right: Map<Seq<char>, Seq<char>>,
) -> bool {
    forall|k: Seq<char>|
        #[trigger] left.contains_key(k) && vimana_label_prefix().is_prefix_of(k) ==> right.contains_key(k)
            && right[k] == left[k]
}

/// Check that the labels of `left` under the reserved prefix (`vimana.host/`) are in
/// `right` with the same values: `None` if so, else an error with the given message.
pub fn check_vimana_labels(
    left: &Vec<(String, String)>,
    right: &Vec<(String, String)>,
    error_tag: &'static str,
) -> (r: Option<Status>)
    ensures
        vimana_labels_agree(pairs_map(pairs_view(left@)), pairs_map(pairs_view(right@)))
            ==> r is None,
        !vimana_labels_agree(pairs_map(pairs_view(left@)), pairs_map(pairs_view(right@)))
            ==> (r matches Some(e) && e@ == status(Code::Internal, error_tag)),
{
    let ghost ml = pairs_map(pairs_view(left@));
    let ghost mr = pairs_map(pairs_view(right@));
    let prefix = vimana_label_prefix_str();
    proof {
        lemma_pairs_map_keys(pairs_view(left@));
    }
    let mut i: usize = 0;
    while i < left.len()
        invariant
            i <= left@.len(),
            prefix@ == vimana_label_prefix(),
            ml == pairs_map(pairs_view(left@)),
            mr == pairs_map(pairs_view(right@)),
            forall|k: Seq<char>| #[trigger] ml.contains_key(k)
                <==> exists|x: int| 0 <= x < left@.len() && pairs_view(left@)[x].0 == k,
            forall|x: int|
                0 <= x < i && vimana_label_prefix().is_prefix_of(#[trigger] left@[x].0@)
                    ==> mr.contains_key(left@[x].0@) && mr[left@[x].0@] == ml[left@[x].0@],
        decreases left@.len() - i,
    {
        let key = &left[i].0;
        assert(pairs_view(left@)[i as int].0 == key@);
        assert(ml.contains_key(key@));
        if has_prefix(key.as_str(), prefix) {
            let agree = match (lookup(left, key), lookup(right, key)) {
                (Some(x), Some(y)) => *x == *y,
                _ => false,
            };
            if !agree {
                return Some(Status::internal(error_tag));
            }
        }
        assert(left@[i as int].0@ == key@);
        i = i + 1;
    }
    proof {
        assert forall|k: Seq<char>|
            #[trigger] ml.contains_key(k) && vimana_label_prefix().is_prefix_of(k) implies mr.contains_key(k)
                && mr[k] == ml[k] by {
            let x = choose|x: int| 0 <= x < left@.len() && pairs_view(left@)[x].0 == k;
            assert(left@[x].0@ == k);
        }
    }
    None
}

/// A time in nanoseconds since the Unix epoch as a timestamp: its low 64 bits, modulo
/// the largest `i64` (so it wraps around in 2262).
pub fn timestamp_from_nanos(nanos: u128) -> (t: i64)
    ensures
        t as int == ((nanos as int) % 0x1_0000_0000_0000_0000) % (i64::MAX as int),
{
    let low = #[verifier::truncate] (nanos as u64);
    assert(low == nanos % 0x1_0000_0000_0000_0000u128) by (bit_vector)
        requires
            low == #[verifier::truncate] (nanos as u64),
    ;
    let t = low % (i64::MAX as u64);
    t as i64
}

/// The system clock's reading (`SystemTime::now`); nothing is stated of it.
#[verifier::external_body]
fn clock_now() -> SystemTime {
    SystemTime::now()
}

/// The time elapsed from the Unix epoch to `t` (`SystemTime::duration_since`), or an
/// error when `t` is earlier; nothing is stated of it.
#[verifier::external_body]
fn since_unix_epoch(t: &SystemTime) -> Result<Duration, SystemTimeError> {
    t.duration_since(UNIX_EPOCH)
}

/// A duration in whole nanoseconds (`Duration::as_nanos`); nothing is stated of it.
#[verifier::external_body]
fn duration_nanos(d: &Duration) -> u128 {
    d.as_nanos()
}

/// The current time in nanoseconds since the Unix epoch, as a timestamp (0 before 1970;
/// it wraps around in 2262).
pub fn now() -> (t: i64)
    ensures
        0 <= t < i64::MAX,
{
    let elapsed = match since_unix_epoch(&clock_now()) {
        Ok(d) => duration_nanos(&d),
        Err(_) => 0,
    };
    timestamp_from_nanos(elapsed)
}

/// `std::time::SystemTime`, carried through opaquely.
#[verifier::external_type_specification]
#[verifier::external_body]
pub struct ExSystemTime(SystemTime);

/// `std::time::SystemTimeError`, carried through opaquely.
#[verifier::external_type_specification]
#[verifier::external_body]
pub struct ExSystemTimeError(SystemTimeError);

/// A result seen with its error status's view.
pub open spec fn result_view<T>(r: Result<T, Status>) -> Result<T, StatusView> {
    match r {
        Ok(t) => Ok(t),
        Err(e) => Err(e@),
    }
}

/// An internal error with the given message.
pub open spec fn internal<T>(message: &'static str) -> Result<T, StatusView> {
    Err(status(Code::Internal, message))
}

/// `CreateContainer` on a table of records: the table after it, and its result.
pub open spec fn create_transition(
    m: Map<PodId, PodRecord>,
    pod: PodId,
    config: ContainerConfig,
    now: i64,
) -> (Map<PodId, PodRecord>, Result<(), StatusView>) {
    match state_of(m, pod) {
        None => (m, internal("create-container-not-found")),
        Some(PodState::Initiated) | Some(PodState::Removed) => (
            m.insert(
                pod,
                PodRecord {
                    state: PodState::Created,
                    container: config,
                    container_created_at: now,
                    ..m[pod]
                },
            ),
            Ok(()),
        ),
        Some(PodState::Created) => if m[pod].container@ == config@ {
            (m, Ok(()))
        } else {
            (m, internal("container-already-created"))
        },
        Some(_) => (m, internal("create-container-bad-state")),
    }
}

/// The first step of `StartContainer`, given the readiness of the pod's component.
pub open spec fn begin_start_transition(
    m: Map<PodId, PodRecord>,
    pod: PodId,
    readiness: Readiness,
) -> (Map<PodId, PodRecord>, Result<StartStep, StatusView>) {
    match state_of(m, pod) {
        None => (m, internal("starting-container-not-found")),
        Some(PodState::Created) | Some(PodState::Stopped) => match readiness {
            Readiness::Ready => (
                m.insert(pod, PodRecord { state: PodState::Starting, ..m[pod] }),
                Ok(StartStep::Bind),
            ),
            Readiness::Failed(e) => (m, Err(e@)),
            Readiness::Pending => (m, Ok(StartStep::Wait)),
        },
        Some(PodState::Starting) | Some(PodState::Running) => (m, Ok(StartStep::Done)),
        Some(_) => (m, internal("starting-container-bad-state")),
    }
}

/// `StartContainer` when the server's socket could not be bound.
pub open spec fn bind_failed_transition(m: Map<PodId, PodRecord>, pod: PodId) -> Map<
    PodId,
    PodRecord,
> {
    if state_of(m, pod) == Some(PodState::Starting) {
        m.insert(pod, PodRecord { state: PodState::Created, ..m[pod] })
    } else {
        m
    }
}

/// The last step of `StartContainer`, once the server serves.
pub open spec fn finish_start_transition(
    m: Map<PodId, PodRecord>,
    pod: PodId,
    started_at: i64,
) -> (Map<PodId, PodRecord>, Result<(), StatusView>) {
    match state_of(m, pod) {
        None => (m, internal("started-container-not-found")),
        Some(PodState::Starting) => (
            m.insert(
                pod,
                PodRecord {
                    state: PodState::Running,
                    container_started_at: started_at,
                    has_killer: true,
                    ..m[pod]
                },
            ),
            Ok(()),
        ),
        Some(_) => (m, internal("started-container-bad-state")),
    }
}

/// `StopContainer`; the result says whether the pod's server is to be shut down.
pub open spec fn stop_transition(m: Map<PodId, PodRecord>, pod: PodId) -> (
    Map<PodId, PodRecord>,
    Result<bool, StatusView>,
) {
    match state_of(m, pod) {
        None => (m, internal("stop-container-not-found")),
        Some(PodState::Starting) => (
            m.insert(pod, PodRecord { state: PodState::Stopped, ..m[pod] }),
            Ok(false),
        ),
        Some(PodState::Running) => if m[pod].has_killer {
            (
                m.insert(pod, PodRecord { state: PodState::Stopped, has_killer: false, ..m[pod] }),
                Ok(true),
            )
        } else {
            (
                m.insert(pod, PodRecord { state: PodState::Stopped, ..m[pod] }),
                internal("stop-container-no-killer"),
            )
        },
        Some(PodState::Stopped) => (m, Ok(false)),
        Some(_) => (m, internal("stop-container-bad-state")),
    }
}

/// `RemoveContainer`.
pub open spec fn remove_transition(m: Map<PodId, PodRecord>, pod: PodId) -> (
    Map<PodId, PodRecord>,
    Result<(), StatusView>,
) {
    match state_of(m, pod) {
        None => (m, internal("remove-container-not-found")),
        Some(PodState::Stopped) => (
            m.insert(pod, PodRecord { state: PodState::Removed, ..m[pod] }),
            Ok(()),
        ),
        Some(PodState::Removed) => (m, Ok(())),
        Some(_) => (m, internal("remove-container-bad-state")),
    }
}

/// `StopPodSandbox`; the result says, when the pod is killed now, whether its server
/// is to be shut down.
pub open spec fn kill_transition(m: Map<PodId, PodRecord>, pod: PodId) -> (
    Map<PodId, PodRecord>,
    Result<Option<bool>, StatusView>,
) {
    match state_of(m, pod) {
        None => (m, internal("kill-pod-not-found")),
        Some(PodState::Killed) => (m, Ok(None)),
        Some(_) => (
            m.insert(pod, PodRecord { state: PodState::Killed, has_killer: false, ..m[pod] }),
            Ok(Some(m[pod].has_killer)),
        ),
    }
}

/// `RemovePodSandbox`.
pub open spec fn delete_transition(m: Map<PodId, PodRecord>, pod: PodId) -> (
    Map<PodId, PodRecord>,
    Result<(), StatusView>,
) {
    match state_of(m, pod) {
        None => (m, internal("delete-pod-not-found")),
        Some(PodState::Killed) => (m.remove(pod), Ok(())),
        Some(_) => (m, internal("delete-pod-bad-state")),
    }
}

/// `CreateContainer` is idempotent: asked again with the same configuration after it
/// succeeded, it succeeds and changes nothing.
pub proof fn lemma_create_idempotent(
    m: Map<PodId, PodRecord>,
    pod: PodId,
    first: ContainerConfig,
    again: ContainerConfig,
    t1: i64,
    t2: i64,
)
    requires
        create_transition(m, pod, first, t1).1 is Ok,
        again@ == first@,
    ensures
        ({
            let m1 = create_transition(m, pod, first, t1).0;
            create_transition(m1, pod, again, t2) == (m1, Ok::<(), StatusView>(()))
        }),
{
}

/// `StopContainer` is idempotent: after it succeeded, it succeeds again, changing
/// nothing and shutting nothing down.
pub proof fn lemma_stop_idempotent(m: Map<PodId, PodRecord>, pod: PodId)
    requires
        stop_transition(m, pod).1 is Ok,
    ensures
        ({
            let m1 = stop_transition(m, pod).0;
            stop_transition(m1, pod) == (m1, Ok::<bool, StatusView>(false))
        }),
{
}

/// `RemoveContainer` is idempotent.
pub proof fn lemma_remove_idempotent(m: Map<PodId, PodRecord>, pod: PodId)
    requires
        remove_transition(m, pod).1 is Ok,
    ensures
        ({
            let m1 = remove_transition(m, pod).0;
            remove_transition(m1, pod) == (m1, Ok::<(), StatusView>(()))
        }),
{
}

/// `StopPodSandbox` is idempotent: a killed pod is killed again without change.
pub proof fn lemma_kill_idempotent(m: Map<PodId, PodRecord>, pod: PodId)
    requires
        kill_transition(m, pod).1 is Ok,
    ensures
        ({
            let m1 = kill_transition(m, pod).0;
            kill_transition(m1, pod) == (m1, Ok::<Option<bool>, StatusView>(None))
        }),
{
}

/// `Starting` is a lock: once a start has been told to bind the server, any other start
/// of the pod is told there is nothing to do, whatever the component's readiness.
pub proof fn lemma_start_binds_once(
    m: Map<PodId, PodRecord>,
    pod: PodId,
    readiness: Readiness,
)
    requires
        begin_start_transition(m, pod, Readiness::Ready).1 == Ok::<StartStep, StatusView>(
            StartStep::Bind,
        ),
    ensures
        ({
            let m1 = begin_start_transition(m, pod, Readiness::Ready).0;
            begin_start_transition(m1, pod, readiness) == (m1, Ok::<StartStep, StatusView>(
                StartStep::Done,
            ))
        }),
{
}

/// Any pod the table holds can be killed and then forgotten: `StopPodSandbox` then
/// `RemovePodSandbox` both succeed and leave the other pods as they were.
pub proof fn lemma_kill_then_delete(m: Map<PodId, PodRecord>, pod: PodId)
    requires
        m.contains_key(pod),
    ensures
        kill_transition(m, pod).1 is Ok,
        delete_transition(kill_transition(m, pod).0, pod) == (m.remove(pod), Ok::<(), StatusView>(())),
{
    assert(kill_transition(m, pod).0.remove(pod) =~= m.remove(pod));
}

/// A removed container can be created again: `CreateContainer` on a pod whose container
/// was removed succeeds, with any configuration, and leaves the pod `Created` with that
/// configuration and creation time, the rest of the pod and the other pods as they were.
pub proof fn lemma_recreate_after_remove(
    m: Map<PodId, PodRecord>,
    pod: PodId,
    config: ContainerConfig,
    now: i64,
)
    requires
        state_of(m, pod) == Some(PodState::Removed),
    ensures
        create_transition(m, pod, config, now).1 == Ok::<(), StatusView>(()),
        create_transition(m, pod, config, now).0.contains_key(pod),
        create_transition(m, pod, config, now).0[pod].state == PodState::Created,
        create_transition(m, pod, config, now).0[pod].container == config,
        create_transition(m, pod, config, now).0[pod].container_created_at == now,
        create_transition(m, pod, config, now).0[pod].pod_labels == m[pod].pod_labels,
        create_transition(m, pod, config, now).0[pod].pod_annotations == m[pod].pod_annotations,
        create_transition(m, pod, config, now).0.remove(pod) == m.remove(pod),
{
    assert(create_transition(m, pod, config, now).0.remove(pod) =~= m.remove(pod));
}

/// A stopped container can be started again: after `StopContainer` on a running pod,
/// the first step of `StartContainer` with a ready component asks for the server to be
/// bound and moves the pod to `Starting`, as from `Created`; and so from any stopped pod.
pub proof fn lemma_restart_after_stop(m: Map<PodId, PodRecord>, pod: PodId)
    requires
        state_of(m, pod) == Some(PodState::Stopped) || state_of(m, pod) == Some(PodState::Running),
    ensures
        ({
            let stopped = if state_of(m, pod) == Some(PodState::Running) {
                stop_transition(m, pod).0
            } else {
                m
            };
            let (after, r) = begin_start_transition(stopped, pod, Readiness::Ready);
            &&& state_of(stopped, pod) == Some(PodState::Stopped)
            &&& r == Ok::<StartStep, StatusView>(StartStep::Bind)
            &&& after.contains_key(pod)
            &&& after[pod].state == PodState::Starting
            &&& after[pod].container == stopped[pod].container
            &&& after.remove(pod) == m.remove(pod)
        }),
{
    let stopped = if state_of(m, pod) == Some(PodState::Running) {
        stop_transition(m, pod).0
    } else {
        m
    };
    assert(stopped.remove(pod) =~= m.remove(pod));
    assert(begin_start_transition(stopped, pod, Readiness::Ready).0.remove(pod) =~= m.remove(pod));
}

/// A pod leaves the table only through `RemovePodSandbox`: every other transition keeps
/// the set of pod IDs, and `RemovePodSandbox` succeeds exactly on a killed pod, which it
/// takes out; otherwise it fails and changes nothing.
pub proof fn lemma_only_delete_removes(
    m: Map<PodId, PodRecord>,
    pod: PodId,
    config: ContainerConfig,
    now: i64,
    readiness: Readiness,
)
    ensures
        create_transition(m, pod, config, now).0.dom() == m.dom(),
        begin_start_transition(m, pod, readiness).0.dom() == m.dom(),
        bind_failed_transition(m, pod).dom() == m.dom(),
        finish_start_transition(m, pod, now).0.dom() == m.dom(),
        stop_transition(m, pod).0.dom() == m.dom(),
        remove_transition(m, pod).0.dom() == m.dom(),
        kill_transition(m, pod).0.dom() == m.dom(),
        state_of(m, pod) == Some(PodState::Killed) ==> delete_transition(m, pod) == (
            m.remove(pod),
            Ok::<(), StatusView>(()),
        ),
        state_of(m, pod) != Some(PodState::Killed) ==> {
            &&& delete_transition(m, pod).0 == m
            &&& delete_transition(m, pod).1 is Err
        },
{
    if m.contains_key(pod) {
        assert forall|r: PodRecord| #[trigger] m.insert(pod, r).dom() =~= m.dom() by {}
    }
}

/// Two pods initiated on one table get distinct IDs, however the IDs were allocated:
/// `RunPodSandbox` records a pod only under an ID the table does not hold, and the first
/// pod's ID stays in the table until `RemovePodSandbox` takes it out.
pub proof fn lemma_initiated_ids_distinct(
    before_first: Map<PodId, PodRecord>,
    after_first: Map<PodId, PodRecord>,
    before_second: Map<PodId, PodRecord>,
    id1: PodId,
    id2: PodId,
)
    requires
        !before_first.contains_key(id1),
        after_first == before_first.insert(id1, after_first[id1]),
        after_first.dom().subset_of(before_second.dom()),
        !before_second.contains_key(id2),
    ensures
        id1 != id2,
{
    assert(after_first.contains_key(id1));
}

/// The linear lifecycle of a pod goes through: from `Initiated`, creating, starting (with
/// a ready component), finishing the start, stopping (which shuts the server down),
/// removing, killing (with no server left to shut down) and deleting all succeed, and
/// the pod is then forgotten, the other pods untouched.
pub proof fn lemma_lifecycle(
    m: Map<PodId, PodRecord>,
    pod: PodId,
    config: ContainerConfig,
    created_at: i64,
    started_at: i64,
)
    requires
        state_of(m, pod) == Some(PodState::Initiated),
    ensures
        ({
            let (m1, r1) = create_transition(m, pod, config, created_at);
            let (m2, r2) = begin_start_transition(m1, pod, Readiness::Ready);
            let (m3, r3) = finish_start_transition(m2, pod, started_at);
            let (m4, r4) = stop_transition(m3, pod);
            let (m5, r5) = remove_transition(m4, pod);
            let (m6, r6) = kill_transition(m5, pod);
            let (m7, r7) = delete_transition(m6, pod);
            &&& r1 == Ok::<(), StatusView>(())
            &&& r2 == Ok::<StartStep, StatusView>(StartStep::Bind)
            &&& r3 == Ok::<(), StatusView>(())
            &&& r4 == Ok::<bool, StatusView>(true)
            &&& r5 == Ok::<(), StatusView>(())
            &&& r6 == Ok::<Option<bool>, StatusView>(Some(false))
            &&& r7 == Ok::<(), StatusView>(())
            &&& m7 == m.remove(pod)
        }),
{
    let m6 = kill_transition(
        remove_transition(
            stop_transition(
                finish_start_transition(
                    begin_start_transition(create_transition(m, pod, config, created_at).0, pod, Readiness::Ready).0,
                    pod,
                    started_at,
                ).0,
                pod,
            ).0,
            pod,
        ).0,
        pod,
    ).0;
    assert(m6.remove(pod) =~= m.remove(pod));
}

/// The pods a work node runs, by ID, with what is known of each.
pub struct PodTable {
    pods: HashMap<PodId, PodRecord>,
    next_pod_id: PodId,
}

impl View for PodTable {
    type V = Map<PodId, PodRecord>;

    closed spec fn view(&self) -> Map<PodId, PodRecord> {
        self.pods@
    }
}

impl PodTable {
    /// The ID the next pod will get.
    pub closed spec fn next_id(&self) -> PodId {
        self.next_pod_id
    }

    /// The table is well formed: a running pod always holds the handle that shuts its
    /// server down.
    pub open spec fn wf(&self) -> bool {
        forall|id: PodId| #[trigger] self@.contains_key(id) && self@[id].state == PodState::Running
            ==> self@[id].has_killer
    }

    /// A table with no pods, whose first pod gets ID 0.
    pub fn new() -> (t: PodTable)
        ensures
            t.wf(),
            t@ == Map::<PodId, PodRecord>::empty(),
            t.next_id() == 0,
    {
        PodTable { pods: HashMap::new(), next_pod_id: 0 }
    }

    /// Hand out a fresh pod ID; IDs wrap around after the largest.
    pub fn allocate_id(&mut self) -> (id: PodId)
        ensures
            id == old(self).next_id(),
            final(self).next_id() == (if id == usize::MAX { 0 } else { (id + 1) as usize }),
            final(self)@ == old(self)@,
    {
        let id = self.next_pod_id;
        self.next_pod_id = if id == usize::MAX { 0 } else { id + 1 };
        id
    }

    /// The record of a pod, if the table holds it.
    pub fn get(&self, pod: PodId) -> (r: Option<&PodRecord>)
        ensures
            self@.contains_key(pod) ==> (r matches Some(rec) && *rec == self@[pod]),
            !self@.contains_key(pod) ==> r is None,
    {
        broadcast use vstd::std_specs::hash::group_hash_axioms;
        self.pods.get(&pod)
    }

    /// Record a new pod in the `Initiated` state (`RunPodSandbox`). Fails, leaving the
    /// table as it was, when a pod with this ID exists.
    pub fn insert_initiated(
        &mut self,
        pod: PodId,
        labels: Vec<(String, String)>,
        annotations: Vec<(String, String)>,
        created_at: i64,
    ) -> (r: Result<(), Status>)
        requires
            old(self).wf(),
        ensures
            final(self).wf(),
            final(self).next_id() == old(self).next_id(),
            old(self)@.contains_key(pod) ==> final(self)@ == old(self)@ && fails_with(r, "pod-id-collision"),
            !old(self)@.contains_key(pod) ==> {
                &&& r is Ok
                &&& final(self)@ == old(self)@.insert(pod, final(self)@[pod])
                &&& final(self)@[pod].state == PodState::Initiated
                &&& final(self)@[pod].pod_labels == labels
                &&& final(self)@[pod].pod_annotations == annotations
                &&& final(self)@[pod].pod_created_at == created_at
                &&& final(self)@[pod].container_created_at == 0
                &&& final(self)@[pod].container.metadata is None
                &&& final(self)@[pod].container.labels@.len() == 0
                &&& final(self)@[pod].container.annotations@.len() == 0
                &&& final(self)@[pod].container.environment@.len() == 0
                &&& final(self)@[pod].container_started_at == 0
                &&& final(self)@[pod].container_finished_at == 0
                &&& !final(self)@[pod].has_killer
            },
    {
        broadcast use vstd::std_specs::hash::group_hash_axioms;
        if self.pods.contains_key(&pod) {
            return Err(Status::internal("pod-id-collision"));
        }
        let rec = PodRecord {
            state: PodState::Initiated,
            pod_labels: labels,
            pod_annotations: annotations,
            pod_created_at: created_at,
            container_created_at: 0,
            container: ContainerConfig::empty(),
            container_started_at: 0,
            container_finished_at: 0,
            has_killer: false,
        };
        self.pods.insert(pod, rec);
        Ok(())
    }

    /// `CreateContainer`: record the container's configuration in an `Initiated` or
    /// `Removed` pod, which becomes `Created`. Asking again with the same configuration
    /// changes nothing; with another one, it fails.
    pub fn create_container(&mut self, pod: PodId, config: ContainerConfig, now: i64) -> (r: Result<
        (),
        Status,
    >)
        requires
            old(self).wf(),
        ensures
            final(self).wf(),
            final(self).next_id() == old(self).next_id(),
            (final(self)@, result_view(r)) == create_transition(old(self)@, pod, config, now),
    {
        broadcast use vstd::std_specs::hash::group_hash_axioms;

        let ghost before = self.pods@;
        match self.pods.remove(&pod) {
            None => Err(Status::internal("create-container-not-found")),
            Some(mut rec) => {
                match rec.state {
                    PodState::Initiated | PodState::Removed => {
                        rec.state = PodState::Created;
                        rec.container = config;
                        rec.container_created_at = now;
                        self.pods.insert(pod, rec);
                        Ok(())
                    },
                    PodState::Created => {
                        let same = same_config(&rec.container, &config);
                        self.pods.insert(pod, rec);
                        assert(self.pods@ =~= before);
                        if same {
                            Ok(())
                        } else {
                            Err(Status::internal("container-already-created"))
                        }
                    },
                    _ => {
                        self.pods.insert(pod, rec);
                        assert(self.pods@ =~= before);
                        Err(Status::internal("create-container-bad-state"))
                    },
                }
            },
        }
    }

    /// `StartContainer`, first step. A `Created` or `Stopped` pod whose component is ready
    /// becomes `Starting`, which locks out other starts, and its server is to be bound; a
    /// component that failed to initialize fails the request; one still initializing is
    /// to be waited for. A pod already `Starting` or `Running` needs nothing more.
    pub fn begin_start(&mut self, pod: PodId, readiness: Readiness) -> (r: Result<StartStep, Status>)
        requires
            old(self).wf(),
        ensures
            final(self).wf(),
            final(self).next_id() == old(self).next_id(),
            (final(self)@, result_view(r)) == begin_start_transition(old(self)@, pod, readiness),
    {
        broadcast use vstd::std_specs::hash::group_hash_axioms;

        let ghost before = self.pods@;
        match self.pods.remove(&pod) {
            None => Err(Status::internal("starting-container-not-found")),
            Some(mut rec) => {
                let r = match rec.state {
                    PodState::Created | PodState::Stopped => match readiness {
                        Readiness::Ready => {
                            rec.state = PodState::Starting;
                            Ok(StartStep::Bind)
                        },
                        Readiness::Failed(e) => Err(e),
                        Readiness::Pending => Ok(StartStep::Wait),
                    },
                    PodState::Starting | PodState::Running => Ok(StartStep::Done),
                    _ => Err(Status::internal("starting-container-bad-state")),
                };
                self.pods.insert(pod, rec);
                assert(r != Ok::<StartStep, Status>(StartStep::Bind) ==> self.pods@ =~= before);
                r
            },
        }
    }

    /// `StartContainer`, when binding the server's socket failed: a pod still `Starting`
    /// goes back to `Created`; a pod in any other state (stopped or killed meanwhile) is
    /// left as it is. The request fails with the returned status.
    pub fn bind_failed(&mut self, pod: PodId) -> (s: Status)
        requires
            old(self).wf(),
        ensures
            final(self).wf(),
            final(self).next_id() == old(self).next_id(),
            s@ == status(Code::Internal, "bind-grpc-port"),
            final(self)@ == bind_failed_transition(old(self)@, pod),
    {
        broadcast use vstd::std_specs::hash::group_hash_axioms;

        let ghost before = self.pods@;
        match self.pods.remove(&pod) {
            None => {},
            Some(mut rec) => {
                let starting = rec.state == PodState::Starting;
                if starting {
                    rec.state = PodState::Created;
                }
                self.pods.insert(pod, rec);
                assert(!starting ==> self.pods@ =~= before);
            },
        }
        Status::internal("bind-grpc-port")
    }

    /// `StartContainer`, once the server serves: a pod still `Starting` becomes `Running`,
    /// holding the handle that shuts its server down. In any other state (which the lock
    /// should prevent) the table is left as it is and the request fails; the server is
    /// then to be shut down.
    pub fn finish_start(&mut self, pod: PodId, started_at: i64) -> (r: Result<(), Status>)
        requires
            old(self).wf(),
        ensures
            final(self).wf(),
            final(self).next_id() == old(self).next_id(),
            (final(self)@, result_view(r)) == finish_start_transition(old(self)@, pod, started_at),
    {
        broadcast use vstd::std_specs::hash::group_hash_axioms;

        let ghost before = self.pods@;
        match self.pods.remove(&pod) {
            None => Err(Status::internal("started-container-not-found")),
            Some(mut rec) => {
                let r = if rec.state == PodState::Starting {
                    rec.state = PodState::Running;
                    rec.container_started_at = started_at;
                    rec.has_killer = true;
                    Ok(())
                } else {
                    Err(Status::internal("started-container-bad-state"))
                };
                self.pods.insert(pod, rec);
                assert(r is Err ==> self.pods@ =~= before);
                r
            },
        }
    }

    /// `StopContainer`: a `Starting` or `Running` pod becomes `Stopped`. The result says
    /// whether its server is to be shut down: that of a running pod is, its handle being
    /// taken; that of a starting pod is left to the start in progress. Stopping a
    /// stopped pod changes nothing.
    pub fn stop_container(&mut self, pod: PodId) -> (r: Result<bool, Status>)
        requires
            old(self).wf(),
        ensures
            final(self).wf(),
            final(self).next_id() == old(self).next_id(),
            (final(self)@, result_view(r)) == stop_transition(old(self)@, pod),
    {
        broadcast use vstd::std_specs::hash::group_hash_axioms;

        let ghost before = self.pods@;
        match self.pods.remove(&pod) {
            None => Err(Status::internal("stop-container-not-found")),
            Some(mut rec) => {
                let prior = rec.state;
                let r = match prior {
                    PodState::Starting | PodState::Running => {
                        rec.state = PodState::Stopped;
                        if prior == PodState::Running {
                            if rec.has_killer {
                                rec.has_killer = false;
                                Ok(true)
                            } else {
                                Err(Status::internal("stop-container-no-killer"))
                            }
                        } else {
                            Ok(false)
                        }
                    },
                    PodState::Stopped => Ok(false),
                    _ => Err(Status::internal("stop-container-bad-state")),
                };
                self.pods.insert(pod, rec);
                assert(prior != PodState::Starting && prior != PodState::Running ==> self.pods@
                    =~= before);
                r
            },
        }
    }

    /// `RemoveContainer`: a `Stopped` pod becomes `Removed`; removing a removed pod
    /// changes nothing.
    pub fn remove_container(&mut self, pod: PodId) -> (r: Result<(), Status>)
        requires
            old(self).wf(),
        ensures
            final(self).wf(),
            final(self).next_id() == old(self).next_id(),
            (final(self)@, result_view(r)) == remove_transition(old(self)@, pod),
    {
        broadcast use vstd::std_specs::hash::group_hash_axioms;

        let ghost before = self.pods@;
        match self.pods.remove(&pod) {
            None => Err(Status::internal("remove-container-not-found")),
            Some(mut rec) => {
                let prior = rec.state;
                let r = match prior {
                    PodState::Stopped => {
                        rec.state = PodState::Removed;
                        Ok(())
                    },
                    PodState::Removed => Ok(()),
                    _ => Err(Status::internal("remove-container-bad-state")),
                };
                self.pods.insert(pod, rec);
                assert(prior != PodState::Stopped ==> self.pods@ =~= before);
                r
            },
        }
    }

    /// `StopPodSandbox`: a pod in any state but `Killed` becomes `Killed`. The result
    /// says, when the pod was killed now, whether its server is to be shut down (the
    /// handle is taken); the pod's address is then to be freed. Killing a killed pod
    /// changes nothing.
    pub fn kill_pod(&mut self, pod: PodId) -> (r: Result<Option<bool>, Status>)
        requires
            old(self).wf(),
        ensures
            final(self).wf(),
            final(self).next_id() == old(self).next_id(),
            (final(self)@, result_view(r)) == kill_transition(old(self)@, pod),
    {
        broadcast use vstd::std_specs::hash::group_hash_axioms;

        let ghost before = self.pods@;
        match self.pods.remove(&pod) {
            None => Err(Status::internal("kill-pod-not-found")),
            Some(mut rec) => {
                let prior = rec.state;
                let r = if prior == PodState::Killed {
                    Ok(None)
                } else {
                    let kill_server = rec.has_killer;
                    rec.state = PodState::Killed;
                    rec.has_killer = false;
                    Ok(Some(kill_server))
                };
                self.pods.insert(pod, rec);
                assert(prior == PodState::Killed ==> self.pods@ =~= before);
                r
            },
        }
    }

    /// `RemovePodSandbox`: forget a `Killed` pod. A pod in any other state stays.
    pub fn delete_pod(&mut self, pod: PodId) -> (r: Result<(), Status>)
        requires
            old(self).wf(),
        ensures
            final(self).wf(),
            final(self).next_id() == old(self).next_id(),
            (final(self)@, result_view(r)) == delete_transition(old(self)@, pod),
    {
        broadcast use vstd::std_specs::hash::group_hash_axioms;

        let ghost before = self.pods@;
        match self.pods.remove(&pod) {
            None => Err(Status::internal("delete-pod-not-found")),
            Some(rec) => {
                if rec.state == PodState::Killed {
                    Ok(())
                } else {
                    self.pods.insert(pod, rec);
                    assert(self.pods@ =~= before);
                    Err(Status::internal("delete-pod-bad-state"))
                }
            },
        }
    }
    /// Whether the table holds the pod and it matches a filter (see [`pod_matches`]), on
    /// the labels of its container or of its sandbox.
    pub fn matches(
        &self,
        pod: PodId,
        container_labels: bool,
        expected_labels: &Vec<(String, String)>,
        expected_states: &Vec<PodState>,
    ) -> (r: bool)
        ensures
            r == (self@.contains_key(pod) && pod_matches(
                self@[pod].state,
                filtered_labels(self@[pod], container_labels),
                pairs_view(expected_labels@),
                expected_states@,
            )),
    {
        match self.get(pod) {
            None => false,
            Some(rec) => {
                let labels = if container_labels {
                    &rec.container.labels
                } else {
                    &rec.pod_labels
                };
                matches_pod(rec.state, labels, expected_labels, expected_states)
            },
        }
    }

    /// The IDs of the pods that match a filter (see [`pod_matches`]), judged by the labels
    /// of their container or of their sandbox; each once, in no set order.
    pub fn list(
        &self,
        container_labels: bool,
        expected_labels: &Vec<(String, String)>,
        expected_states: &Vec<PodState>,
    ) -> (ids: Vec<PodId>)
        ensures
            ids@.no_duplicates(),
            forall|id: PodId|
                #![trigger ids@.contains(id)]
                ids@.contains(id) <==> self@.contains_key(id) && pod_matches(
                    self@[id].state,
                    filtered_labels(self@[id], container_labels),
                    pairs_view(expected_labels@),
                    expected_states@,
                ),
    {
        broadcast use vstd::std_specs::hash::group_hash_axioms;

        let ghost m = self.pods@;
        let ghost el = pairs_view(expected_labels@);
        let ghost es = expected_states@;
        let mut ids: Vec<PodId> = Vec::new();
        let ghost entries = self.pods.iter().remaining();
        proof {
            assert(entries.len() == m.dom().len());
        }
        for entry in it: self.pods.iter()
            invariant
                m == self.pods@,
                el == pairs_view(expected_labels@),
                es == expected_states@,
                entries == it.seq(),
                entries.no_duplicates(),
                forall|i: int|
                    0 <= i < entries.len() ==> #[trigger] m.contains_key(*entries[i].0) && m[*entries[i].0]
                        == *entries[i].1,
                forall|k: PodId| #[trigger] m.contains_key(k) ==> entries.contains((&k, &m[k])),
                ids@.no_duplicates(),
                forall|id: PodId|
                    #![trigger ids@.contains(id)]
                    ids@.contains(id) <==> exists|j: int|
                        0 <= j < it.index() && *entries[j].0 == id && pod_matches(
                            m[id].state,
                            filtered_labels(m[id], container_labels),
                            el,
                            es,
                        ),
        {
            let ghost j0 = it.index();
            assert(entry == entries[j0]);
            let (id, rec) = entry;
            let labels = if container_labels {
                &rec.container.labels
            } else {
                &rec.pod_labels
            };
            assert(m.contains_key(*id) && m[*id] == *rec);
            let ghost before = ids@;
            let matched = matches_pod(rec.state, labels, expected_labels, expected_states);
            assert(matched == pod_matches(
                m[*id].state,
                filtered_labels(m[*id], container_labels),
                el,
                es,
            ));
            if matched {
                proof {
                    if ids@.contains(*id) {
                        let j = choose|j: int|
                            0 <= j < j0 && *entries[j].0 == *id && pod_matches(
                                m[*id].state,
                                filtered_labels(m[*id], container_labels),
                                el,
                                es,
                            );
                        assert(m.contains_key(*entries[j].0));
                        assert(entries[j] == entries[j0]);
                    }
                }
                ids.push(*id);
            }
            proof {
                assert forall|x: PodId| #![trigger ids@.contains(x)]
                    ids@.contains(x) <==> exists|j: int|
                        0 <= j < j0 + 1 && *entries[j].0 == x && pod_matches(
                            m[x].state,
                            filtered_labels(m[x], container_labels),
                            el,
                            es,
                        ) by {
                    if x == *id {
                        if matched {
                            assert(ids@[ids@.len() - 1] == x);
                        }
                    } else {
                        if ids@.contains(x) {
                            let a = choose|a: int| 0 <= a < ids@.len() && ids@[a] == x;
                            assert(before[a] == x);
                            assert(before.contains(x));
                        }
                        if before.contains(x) {
                            let a = choose|a: int| 0 <= a < before.len() && before[a] == x;
                            assert(ids@[a] == x);
                        }
                    }
                }
            }
        }
        ids
    }
}

} // verus!
