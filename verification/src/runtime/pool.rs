//! The stack-map behind a pool of pods: a cross between a stack and a hash map, with
//! auto-generated numeric keys.
//!
//! Keys must be reserved before they are used, and each key is handed out once. The
//! stack holds the keys of idle values, the most recently returned on top; it may hold
//! keys whose values were deleted since, which are skipped when the stack is popped.

use std::collections::{HashMap, HashSet};

use vstd::prelude::*;

use crate::text::{decimal_string, push_decimal};

verus! {

/// A numeric key of a pool.
pub type Key = usize;

/// The largest number of values a pool holds: the most permits a Tokio semaphore can
/// count, since each idle value of the pool is one permit of its run queue.
pub const MAX_POOL_SIZE: usize = usize::MAX / 8;

/// Why a pool operation failed.
#[derive(Clone, Copy, Debug, PartialEq, Eq, Structural)]
pub enum PoolError {
    /// The pool already holds as many values as it can.
    PoolFull,
    /// No value was idle although one should have been: the run queue and the stack
    /// disagree.
    SemaphoreCorruption,
    /// The value to delete is not in the pool.
    NotFound,
}

/// The message of a pool error.
pub open spec fn pool_error_message(e: PoolError) -> Seq<char> {
    match e {
        PoolError::PoolFull => "Maximum pool size exceeded: "@ + decimal_string(MAX_POOL_SIZE as nat),
        PoolError::SemaphoreCorruption => "Semaphore corruption in pod poll"@,
        PoolError::NotFound => "Attempted to delete non-existent pod"@,
    }
}

impl PoolError {
    /// The error's message.
    pub fn message(&self) -> (s: String)
        ensures
            s@ == pool_error_message(*self),
    {
        let mut s = String::new();
        match self {
            PoolError::PoolFull => {
                s.append("Maximum pool size exceeded: ");
                push_decimal(&mut s, MAX_POOL_SIZE);
                assert(s@ =~= pool_error_message(*self));
            },
            PoolError::SemaphoreCorruption => {
                s.append("Semaphore corruption in pod poll");
                assert(s@ =~= pool_error_message(*self));
            },
            PoolError::NotFound => {
                s.append("Attempted to delete non-existent pod");
                assert(s@ =~= pool_error_message(*self));
            },
        }
        s
    }
}

/// The model of a stack-map.
pub struct StackMapView<V> {
    /// The next key that has never been reserved; keys start at 1.
    pub next_key: Key,
    /// The keys reserved so far.
    pub reserved: Set<Key>,
    /// The values, by key.
    pub map: Map<Key, V>,
    /// The keys of the idle values, the top last (some may have been deleted since).
    pub stack: Seq<Key>,
}

/// Whether a call took a stack-map from `before` to `after` without handing a key out
/// again: the next key stays or grows, and every key reserved stays reserved.
pub open spec fn keeps_keys<V>(before: StackMapView<V>, after: StackMapView<V>) -> bool {
    &&& before.next_key <= after.next_key
    &&& before.reserved.subset_of(after.reserved)
}

/// Keeping keys is transitive, so it holds across any sequence of calls.
pub proof fn lemma_keeps_keys_transitive<V>(a: StackMapView<V>, b: StackMapView<V>, c: StackMapView<V>)
    requires
        keeps_keys(a, b),
        keeps_keys(b, c),
    ensures
        keeps_keys(a, c),
{
}

/// A cross between a stack and a hash map, with auto-generated numeric keys.
pub struct StackMap<V> {
    next_key: Key,
    reserved: HashSet<Key>,
    map: HashMap<Key, V>,
    stack: Vec<Key>,
}

impl<V> View for StackMap<V> {
    type V = StackMapView<V>;

    closed spec fn view(&self) -> StackMapView<V> {
        StackMapView {
            next_key: self.next_key,
            reserved: self.reserved@,
            map: self.map@,
            stack: self.stack@,
        }
    }
}

impl<V> StackMap<V> {
    /// The stack-map is well formed: the keys reserved are exactly those below the next
    /// key (from 1), and there are never more values or reservations than a pool holds.
    pub open spec fn wf(&self) -> bool {
        &&& self@.next_key >= 1
        &&& self@.reserved.finite()
        &&& self@.reserved.len() == self@.next_key - 1
        &&& forall|k: Key| #[trigger] self@.reserved.contains(k) ==> 1 <= k < self@.next_key
        &&& self@.reserved.len() <= MAX_POOL_SIZE
        &&& self@.map.dom().finite()
        &&& self@.map.dom().len() <= MAX_POOL_SIZE
    }

    /// An empty stack-map, whose first key will be 1.
    pub fn new() -> (s: StackMap<V>)
        ensures
            s.wf(),
            s@.next_key == 1,
            s@.reserved == Set::<Key>::empty(),
            s@.map == Map::<Key, V>::empty(),
            s@.stack == Seq::<Key>::empty(),
    {
        broadcast use vstd::std_specs::hash::group_hash_axioms;

        let s = StackMap {
            stack: Vec::new(),
            reserved: HashSet::new(),
            map: HashMap::new(),
            next_key: 1,
        };
        assert(s@.reserved =~= Set::<Key>::empty());
        s
    }

    /// Reserve a new key: the next one, never handed out before. Fails when the pool
    /// already holds as many values and reservations as it can.
    pub fn reserve(&mut self) -> (r: Result<Key, PoolError>)
        requires
            old(self).wf(),
        ensures
            final(self).wf(),
            keeps_keys(old(self)@, final(self)@),
            final(self)@.map == old(self)@.map,
            final(self)@.stack == old(self)@.stack,
            old(self)@.map.dom().len() + old(self)@.reserved.len() >= MAX_POOL_SIZE ==> {
                &&& r == Err::<Key, PoolError>(PoolError::PoolFull)
                &&& final(self)@.next_key == old(self)@.next_key
                &&& final(self)@.reserved == old(self)@.reserved
            },
            old(self)@.map.dom().len() + old(self)@.reserved.len() < MAX_POOL_SIZE ==> {
                &&& r == Ok::<Key, PoolError>(old(self)@.next_key)
                &&& !old(self)@.reserved.contains(old(self)@.next_key)
                &&& final(self)@.next_key == old(self)@.next_key + 1
                &&& final(self)@.reserved == old(self)@.reserved.insert(old(self)@.next_key)
            },
    {
        broadcast use vstd::std_specs::hash::group_hash_axioms;

        if self.map.len() + self.reserved.len() >= MAX_POOL_SIZE {
            return Err(PoolError::PoolFull);
        }
        let key: Key = self.next_key;
        self.next_key = self.next_key + 1;
        let fresh = self.reserved.insert(key);
        assert(fresh);
        Ok(key)
    }

    /// Take an idle value's key off the stack: the one most recently returned whose value
    /// is still in the map; keys of deleted values on top of it are dropped. Fails when
    /// no idle value is left.
    pub fn acquire_some(&mut self) -> (r: Result<Key, PoolError>)
        requires
            old(self).wf(),
        ensures
            final(self).wf(),
            keeps_keys(old(self)@, final(self)@),
            final(self)@.next_key == old(self)@.next_key,
            final(self)@.reserved == old(self)@.reserved,
            final(self)@.map == old(self)@.map,
            (final(self)@.stack, r) == acquire_from(old(self)@.map, old(self)@.stack),
    {
        broadcast use vstd::std_specs::hash::group_hash_axioms;

        let ghost m = self.map@;
        let ghost s0 = self.stack@;
        loop
            invariant
                self.wf(),
                self@.next_key == old(self)@.next_key,
                self@.reserved == old(self)@.reserved,
                self@.map == m,
                m == old(self)@.map,
                acquire_from(m, self.stack@) == acquire_from(m, s0),
                s0 == old(self)@.stack,
            decreases self.stack@.len(),
        {
            let ghost before = self.stack@;
            match self.stack.pop() {
                Some(key) => {
                    assert(before.drop_last() == self.stack@);
                    if self.map.contains_key(&key) {
                        return Ok(key);
                    }
                },
                None => {
                    return Err(PoolError::SemaphoreCorruption);
                },
            }
        }
    }

    /// Return an acquired key to the top of the stack, making its value idle again.
    pub fn replace(&mut self, key: Key)
        requires
            old(self).wf(),
        ensures
            final(self).wf(),
            keeps_keys(old(self)@, final(self)@),
            final(self)@.next_key == old(self)@.next_key,
            final(self)@.reserved == old(self)@.reserved,
            final(self)@.map == old(self)@.map,
            final(self)@.stack == old(self)@.stack.push(key),
    {
        self.stack.push(key);
    }

    /// The value under a key, if any.
    pub fn get(&self, key: Key) -> (r: Option<&V>)
        ensures
            self@.map.contains_key(key) ==> (r matches Some(v) && *v == self@.map[key]),
            !self@.map.contains_key(key) ==> r is None,
    {
        broadcast use vstd::std_specs::hash::group_hash_axioms;

        self.map.get(&key)
    }

    /// Delete a value, handing it back; its key may stay on the stack. Fails when no value
    /// has the key.
    pub fn delete(&mut self, key: Key) -> (r: Result<V, PoolError>)
        requires
            old(self).wf(),
        ensures
            final(self).wf(),
            keeps_keys(old(self)@, final(self)@),
            final(self)@.next_key == old(self)@.next_key,
            final(self)@.reserved == old(self)@.reserved,
            final(self)@.stack == old(self)@.stack,
            final(self)@.map == old(self)@.map.remove(key),
            old(self)@.map.contains_key(key) ==> r == Ok::<V, PoolError>(old(self)@.map[key]),
            !old(self)@.map.contains_key(key) ==> r == Err::<V, PoolError>(PoolError::NotFound),
    {
        broadcast use vstd::std_specs::hash::group_hash_axioms;

        let ghost m0 = self.map@;
        let r = self.map.remove(&key);
        proof {
            if !m0.contains_key(key) {
                assert(m0.remove(key) =~= m0);
            }
        }
        match r {
            Some(v) => Ok(v),
            None => Err(PoolError::NotFound),
        }
    }
}

/// Popping the stack of a stack-map with the given values: the keys on top whose values
/// were deleted are dropped, and the first key with a value is taken.
pub open spec fn acquire_from<V>(map: Map<Key, V>, stack: Seq<Key>) -> (Seq<Key>, Result<Key, PoolError>)
    decreases stack.len(),
{
    if stack.len() == 0 {
        (stack, Err(PoolError::SemaphoreCorruption))
    } else if map.contains_key(stack.last()) {
        (stack.drop_last(), Ok(stack.last()))
    } else {
        acquire_from(map, stack.drop_last())
    }
}

/// What `acquire_some` takes is the key of a value in the map.
pub proof fn lemma_acquired_key_has_value<V>(map: Map<Key, V>, stack: Seq<Key>)
    ensures
        acquire_from(map, stack).1 matches Ok(key) ==> map.contains_key(key),
        acquire_from(map, stack).0.len() <= stack.len(),
    decreases stack.len(),
{
    if stack.len() > 0 && !map.contains_key(stack.last()) {
        lemma_acquired_key_has_value(map, stack.drop_last());
    }
}

/// Returning a key whose value is in the map and acquiring again gives that key back and
/// restores the stack: the stack is last in, first out.
pub proof fn lemma_replace_then_acquire<V>(map: Map<Key, V>, stack: Seq<Key>, key: Key)
    requires
        map.contains_key(key),
    ensures
        acquire_from(map, stack.push(key)) == (stack, Ok::<Key, PoolError>(key)),
{
    assert(stack.push(key).drop_last() =~= stack);
}

/// Keys grow across calls, so no key is reserved twice: a reservation hands out the next
/// key and moves past it; every call keeps keys (see [`keeps_keys`], which every `&mut`
/// method ensures and which is transitive), so a later reservation hands out a larger key,
/// one not reserved yet.
pub proof fn lemma_reserved_keys_grow<V>(
    before_first: StackMap<V>,
    after_first: StackMap<V>,
    before_second: StackMap<V>,
    k1: Key,
    k2: Key,
)
    requires
        before_first.wf(),
        before_second.wf(),
        k1 == before_first@.next_key,
        after_first@.next_key == before_first@.next_key + 1,
        after_first@.reserved == before_first@.reserved.insert(k1),
        keeps_keys(after_first@, before_second@),
        k2 == before_second@.next_key,
    ensures
        1 <= k1 < k2,
        before_second@.reserved.contains(k1),
        !before_second@.reserved.contains(k2),
{
}

/// The model of a keyed pool.
pub struct KeyedPodPoolView<V> {
    /// The values and keys.
    pub objects: StackMapView<V>,
    /// The permits of the run queue free to take.
    pub permits: nat,
    /// The permits taken by runs in progress.
    pub running: nat,
}

/// A pool of values by key: the stack-map of its values, and the permits of its run
/// queue, which a run takes before it acquires an idle value and gives back after.
pub struct KeyedPodPool<V> {
    objects: StackMap<V>,
    permits: usize,
    running: usize,
}

impl<V> View for KeyedPodPool<V> {
    type V = KeyedPodPoolView<V>;

    closed spec fn view(&self) -> KeyedPodPoolView<V> {
        KeyedPodPoolView {
            objects: self.objects@,
            permits: self.permits as nat,
            running: self.running as nat,
        }
    }
}

impl<V> KeyedPodPool<V> {
    /// The pool is well formed: its stack-map is, and the permits, free or taken, are
    /// no more than a run queue counts.
    pub closed spec fn wf(&self) -> bool {
        &&& self.objects.wf()
        &&& self.permits + self.running <= MAX_POOL_SIZE
    }

    /// An empty pool, with no permit.
    pub fn new() -> (p: KeyedPodPool<V>)
        ensures
            p.wf(),
            p@.objects.next_key == 1,
            p@.objects.reserved == Set::<Key>::empty(),
            p@.objects.map == Map::<Key, V>::empty(),
            p@.objects.stack == Seq::<Key>::empty(),
            p@.permits == 0,
            p@.running == 0,
    {
        KeyedPodPool { objects: StackMap::new(), permits: 0, running: 0 }
    }

    /// Add a new, empty pod to the pool: reserve its key (see [`StackMap::reserve`]).
    pub fn add_pod(&mut self) -> (r: Result<Key, PoolError>)
        requires
            old(self).wf(),
        ensures
            final(self).wf(),
            final(self)@.permits == old(self)@.permits,
            final(self)@.running == old(self)@.running,
            final(self)@.objects.map == old(self)@.objects.map,
            final(self)@.objects.stack == old(self)@.objects.stack,
            keeps_keys(old(self)@.objects, final(self)@.objects),
            old(self)@.objects.map.dom().len() + old(self)@.objects.reserved.len() >= MAX_POOL_SIZE
                ==> {
                &&& r == Err::<Key, PoolError>(PoolError::PoolFull)
                &&& final(self)@.objects == old(self)@.objects
            },
            old(self)@.objects.map.dom().len() + old(self)@.objects.reserved.len() < MAX_POOL_SIZE
                ==> {
                &&& r == Ok::<Key, PoolError>(old(self)@.objects.next_key)
                &&& final(self)@.objects.next_key == old(self)@.objects.next_key + 1
                &&& final(self)@.objects.reserved == old(self)@.objects.reserved.insert(
                    old(self)@.objects.next_key,
                )
            },
    {
        self.objects.reserve()
    }

    /// A run, first step: take a free permit of the run queue, then acquire an idle value
    /// (see [`StackMap::acquire_some`]). `None` when no permit is free: the run waits for
    /// one. When acquiring fails, the permit is given back.
    pub fn begin_run(&mut self) -> (r: Option<Result<Key, PoolError>>)
        requires
            old(self).wf(),
        ensures
            final(self).wf(),
            final(self)@.objects.next_key == old(self)@.objects.next_key,
            final(self)@.objects.reserved == old(self)@.objects.reserved,
            final(self)@.objects.map == old(self)@.objects.map,
            old(self)@.permits == 0 ==> r is None && final(self)@ == old(self)@,
            old(self)@.permits > 0 ==> {
                let (stack, acquired) = acquire_from(old(self)@.objects.map, old(self)@.objects.stack);
                &&& r == Some(acquired)
                &&& final(self)@.objects.stack == stack
                &&& acquired is Ok ==> final(self)@.permits == old(self)@.permits - 1
                    && final(self)@.running == old(self)@.running + 1
                &&& acquired is Err ==> final(self)@.permits == old(self)@.permits
                    && final(self)@.running == old(self)@.running
            },
    {
        if self.permits == 0 {
            return None;
        }
        match self.objects.acquire_some() {
            Ok(key) => {
                self.permits = self.permits - 1;
                self.running = self.running + 1;
                Some(Ok(key))
            },
            Err(e) => Some(Err(e)),
        }
    }

    /// A run, last step: return the value's key to the stack (see [`StackMap::replace`])
    /// and give the run's permit back.
    pub fn end_run(&mut self, key: Key)
        requires
            old(self).wf(),
            old(self)@.running > 0,
        ensures
            final(self).wf(),
            final(self)@.objects.next_key == old(self)@.objects.next_key,
            final(self)@.objects.reserved == old(self)@.objects.reserved,
            final(self)@.objects.map == old(self)@.objects.map,
            final(self)@.objects.stack == old(self)@.objects.stack.push(key),
            final(self)@.permits == old(self)@.permits + 1,
            final(self)@.running == old(self)@.running - 1,
    {
        self.objects.replace(key);
        self.permits = self.permits + 1;
        self.running = self.running - 1;
    }

    /// Delete a value: take a free permit for good, then delete the value (see
    /// [`StackMap::delete`]); when no value has the key, the permit is given back.
    /// `None` when no permit is free: the deletion waits for one.
    pub fn delete(&mut self, key: Key) -> (r: Option<Result<V, PoolError>>)
        requires
            old(self).wf(),
        ensures
            final(self).wf(),
            final(self)@.running == old(self)@.running,
            final(self)@.objects.next_key == old(self)@.objects.next_key,
            final(self)@.objects.reserved == old(self)@.objects.reserved,
            final(self)@.objects.stack == old(self)@.objects.stack,
            old(self)@.permits == 0 ==> r is None && final(self)@ == old(self)@,
            old(self)@.permits > 0 ==> {
                &&& final(self)@.objects.map == old(self)@.objects.map.remove(key)
                &&& old(self)@.objects.map.contains_key(key) ==> r == Some(
                    Ok::<V, PoolError>(old(self)@.objects.map[key]),
                ) && final(self)@.permits == old(self)@.permits - 1
                &&& !old(self)@.objects.map.contains_key(key) ==> r == Some(
                    Err::<V, PoolError>(PoolError::NotFound),
                ) && final(self)@.permits == old(self)@.permits
            },
    {
        if self.permits == 0 {
            return None;
        }
        self.permits = self.permits - 1;
        let result = self.objects.delete(key);
        if result.is_err() {
            self.permits = self.permits + 1;
        }
        Some(result)
    }
}

} // verus!
