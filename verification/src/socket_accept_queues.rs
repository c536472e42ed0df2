//! Accept queues of the process's TCP listeners.
use crate::format::SocketAcceptQueueEvent;
use crate::source::Pacer;
use std::collections::{HashMap, HashSet};
use vstd::prelude::*;
use vstd::string::StrSliceExecFns;

verus! {

broadcast use vstd::std_specs::hash::group_hash_axioms;

/// Default time between samples: one second, in nanoseconds.
pub const DEFAULT_SAMPLE_INTERVAL: u64 = 1_000_000_000;

/// How long to wait for the kernel's reply: 100 milliseconds, in nanoseconds.
pub const NETLINK_RECEIVE_TIMEOUT: u64 = 100_000_000;

/// Configuration for socket accept queue sampling.
///
/// A full scan of the process's file descriptors is costly. While the set of
/// listeners is stable, samples use the cached classification and need none.
/// A listener once classified as foreign stays so while it keeps its identity.
#[derive(Debug, Clone, Copy, PartialEq, Eq, Structural)]
pub struct SocketAcceptQueuesConfig {
    sample_interval: u64,
}

impl Default for SocketAcceptQueuesConfig {
    fn default() -> (r: Self)
        ensures
            r.interval_ns() == DEFAULT_SAMPLE_INTERVAL,
    {
        SocketAcceptQueuesConfig { sample_interval: DEFAULT_SAMPLE_INTERVAL }
    }
}

impl SocketAcceptQueuesConfig {
    pub closed spec fn interval_ns(&self) -> u64 {
        self.sample_interval
    }

    /// A configuration with the given minimum time between samples in
    /// nanoseconds.
    pub fn with_sample_interval(sample_interval: u64) -> (r: Self)
        ensures
            r.interval_ns() == sample_interval,
    {
        SocketAcceptQueuesConfig { sample_interval }
    }

    /// Minimum time between samples, in nanoseconds.
    pub fn sample_interval(&self) -> (r: u64)
        ensures
            r == self.interval_ns(),
    {
        self.sample_interval
    }
}

/// Identity of a kernel socket.
#[derive(Debug, Clone, Copy, PartialEq, Eq, Structural)]
pub struct SocketKey {
    pub inode: u64,
    pub cookie: u64,
}

/// The single number that stands for a key in the cache.
pub open spec fn key_id(key: SocketKey) -> u128 {
    (key.inode * 0x1_0000_0000_0000_0000 + key.cookie) as u128
}

/// Different keys have different numbers.
pub proof fn law_key_ids_are_distinct(a: SocketKey, b: SocketKey)
    ensures
        key_id(a) == key_id(b) ==> a == b,
{
}

impl SocketKey {
    fn id(self) -> (r: u128)
        ensures
            r == key_id(self),
    {
        self.inode as u128 * 0x1_0000_0000_0000_0000 + self.cookie as u128
    }
}

/// Accept queue of one listener.
#[derive(Debug)]
pub struct SocketAcceptQueueSnapshot {
    pub key: SocketKey,
    pub ip_version: u8,
    pub local_addr: String,
    pub local_port: u16,
    pub pending_connections: u32,
    pub backlog_limit: u32,
}

impl SocketAcceptQueueSnapshot {
    /// An equal snapshot.
    pub fn copy(&self) -> (r: Self)
        ensures
            r == *self,
    {
        SocketAcceptQueueSnapshot {
            key: self.key,
            ip_version: self.ip_version,
            local_addr: self.local_addr.clone(),
            local_port: self.local_port,
            pending_connections: self.pending_connections,
            backlog_limit: self.backlog_limit,
        }
    }

    /// The event that records this snapshot.
    pub fn into_event(self, timestamp_ns: u64) -> (r: SocketAcceptQueueEvent)
        ensures
            r == event_of(self, timestamp_ns),
    {
        SocketAcceptQueueEvent {
            timestamp_ns,
            socket_cookie: self.key.cookie,
            socket_inode: self.key.inode,
            ip_version: self.ip_version,
            protocol: crate::sock_diag::IPPROTO_TCP,
            local_addr: self.local_addr,
            local_port: self.local_port,
            pending_connections: self.pending_connections,
            backlog_limit: self.backlog_limit,
        }
    }
}

/// The event that records a snapshot.
pub open spec fn event_of(
    snapshot: SocketAcceptQueueSnapshot,
    timestamp_ns: u64,
) -> SocketAcceptQueueEvent {
    SocketAcceptQueueEvent {
        timestamp_ns,
        socket_cookie: snapshot.key.cookie,
        socket_inode: snapshot.key.inode,
        ip_version: snapshot.ip_version,
        protocol: 6,
        local_addr: snapshot.local_addr,
        local_port: snapshot.local_port,
        pending_connections: snapshot.pending_connections,
        backlog_limit: snapshot.backlog_limit,
    }
}

/// What is known of the listeners seen before.
#[verifier::ext_equal]
pub struct CacheModel {
    /// Listeners of this process, each with the path of its file descriptor.
    pub owned: Map<u128, String>,
    /// Listeners of other processes.
    pub foreign: Set<u128>,
}

impl CacheModel {
    /// No listener is known both as this process's and as another's.
    pub open spec fn separate(self) -> bool {
        self.owned.dom().disjoint(self.foreign)
    }

    /// The cache with only the given listeners left.
    pub open spec fn pruned(self, active: Set<u128>) -> CacheModel {
        CacheModel {
            owned: self.owned.restrict(active),
            foreign: self.foreign.intersect(active),
        }
    }
}

/// Remembers which listeners belong to this process.
#[derive(Debug)]
pub struct SocketAcceptQueueCache {
    owned: HashMap<u128, String>,
    foreign: HashSet<u128>,
}

impl View for SocketAcceptQueueCache {
    type V = CacheModel;

    closed spec fn view(&self) -> CacheModel {
        CacheModel { owned: self.owned@, foreign: self.foreign@ }
    }
}

/// The ids of the first `n` snapshots.
pub open spec fn active_ids(snapshots: Seq<SocketAcceptQueueSnapshot>, n: int) -> Set<u128>
    decreases n,
{
    if n <= 0 {
        Set::empty()
    } else {
        active_ids(snapshots, n - 1).insert(key_id(snapshots[n - 1].key))
    }
}

/// The inodes of the first `n` snapshots.
pub open spec fn inodes(snapshots: Seq<SocketAcceptQueueSnapshot>, n: int) -> Set<u64>
    decreases n,
{
    if n <= 0 {
        Set::empty()
    } else {
        inodes(snapshots, n - 1).insert(snapshots[n - 1].key.inode)
    }
}

impl SocketAcceptQueueCache {
    /// A cache that knows no listener.
    pub fn new() -> (r: Self)
        ensures
            r@ == (CacheModel { owned: Map::empty(), foreign: Set::empty() }),
    {
        SocketAcceptQueueCache { owned: HashMap::new(), foreign: HashSet::new() }
    }

    /// Remembers a listener of this process.
    pub fn insert_owned(&mut self, key: SocketKey, fd_path: String)
        ensures
            final(self)@ == (CacheModel {
                owned: old(self)@.owned.insert(key_id(key), fd_path),
                ..old(self)@
            }),
    {
        self.owned.insert(key.id(), fd_path);
    }

    /// Remembers a listener of another process.
    pub fn insert_foreign(&mut self, key: SocketKey)
        ensures
            final(self)@ == (CacheModel {
                foreign: old(self)@.foreign.insert(key_id(key)),
                ..old(self)@
            }),
    {
        self.foreign.insert(key.id());
    }

    /// The path of the listener's file descriptor, if it is known to be this
    /// process's.
    pub fn owned(&self, key: SocketKey) -> (r: Option<&String>)
        ensures
            r == (if self@.owned.contains_key(key_id(key)) {
                Some(&self@.owned[key_id(key)])
            } else {
                None
            }),
    {
        self.owned.get(&key.id())
    }

    /// Whether the listener is known to be another process's.
    pub fn is_foreign(&self, key: SocketKey) -> (r: bool)
        ensures
            r == self@.foreign.contains(key_id(key)),
    {
        self.foreign.contains(&key.id())
    }

    /// Forgets all listeners but those of the given snapshots.
    pub fn prune(&mut self, snapshots: &Vec<SocketAcceptQueueSnapshot>)
        ensures
            final(self)@ == old(self)@.pruned(active_ids(snapshots@, snapshots@.len() as int)),
    {
        let mut owned: HashMap<u128, String> = HashMap::new();
        let mut foreign: HashSet<u128> = HashSet::new();
        let mut i: usize = 0;
        while i < snapshots.len()
            invariant
                i <= snapshots@.len(),
                owned@ == old(self)@.owned.restrict(active_ids(snapshots@, i as int)),
                foreign@ == old(self)@.foreign.intersect(active_ids(snapshots@, i as int)),
                self.owned@ == old(self)@.owned.remove_keys(active_ids(snapshots@, i as int)),
                self.foreign@ == old(self)@.foreign,
            decreases snapshots@.len() - i,
        {
            let id: u128 = snapshots[i].key.id();
            if self.foreign.contains(&id) {
                foreign.insert(id);
            }
            if let Some(fd_path) = self.owned.remove(&id) {
                owned.insert(id, fd_path);
            }
            i = i + 1;
            assert(owned@ =~= old(self)@.owned.restrict(active_ids(snapshots@, i as int)));
            assert(foreign@ =~= old(self)@.foreign.intersect(active_ids(snapshots@, i as int)));
            assert(self.owned@ =~= old(self)@.owned.remove_keys(active_ids(snapshots@, i as int)));
        }
        self.owned = owned;
        self.foreign = foreign;
    }
}

/// The listeners after the first look: what the cache still owns, which
/// snapshots are this process's, and which are not classified.
#[verifier::ext_equal]
pub struct FirstLook {
    pub owned: Map<u128, String>,
    pub kept: Seq<SocketAcceptQueueSnapshot>,
    pub unknown: Seq<SocketAcceptQueueSnapshot>,
}

/// The first look at the first `n` snapshots. A listener that the cache owns
/// is kept if its file descriptor still has its inode, and is forgotten
/// otherwise; `reads` holds, by snapshot, the inode that was read. A foreign
/// listener is dropped. Any other is unknown.
pub open spec fn first_look(
    snapshots: Seq<SocketAcceptQueueSnapshot>,
    n: int,
    cache: CacheModel,
    reads: Seq<Option<u64>>,
) -> FirstLook
    decreases n,
{
    if n <= 0 {
        FirstLook { owned: cache.owned, kept: Seq::empty(), unknown: Seq::empty() }
    } else {
        let before = first_look(snapshots, n - 1, cache, reads);
        let snapshot = snapshots[n - 1];
        let id = key_id(snapshot.key);
        if before.owned.contains_key(id) && reads[n - 1] == Some(snapshot.key.inode) {
            FirstLook { kept: before.kept.push(snapshot), ..before }
        } else if cache.foreign.contains(id) {
            FirstLook { owned: before.owned.remove(id), ..before }
        } else {
            FirstLook {
                owned: before.owned.remove(id),
                unknown: before.unknown.push(snapshot),
                ..before
            }
        }
    }
}

/// The cache and the kept snapshots after the first `n` unknown snapshots were
/// looked up among the file descriptors that a scan found.
pub open spec fn second_look(
    unknown: Seq<SocketAcceptQueueSnapshot>,
    n: int,
    cache: CacheModel,
    kept: Seq<SocketAcceptQueueSnapshot>,
    found: Map<u64, String>,
) -> (CacheModel, Seq<SocketAcceptQueueSnapshot>)
    decreases n,
{
    if n <= 0 {
        (cache, kept)
    } else {
        let (before, kept_before) = second_look(unknown, n - 1, cache, kept, found);
        let snapshot = unknown[n - 1];
        let id = key_id(snapshot.key);
        if found.contains_key(snapshot.key.inode) {
            (
                CacheModel { owned: before.owned.insert(id, found[snapshot.key.inode]), ..before },
                kept_before.push(snapshot),
            )
        } else {
            (CacheModel { foreign: before.foreign.insert(id), ..before }, kept_before)
        }
    }
}

/// The first look at snapshot `i` read the file descriptor of a listener that
/// the cache owns, with this outcome.
pub open spec fn fd_read<E, R: Fn(&String) -> Result<Option<u64>, E>>(
    read: R,
    snapshots: Seq<SocketAcceptQueueSnapshot>,
    i: int,
    cache: CacheModel,
    reads: Seq<Option<u64>>,
    outcome: Result<Option<u64>, E>,
) -> bool {
    call_ensures(
        read,
        (&first_look(snapshots, i, cache, reads).owned[key_id(snapshots[i].key)],),
        outcome,
    )
}

/// Every entry of `reads` that matters is what reading the file descriptor
/// gave.
pub open spec fn reads_hold<E, R: Fn(&String) -> Result<Option<u64>, E>>(
    read: R,
    snapshots: Seq<SocketAcceptQueueSnapshot>,
    cache: CacheModel,
    reads: Seq<Option<u64>>,
) -> bool {
    forall|i: int| #![trigger reads[i]]
        0 <= i < reads.len() && first_look(snapshots, i, cache, reads).owned.contains_key(
            key_id(snapshots[i].key),
        ) ==> fd_read(read, snapshots, i, cache, reads, Ok(reads[i]))
}

/// Reading a file descriptor can be asked for the paths in the cache; no other
/// is read.
pub open spec fn may_read<E, R: Fn(&String) -> Result<Option<u64>, E>>(
    read: R,
    cache: CacheModel,
) -> bool {
    forall|path: &String, id: u128|
        #![trigger call_requires(read, (path,)), cache.owned.contains_key(id)]
        cache.owned.contains_key(id) && cache.owned[id] == *path ==> call_requires(read, (path,))
}

/// A scan can be asked for the inodes of the unknown listeners, whatever the
/// reads gave, if there is one; no other scan is made.
pub open spec fn may_scan<E, R, S>(
    read: R,
    scan: S,
    snapshots: Seq<SocketAcceptQueueSnapshot>,
    cache: CacheModel,
) -> bool where
    R: Fn(&String) -> Result<Option<u64>, E>,
    S: FnOnce(&HashSet<u64>) -> Result<HashMap<u64, String>, E>,
 {
    forall|targets: &HashSet<u64>, reads: Seq<Option<u64>>|
        #![trigger
            call_requires(scan, (targets,)),
            reads_hold(read, snapshots, cache, reads)]
        {
            let unknown = first_look(snapshots, snapshots.len() as int, cache, reads).unknown;
            &&& reads.len() == snapshots.len()
            &&& reads_hold(read, snapshots, cache, reads)
            &&& unknown.len() > 0
            &&& targets@ == inodes(unknown, unknown.len() as int)
        } ==> call_requires(scan, (targets,))
}

/// What classifying the snapshots gives, from a pruned cache and what reading
/// file descriptors gave.
///
/// A scan is made only if some listener is unknown, once, and for exactly the
/// inodes of the unknown ones. A failed read or scan is returned as it is; the
/// cache then holds what was known at that point.
pub open spec fn classified<E, R, S>(
    read: R,
    scan: S,
    snapshots: Seq<SocketAcceptQueueSnapshot>,
    cache: CacheModel,
    reads: Seq<Option<u64>>,
    after: CacheModel,
    r: Result<Vec<SocketAcceptQueueSnapshot>, E>,
) -> bool where
    R: Fn(&String) -> Result<Option<u64>, E>,
    S: FnOnce(&HashSet<u64>) -> Result<HashMap<u64, String>, E>,
 {
    let n = reads.len() as int;
    let look = first_look(snapshots, n, cache, reads);
    let looked = CacheModel { owned: look.owned, foreign: cache.foreign };
    &&& n <= snapshots.len()
    &&& reads_hold(read, snapshots, cache, reads)
    &&& if n < snapshots.len() {
        &&& r is Err
        &&& look.owned.contains_key(key_id(snapshots[n].key))
        &&& fd_read(read, snapshots, n, cache, reads, Err(r->Err_0))
        &&& after == looked
    } else if look.unknown.len() == 0 {
        &&& r is Ok
        &&& r->Ok_0@ == look.kept
        &&& after == looked
    } else {
        exists|targets: &HashSet<u64>, scanned: Result<HashMap<u64, String>, E>| #[trigger]
            call_ensures(scan, (targets,), scanned) && targets@ == inodes(
                look.unknown,
                look.unknown.len() as int,
            ) && match scanned {
                Err(e) => r == Err::<Vec<SocketAcceptQueueSnapshot>, E>(e) && after == looked,
                Ok(found) => r is Ok && (after, r->Ok_0@) == second_look(
                    look.unknown,
                    look.unknown.len() as int,
                    looked,
                    look.kept,
                    found@,
                ),
            }
    }
}

/// Sorts out which of the listeners in the kernel's reply are this process's.
///
/// Listeners that the cache knows are not looked up again, but for a check
/// that the file descriptor still refers to them. Only if some listener is
/// unknown are the process's file descriptors scanned.
pub fn classify_process_listeners<E, R, S>(
    snapshots: Vec<SocketAcceptQueueSnapshot>,
    cache: &mut SocketAcceptQueueCache,
    read_fd_inode: R,
    scan_socket_fds: S,
) -> (r: Result<Vec<SocketAcceptQueueSnapshot>, E>) where
    R: Fn(&String) -> Result<Option<u64>, E>,
    S: FnOnce(&HashSet<u64>) -> Result<HashMap<u64, String>, E>,

    requires
        may_read(
            read_fd_inode,
            old(cache)@.pruned(active_ids(snapshots@, snapshots@.len() as int)),
        ),
        may_scan(
            read_fd_inode,
            scan_socket_fds,
            snapshots@,
            old(cache)@.pruned(active_ids(snapshots@, snapshots@.len() as int)),
        ),
    ensures
        exists|reads: Seq<Option<u64>>| #[trigger]
            classified(
                read_fd_inode,
                scan_socket_fds,
                snapshots@,
                old(cache)@.pruned(active_ids(snapshots@, snapshots@.len() as int)),
                reads,
                final(cache)@,
                r,
            ),
{
    cache.prune(&snapshots);
    let ghost pruned = cache@;
    let ghost mut reads: Seq<Option<u64>> = Seq::empty();
    let mut kept: Vec<SocketAcceptQueueSnapshot> = Vec::new();
    let mut unknown: Vec<SocketAcceptQueueSnapshot> = Vec::new();
    let mut unknown_inodes: HashSet<u64> = HashSet::new();
    let mut i: usize = 0;
    while i < snapshots.len()
        invariant
            i <= snapshots@.len(),
            reads.len() == i,
            pruned == old(cache)@.pruned(active_ids(snapshots@, snapshots@.len() as int)),
            may_read(read_fd_inode, pruned),
            cache@ == (CacheModel {
                owned: first_look(snapshots@, i as int, pruned, reads).owned,
                foreign: pruned.foreign,
            }),
            kept@ == first_look(snapshots@, i as int, pruned, reads).kept,
            unknown@ == first_look(snapshots@, i as int, pruned, reads).unknown,
            unknown_inodes@ == inodes(unknown@, unknown@.len() as int),
            reads_hold(read_fd_inode, snapshots@, pruned, reads),
        decreases snapshots@.len() - i,
    {
        let key: SocketKey = snapshots[i].key;
        let ghost reads_before = reads;
        let ghost look = first_look(snapshots@, i as int, pruned, reads);
        let owned: bool;
        let mut inode: Option<u64> = None;
        proof {
            lemma_first_look_only_forgets(snapshots@, i as int, pruned, reads);
        }
        match cache.owned(key) {
            Some(fd_path) => {
                owned = true;
                match read_fd_inode(fd_path) {
                    Ok(value) => {
                        inode = value;
                    },
                    Err(e) => {
                        let r: Result<Vec<SocketAcceptQueueSnapshot>, E> = Err(e);
                        assert(classified(
                            read_fd_inode,
                            scan_socket_fds,
                            snapshots@,
                            pruned,
                            reads,
                            cache@,
                            r,
                        ));
                        return r;
                    },
                }
            },
            None => {
                owned = false;
            },
        }
        proof {
            reads = reads.push(inode);
            lemma_first_look_agrees(snapshots@, i as int, pruned, reads_before, reads);
            assert forall|j: int| #![trigger reads[j]]
                0 <= j < reads.len() && first_look(snapshots@, j, pruned, reads).owned.contains_key(
                    key_id(snapshots@[j].key),
                ) implies fd_read(read_fd_inode, snapshots@, j, pruned, reads, Ok(reads[j])) by {
                lemma_first_look_agrees(snapshots@, j, pruned, reads_before, reads);
                if j < i {
                    assert(reads[j] == reads_before[j]);
                }
            }
        }
        if owned && inode == Some(key.inode) {
            kept.push(snapshots[i].copy());
        } else {
            cache.owned.remove(&key.id());
            assert(look.owned.remove(key_id(key)) =~= cache@.owned);
            if !cache.is_foreign(key) {
                unknown_inodes.insert(key.inode);
                let ghost unknown_before = unknown@;
                unknown.push(snapshots[i].copy());
                proof {
                    lemma_inodes_agree(unknown_before, unknown@, unknown_before.len() as int);
                }
            }
        }
        i = i + 1;
    }
    if unknown.len() == 0 {
        let r: Result<Vec<SocketAcceptQueueSnapshot>, E> = Ok(kept);
        assert(classified(
            read_fd_inode,
            scan_socket_fds,
            snapshots@,
            pruned,
            reads,
            cache@,
            r,
        ));
        return r;
    }
    let ghost looked = cache@;
    let ghost kept_looked = kept@;
    assert(may_scan(read_fd_inode, scan_socket_fds, snapshots@, pruned));
    assert(reads_hold(read_fd_inode, snapshots@, pruned, reads));
    let found: HashMap<u64, String> = match scan_socket_fds(&unknown_inodes) {
        Ok(found) => found,
        Err(e) => {
            let r: Result<Vec<SocketAcceptQueueSnapshot>, E> = Err(e);
            assert(classified(
                read_fd_inode,
                scan_socket_fds,
                snapshots@,
                pruned,
                reads,
                cache@,
                r,
            ));
            return r;
        },
    };
    let mut j: usize = 0;
    while j < unknown.len()
        invariant
            j <= unknown@.len(),
            (cache@, kept@) == second_look(unknown@, j as int, looked, kept_looked, found@),
        decreases unknown@.len() - j,
    {
        let key: SocketKey = unknown[j].key;
        match found.get(&key.inode) {
            Some(fd_path) => {
                cache.insert_owned(key, fd_path.clone());
                kept.push(unknown[j].copy());
            },
            None => {
                cache.insert_foreign(key);
            },
        }
        j = j + 1;
    }
    let r: Result<Vec<SocketAcceptQueueSnapshot>, E> = Ok(kept);
    assert(classified(read_fd_inode, scan_socket_fds, snapshots@, pruned, reads, cache@, r));
    r
}

proof fn lemma_first_look_only_forgets(
    snapshots: Seq<SocketAcceptQueueSnapshot>,
    n: int,
    cache: CacheModel,
    reads: Seq<Option<u64>>,
)
    ensures
        first_look(snapshots, n, cache, reads).owned.submap_of(cache.owned),
    decreases n,
{
    if n > 0 {
        lemma_first_look_only_forgets(snapshots, n - 1, cache, reads);
    }
}

proof fn lemma_first_look_agrees(
    snapshots: Seq<SocketAcceptQueueSnapshot>,
    n: int,
    cache: CacheModel,
    a: Seq<Option<u64>>,
    b: Seq<Option<u64>>,
)
    requires
        n <= a.len(),
        n <= b.len(),
        forall|i: int| 0 <= i < n ==> #[trigger] a[i] == b[i],
    ensures
        first_look(snapshots, n, cache, a) == first_look(snapshots, n, cache, b),
    decreases n,
{
    if n > 0 {
        lemma_first_look_agrees(snapshots, n - 1, cache, a, b);
        assert(a[n - 1] == b[n - 1]);
    }
}

proof fn lemma_inodes_agree(
    a: Seq<SocketAcceptQueueSnapshot>,
    b: Seq<SocketAcceptQueueSnapshot>,
    n: int,
)
    requires
        n <= a.len(),
        n <= b.len(),
        forall|i: int| 0 <= i < n ==> #[trigger] a[i] == b[i],
    ensures
        inodes(a, n) == inodes(b, n),
    decreases n,
{
    if n > 0 {
        lemma_inodes_agree(a, b, n - 1);
        assert(a[n - 1] == b[n - 1]);
    }
}

/// Known listeners need no scan: if each listener is owned and its file
/// descriptor still refers to it, or is foreign and not owned, none is
/// unknown.
pub proof fn law_known_listeners_need_no_scan(
    snapshots: Seq<SocketAcceptQueueSnapshot>,
    cache: CacheModel,
    reads: Seq<Option<u64>>,
    n: int,
)
    requires
        0 <= n <= snapshots.len(),
        reads.len() == snapshots.len(),
        forall|i: int| #![trigger snapshots[i]]
            0 <= i < snapshots.len() ==> {
                ||| cache.owned.contains_key(key_id(snapshots[i].key)) && reads[i] == Some(
                    snapshots[i].key.inode,
                )
                ||| cache.foreign.contains(key_id(snapshots[i].key))
                    && !cache.owned.contains_key(key_id(snapshots[i].key))
            },
    ensures
        first_look(snapshots, n, cache, reads).unknown.len() == 0,
        first_look(snapshots, n, cache, reads).owned == cache.owned,
    decreases n,
{
    if n > 0 {
        law_known_listeners_need_no_scan(snapshots, cache, reads, n - 1);
        let id = key_id(snapshots[n - 1].key);
        assert(!cache.owned.contains_key(id) ==> cache.owned.remove(id) =~= cache.owned);
    }
}

/// Pruning leaves nothing but listeners in the kernel's reply.
pub proof fn law_pruning_keeps_only_active_listeners(cache: CacheModel, active: Set<u128>, id: u128)
    ensures
        cache.pruned(active).owned.contains_key(id) <==> cache.owned.contains_key(id)
            && active.contains(id),
        cache.pruned(active).foreign.contains(id) <==> cache.foreign.contains(id)
            && active.contains(id),
        active.contains(id) && cache.owned.contains_key(id) ==> cache.pruned(active).owned[id]
            == cache.owned[id],
{
}

/// After a successful scan every unknown listener is classified: owned with
/// the path that the scan found for its inode, or foreign.
pub proof fn law_a_scan_classifies_every_unknown_listener(
    unknown: Seq<SocketAcceptQueueSnapshot>,
    n: int,
    cache: CacheModel,
    kept: Seq<SocketAcceptQueueSnapshot>,
    found: Map<u64, String>,
    i: int,
)
    requires
        0 <= i < n <= unknown.len(),
    ensures
        ({
            let after = second_look(unknown, n, cache, kept, found).0;
            let id = key_id(unknown[i].key);
            if found.contains_key(unknown[i].key.inode) {
                after.owned.contains_key(id) && after.owned[id] == found[unknown[i].key.inode]
            } else {
                after.foreign.contains(id)
            }
        }),
    decreases n,
{
    if i < n - 1 {
        law_a_scan_classifies_every_unknown_listener(unknown, n - 1, cache, kept, found, i);
        law_key_ids_are_distinct(unknown[i].key, unknown[n - 1].key);
    }
}

/// What kind of target a file descriptor has.
#[derive(Debug, Clone, Copy, PartialEq, Eq, Structural)]
pub enum InodeError {
    /// The target names a socket, but with no valid inode number.
    InvalidInode,
}

/// The text between the brackets of a socket's name.
pub open spec fn socket_name(target: Seq<char>) -> Option<Seq<char>> {
    let prefix = "socket:["@;
    if prefix.len() < target.len() && prefix.is_prefix_of(target) && target.last() == ']' {
        Some(target.subrange(prefix.len() as int, target.len() - 1))
    } else {
        None
    }
}

/// The inode of the socket that a file descriptor's link names. Nothing if it
/// names something else.
pub fn parse_socket_inode(target: &str) -> (r: Result<Option<u64>, InodeError>)
    ensures
        r == (match socket_name(target@) {
            None => Ok::<Option<u64>, InodeError>(None),
            Some(name) => match crate::text::number_of(name) {
                Some(inode) => Ok::<Option<u64>, InodeError>(Some(inode)),
                None => Err::<Option<u64>, InodeError>(InodeError::InvalidInode),
            },
        }),
{
    let prefix: &str = "socket:[";
    let prefix_len: usize = prefix.unicode_len();
    let len: usize = target.unicode_len();
    if len <= prefix_len {
        return Ok(None);
    }
    let mut i: usize = 0;
    while i < prefix_len
        invariant
            i <= prefix_len < len,
            prefix_len == prefix@.len(),
            len == target@.len(),
            prefix@ == "socket:["@,
            forall|k: int| 0 <= k < i ==> prefix@[k] == #[trigger] target@[k],
        decreases prefix_len - i,
    {
        if prefix.get_char(i) != target.get_char(i) {
            assert(prefix@[i as int] != target@[i as int]);
            assert(!prefix@.is_prefix_of(target@));
            return Ok(None);
        }
        i = i + 1;
    }
    assert(prefix@.is_prefix_of(target@)) by {
        assert(prefix@ =~= target@.subrange(0, prefix@.len() as int));
    }
    if target.get_char(len - 1) != ']' {
        return Ok(None);
    }
    match crate::text::parse_number(target, prefix_len, len - 1) {
        Some(inode) => Ok(Some(inode)),
        None => Err(InodeError::InvalidInode),
    }
}

/// The file descriptors that a scan found, after one more was looked at.
pub open spec fn found_after(
    targets: Set<u64>,
    found: Map<u64, String>,
    inode: Option<u64>,
    path: String,
) -> Map<u64, String> {
    match inode {
        Some(inode) if targets.contains(inode) && !found.contains_key(inode) => found.insert(
            inode,
            path,
        ),
        _ => found,
    }
}

/// Looks for the file descriptors of given sockets. The first file descriptor
/// of a socket counts.
#[derive(Debug)]
pub struct FdScan {
    targets: HashSet<u64>,
    found: HashMap<u64, String>,
}

impl FdScan {
    pub closed spec fn targets(&self) -> Set<u64> {
        self.targets@
    }

    pub closed spec fn found(&self) -> Map<u64, String> {
        self.found@
    }

    pub fn new(targets: HashSet<u64>) -> (r: Self)
        ensures
            r.targets() == targets@,
            r.found() == Map::<u64, String>::empty(),
    {
        FdScan { targets, found: HashMap::new() }
    }

    /// Whether a file descriptor was found for as many sockets as are looked
    /// for, so that no more need be looked at.
    pub fn is_complete(&self) -> (r: bool)
        ensures
            r == (self.found().dom().len() == self.targets().len()),
    {
        self.found.len() == self.targets.len()
    }

    /// Looks at one file descriptor, given by its path and the socket inode
    /// that it refers to.
    pub fn look_at(&mut self, path: String, inode: Option<u64>)
        ensures
            final(self).targets() == old(self).targets(),
            final(self).found() == found_after(
                old(self).targets(),
                old(self).found(),
                inode,
                path,
            ),
    {
        if let Some(inode) = inode {
            if self.targets.contains(&inode) && !self.found.contains_key(&inode) {
                self.found.insert(inode, path);
            }
        }
    }

    /// The file descriptors found, by inode.
    pub fn into_found(self) -> (r: HashMap<u64, String>)
        ensures
            r@ == self.found(),
    {
        self.found
    }
}

/// A scan finds only sockets that are looked for, and never replaces the file
/// descriptor that it found first.
pub proof fn law_a_scan_keeps_the_first_descriptor(
    targets: Set<u64>,
    found: Map<u64, String>,
    inode: Option<u64>,
    path: String,
)
    requires
        found.dom().subset_of(targets),
    ensures
        found_after(targets, found, inode, path).dom().subset_of(targets),
        forall|k: u64| #[trigger]
            found.contains_key(k) ==> found_after(targets, found, inode, path).contains_key(k)
                && found_after(targets, found, inode, path)[k] == found[k],
{
}

/// What polling the source gives.
#[derive(Debug)]
pub enum QueuesFlush<E> {
    /// The interval has not passed.
    Skipped,
    /// The events to record.
    Events(Vec<SocketAcceptQueueEvent>),
    /// The listeners could not be read.
    Failed(E),
}

/// The events that record the snapshots.
pub open spec fn events_of(
    snapshots: Seq<SocketAcceptQueueSnapshot>,
    timestamp_ns: u64,
) -> Seq<SocketAcceptQueueEvent> {
    Seq::new(snapshots.len(), |i: int| event_of(snapshots[i], timestamp_ns))
}

/// Samples the accept queues of the process's listeners, at most once per
/// interval.
#[derive(Debug)]
pub struct SocketAcceptQueuesSource {
    pacer: Pacer,
    cache: SocketAcceptQueueCache,
}

impl SocketAcceptQueuesSource {
    pub closed spec fn pacing(&self) -> Pacer {
        self.pacer
    }

    pub closed spec fn cache(&self) -> SocketAcceptQueueCache {
        self.cache
    }

    pub fn new(config: SocketAcceptQueuesConfig) -> (r: Self)
        ensures
            r.pacing() == (Pacer { interval_ns: config.interval_ns(), last_run_ns: None }),
            r.cache()@ == (CacheModel { owned: Map::empty(), foreign: Set::empty() }),
    {
        SocketAcceptQueuesSource {
            pacer: Pacer::new(config.sample_interval),
            cache: SocketAcceptQueueCache::new(),
        }
    }

    /// Polls the source at `now`: if a sample is due, collects the snapshots
    /// with the source's cache and returns the events that record them.
    pub fn flush<E, F>(&mut self, now: u64, timestamp_ns: u64, collect: F) -> (r: QueuesFlush<
        E,
    >) where
        F: FnOnce(&mut SocketAcceptQueueCache) -> Result<Vec<SocketAcceptQueueSnapshot>, E>,

        requires
            old(self).pacing().due(now) ==> forall|cache: &mut SocketAcceptQueueCache|
                *cache == old(self).cache() ==> #[trigger] call_requires(collect, (cache,)),
        ensures
            final(self).pacing() == old(self).pacing().polled(now),
            !old(self).pacing().due(now) ==> r == QueuesFlush::<E>::Skipped && final(self).cache()
                == old(self).cache(),
            old(self).pacing().due(now) ==> exists|
                cache: &mut SocketAcceptQueueCache,
                collected: Result<Vec<SocketAcceptQueueSnapshot>, E>,
            | #[trigger]
                call_ensures(collect, (cache,), collected) && *cache == old(self).cache()
                    && *final(cache) == final(self).cache() && match collected {
                    Ok(snapshots) => r matches QueuesFlush::Events(events) && events@ == events_of(
                        snapshots@,
                        timestamp_ns,
                    ),
                    Err(e) => r == QueuesFlush::<E>::Failed(e),
                },
    {
        if !self.pacer.poll(now) {
            return QueuesFlush::Skipped;
        }
        match collect(&mut self.cache) {
            Ok(snapshots) => {
                let mut events: Vec<SocketAcceptQueueEvent> = Vec::new();
                let mut i: usize = 0;
                while i < snapshots.len()
                    invariant
                        i <= snapshots@.len(),
                        events@ =~= events_of(snapshots@.take(i as int), timestamp_ns),
                    decreases snapshots@.len() - i,
                {
                    events.push(snapshots[i].copy().into_event(timestamp_ns));
                    i = i + 1;
                }
                assert(snapshots@.take(i as int) =~= snapshots@);
                QueuesFlush::Events(events)
            },
            Err(e) => QueuesFlush::Failed(e),
        }
    }

    /// Diagnostic name.
    pub fn name(&self) -> (r: &'static str)
        ensures
            r@ == "socket_accept_queues"@,
    {
        "socket_accept_queues"
    }
}

/// Some of the first `n` listeners has this number.
pub open spec fn lists_id(snapshots: Seq<SocketAcceptQueueSnapshot>, n: int, id: u128) -> bool {
    exists|i: int| 0 <= i < n && key_id((#[trigger] snapshots[i]).key) == id
}

/// No two snapshots are of the same listener.
pub open spec fn distinct_listeners(snapshots: Seq<SocketAcceptQueueSnapshot>) -> bool {
    forall|i: int, j: int|
        0 <= i < j < snapshots.len() ==> (#[trigger] snapshots[i]).key != (
        #[trigger] snapshots[j]).key
}

proof fn lemma_active_ids(snapshots: Seq<SocketAcceptQueueSnapshot>, n: int, id: u128)
    requires
        0 <= n <= snapshots.len(),
    ensures
        active_ids(snapshots, n).contains(id) <==> lists_id(snapshots, n, id),
    decreases n,
{
    if n > 0 {
        lemma_active_ids(snapshots, n - 1, id);
        if lists_id(snapshots, n - 1, id) {
            let i = choose|i: int| 0 <= i < n - 1 && key_id((#[trigger] snapshots[i]).key) == id;
            assert(0 <= i < n && key_id(snapshots[i].key) == id);
        }
        if key_id(snapshots[n - 1].key) == id {
            assert(lists_id(snapshots, n, id));
        }
    }
}

/// What the first look says of each of the first `n` listeners.
spec fn sorted_out(
    snapshots: Seq<SocketAcceptQueueSnapshot>,
    n: int,
    cache: CacheModel,
    look: FirstLook,
) -> bool {
    &&& forall|j: int|
        0 <= j < look.unknown.len() ==> {
            let id = key_id((#[trigger] look.unknown[j]).key);
            !look.owned.contains_key(id) && !cache.foreign.contains(id) && snapshots.take(
                n,
            ).contains(look.unknown[j])
        }
    &&& forall|j: int|
        0 <= j < look.kept.len() ==> snapshots.take(n).contains(#[trigger] look.kept[j]) && (
        distinct_listeners(snapshots) ==> look.owned.contains_key(key_id(look.kept[j].key)))
    &&& forall|i: int|
        0 <= i < n ==> {
            let id = key_id((#[trigger] snapshots[i]).key);
            &&& cache.foreign.contains(id) || look.kept.contains(snapshots[i])
                || look.unknown.contains(snapshots[i])
            &&& cache.foreign.contains(id) || look.owned.contains_key(id) || lists_id(
                look.unknown,
                look.unknown.len() as int,
                id,
            )
        }
}

proof fn lemma_pushed<T>(items: Seq<T>, item: T)
    ensures
        items.push(item).contains(item),
        forall|other: T| items.contains(other) ==> #[trigger] items.push(item).contains(other),
{
    assert(items.push(item)[items.len() as int] == item);
    assert forall|other: T| items.contains(other) implies #[trigger] items.push(item).contains(
        other,
    ) by {
        let k = choose|k: int| 0 <= k < items.len() && items[k] == other;
        assert(items.push(item)[k] == other);
    }
}

proof fn lemma_first_look_sorts_out(
    snapshots: Seq<SocketAcceptQueueSnapshot>,
    n: int,
    cache: CacheModel,
    reads: Seq<Option<u64>>,
)
    requires
        0 <= n <= snapshots.len(),
        cache.separate(),
    ensures
        sorted_out(snapshots, n, cache, first_look(snapshots, n, cache, reads)),
    decreases n,
{
    let look = first_look(snapshots, n, cache, reads);
    if n > 0 {
        lemma_first_look_sorts_out(snapshots, n - 1, cache, reads);
        lemma_first_look_only_forgets(snapshots, n - 1, cache, reads);
        let before = first_look(snapshots, n - 1, cache, reads);
        let last = snapshots[n - 1];
        let id = key_id(last.key);
        assert(snapshots.take(n) =~= snapshots.take(n - 1).push(last));
        lemma_pushed(snapshots.take(n - 1), last);
        lemma_pushed(before.kept, last);
        lemma_pushed(before.unknown, last);
        assert forall|j: int| 0 <= j < look.unknown.len() implies {
            let id = key_id((#[trigger] look.unknown[j]).key);
            !look.owned.contains_key(id) && !cache.foreign.contains(id) && snapshots.take(
                n,
            ).contains(look.unknown[j])
        } by {
            if j < before.unknown.len() {
                assert(look.unknown[j] == before.unknown[j]);
            }
        }
        assert forall|j: int| 0 <= j < look.kept.len() implies snapshots.take(n).contains(
            #[trigger] look.kept[j],
        ) && (distinct_listeners(snapshots) ==> look.owned.contains_key(
            key_id(look.kept[j].key),
        )) by {
            if j < before.kept.len() {
                assert(look.kept[j] == before.kept[j]);
                let seen = snapshots.take(n - 1);
                let k = choose|k: int| 0 <= k < seen.len() && seen[k] == before.kept[j];
                assert(snapshots[k] == before.kept[j]);
                law_key_ids_are_distinct(snapshots[k].key, last.key);
            }
        }
        assert forall|i: int| 0 <= i < n implies {
            let id = key_id((#[trigger] snapshots[i]).key);
            &&& cache.foreign.contains(id) || look.kept.contains(snapshots[i])
                || look.unknown.contains(snapshots[i])
            &&& cache.foreign.contains(id) || look.owned.contains_key(id) || lists_id(
                look.unknown,
                look.unknown.len() as int,
                id,
            )
        } by {
            let other = key_id(snapshots[i].key);
            if lists_id(before.unknown, before.unknown.len() as int, other) {
                let j = choose|j: int|
                    0 <= j < before.unknown.len() && key_id((#[trigger] before.unknown[j]).key)
                        == other;
                assert(key_id(look.unknown[j].key) == other);
            }
            if look.unknown.len() > before.unknown.len() {
                assert(key_id(look.unknown[before.unknown.len() as int].key) == id);
            }
        }
    }
}

proof fn lemma_first_look_repeats_nothing(
    snapshots: Seq<SocketAcceptQueueSnapshot>,
    n: int,
    cache: CacheModel,
    reads: Seq<Option<u64>>,
)
    requires
        0 <= n <= snapshots.len(),
        distinct_listeners(snapshots),
    ensures
        ({
            let look = first_look(snapshots, n, cache, reads);
            &&& look.kept.no_duplicates()
            &&& look.unknown.no_duplicates()
            &&& forall|i: int, j: int|
                0 <= i < look.kept.len() && 0 <= j < look.unknown.len() ==> #[trigger] look.kept[i]
                    != #[trigger] look.unknown[j]
            &&& forall|i: int|
                0 <= i < look.kept.len() ==> lists_snapshot(snapshots, n, #[trigger] look.kept[i])
            &&& forall|j: int|
                0 <= j < look.unknown.len() ==> lists_snapshot(
                    snapshots,
                    n,
                    #[trigger] look.unknown[j],
                )
        }),
    decreases n,
{
    if n > 0 {
        lemma_first_look_repeats_nothing(snapshots, n - 1, cache, reads);
        let last = snapshots[n - 1];
        assert forall|s: SocketAcceptQueueSnapshot| #[trigger]
            lists_snapshot(snapshots, n - 1, s) implies s != last && lists_snapshot(
            snapshots,
            n,
            s,
        ) by {
            let k = choose|k: int| 0 <= k < n - 1 && #[trigger] snapshots[k] == s;
            assert(0 <= k < n && snapshots[k] == s);
        }
        assert(lists_snapshot(snapshots, n, last));
    }
}

/// The snapshot is among the first `n`.
spec fn lists_snapshot(
    snapshots: Seq<SocketAcceptQueueSnapshot>,
    n: int,
    s: SocketAcceptQueueSnapshot,
) -> bool {
    exists|k: int| 0 <= k < n && #[trigger] snapshots[k] == s
}

proof fn lemma_second_look_repeats_nothing(
    unknown: Seq<SocketAcceptQueueSnapshot>,
    n: int,
    cache: CacheModel,
    kept: Seq<SocketAcceptQueueSnapshot>,
    found: Map<u64, String>,
)
    requires
        0 <= n <= unknown.len(),
        kept.no_duplicates(),
        unknown.no_duplicates(),
        forall|i: int, j: int|
            0 <= i < kept.len() && 0 <= j < unknown.len() ==> #[trigger] kept[i]
                != #[trigger] unknown[j],
    ensures
        ({
            let all = second_look(unknown, n, cache, kept, found).1;
            &&& all.no_duplicates()
            &&& forall|i: int, j: int|
                0 <= i < all.len() && n <= j < unknown.len() ==> #[trigger] all[i]
                    != #[trigger] unknown[j]
        }),
    decreases n,
{
    if n > 0 {
        lemma_second_look_repeats_nothing(unknown, n - 1, cache, kept, found);
    }
}

/// The scan found the inode of some of the first `n` unknown listeners with
/// this number, or did not find it.
spec fn looked_up(
    unknown: Seq<SocketAcceptQueueSnapshot>,
    n: int,
    found: Map<u64, String>,
    id: u128,
    hit: bool,
) -> bool {
    exists|j: int|
        0 <= j < n && key_id((#[trigger] unknown[j]).key) == id && found.contains_key(
            unknown[j].key.inode,
        ) == hit
}

proof fn lemma_second_look(
    unknown: Seq<SocketAcceptQueueSnapshot>,
    n: int,
    cache: CacheModel,
    kept: Seq<SocketAcceptQueueSnapshot>,
    found: Map<u64, String>,
)
    requires
        0 <= n <= unknown.len(),
    ensures
        ({
            let (after, all) = second_look(unknown, n, cache, kept, found);
            &&& forall|id: u128| #[trigger]
                after.owned.contains_key(id) <==> cache.owned.contains_key(id) || looked_up(
                    unknown,
                    n,
                    found,
                    id,
                    true,
                )
            &&& forall|id: u128| #[trigger]
                after.foreign.contains(id) <==> cache.foreign.contains(id) || looked_up(
                    unknown,
                    n,
                    found,
                    id,
                    false,
                )
            &&& forall|s: SocketAcceptQueueSnapshot| kept.contains(s) ==> #[trigger] all.contains(s)
            &&& forall|j: int|
                0 <= j < n && found.contains_key((#[trigger] unknown[j]).key.inode)
                    ==> all.contains(unknown[j])
            &&& forall|s: SocketAcceptQueueSnapshot| #[trigger]
                all.contains(s) ==> kept.contains(s) || (unknown.contains(s) && found.contains_key(
                    s.key.inode,
                ) && looked_up(unknown, n, found, key_id(s.key), true))
        }),
    decreases n,
{
    if n > 0 {
        lemma_second_look(unknown, n - 1, cache, kept, found);
        let (before, some) = second_look(unknown, n - 1, cache, kept, found);
        let (after, all) = second_look(unknown, n, cache, kept, found);
        let last = unknown[n - 1];
        let hit = found.contains_key(last.key.inode);
        lemma_pushed(some, last);
        assert(unknown.contains(last));
        assert forall|id: u128, h: bool| #[trigger]
            looked_up(unknown, n, found, id, h) <==> looked_up(unknown, n - 1, found, id, h) || (
            key_id(last.key) == id && hit == h) by {
            if looked_up(unknown, n - 1, found, id, h) {
                let j = choose|j: int|
                    0 <= j < n - 1 && key_id((#[trigger] unknown[j]).key) == id
                        && found.contains_key(unknown[j].key.inode) == h;
                assert(0 <= j < n && key_id(unknown[j].key) == id);
            }
        }
        assert forall|s: SocketAcceptQueueSnapshot| #[trigger] all.contains(s) implies kept.contains(
            s,
        ) || (unknown.contains(s) && found.contains_key(s.key.inode) && looked_up(
            unknown,
            n,
            found,
            key_id(s.key),
            true,
        )) by {
            if !some.contains(s) {
                let k = choose|k: int| 0 <= k < all.len() && all[k] == s;
                if k < some.len() {
                    assert(some[k] == s);
                }
            }
        }
    }
}

/// Classification is exact. No listener is ever known both as this process's
/// and as another's. Once all are classified, the cache knows exactly the
/// listeners in the kernel's reply, and all snapshots of this process's
/// listeners are returned; if the reply lists each listener once, no others
/// are, and none is returned twice.
pub proof fn law_classification_is_exact<E, R, S>(
    read: R,
    scan: S,
    snapshots: Seq<SocketAcceptQueueSnapshot>,
    cache: CacheModel,
    reads: Seq<Option<u64>>,
    after: CacheModel,
    r: Result<Vec<SocketAcceptQueueSnapshot>, E>,
) where
    R: Fn(&String) -> Result<Option<u64>, E>,
    S: FnOnce(&HashSet<u64>) -> Result<HashMap<u64, String>, E>,

    requires
        cache.separate(),
        classified(
            read,
            scan,
            snapshots,
            cache.pruned(active_ids(snapshots, snapshots.len() as int)),
            reads,
            after,
            r,
        ),
    ensures
        after.separate(),
        r matches Ok(returned) ==> {
            &&& forall|id: u128|
                active_ids(snapshots, snapshots.len() as int).contains(id) <==> (
                #[trigger] after.owned.contains_key(id) || after.foreign.contains(id))
            &&& forall|i: int|
                0 <= i < snapshots.len() && after.owned.contains_key(
                    key_id((#[trigger] snapshots[i]).key),
                ) ==> returned@.contains(snapshots[i])
            &&& distinct_listeners(snapshots) ==> forall|s: SocketAcceptQueueSnapshot| #[trigger]
                returned@.contains(s) ==> snapshots.contains(s) && after.owned.contains_key(
                    key_id(s.key),
                )
            &&& distinct_listeners(snapshots) ==> returned@.no_duplicates()
        },
{
    let pruned = cache.pruned(active_ids(snapshots, snapshots.len() as int));
    let n = reads.len() as int;
    let look = first_look(snapshots, n, pruned, reads);
    let looked = CacheModel { owned: look.owned, foreign: pruned.foreign };
    assert(pruned.separate());
    lemma_first_look_sorts_out(snapshots, n, pruned, reads);
    lemma_first_look_only_forgets(snapshots, n, pruned, reads);
    assert(looked.separate());
    assert forall|id: u128| active_ids(snapshots, snapshots.len() as int).contains(id)
        <==> lists_id(snapshots, snapshots.len() as int, id) by {
        lemma_active_ids(snapshots, snapshots.len() as int, id);
    }
    if n == snapshots.len() {
        assert(snapshots.take(n) =~= snapshots);
        if distinct_listeners(snapshots) {
            lemma_first_look_repeats_nothing(snapshots, n, pruned, reads);
        }
        if look.unknown.len() == 0 {
            lemma_scan_is_exact(
                snapshots,
                pruned,
                look,
                after,
                r->Ok_0@,
                Map::<u64, String>::empty(),
            );
        } else {
            let (targets, scanned) = choose|
                targets: &HashSet<u64>,
                scanned: Result<HashMap<u64, String>, E>,
            | #[trigger]
                call_ensures(scan, (targets,), scanned) && targets@ == inodes(
                    look.unknown,
                    look.unknown.len() as int,
                ) && match scanned {
                    Err(e) => r == Err::<Vec<SocketAcceptQueueSnapshot>, E>(e) && after == looked,
                    Ok(found) => r is Ok && (after, r->Ok_0@) == second_look(
                        look.unknown,
                        look.unknown.len() as int,
                        looked,
                        look.kept,
                        found@,
                    ),
                };
            if let Ok(found) = scanned {
                lemma_scan_is_exact(snapshots, pruned, look, after, r->Ok_0@, found@);
                if distinct_listeners(snapshots) {
                    lemma_second_look_repeats_nothing(
                        look.unknown,
                        look.unknown.len() as int,
                        looked,
                        look.kept,
                        found@,
                    );
                }
            }
        }
    }
}

proof fn lemma_scan_is_exact(
    snapshots: Seq<SocketAcceptQueueSnapshot>,
    cache: CacheModel,
    look: FirstLook,
    after: CacheModel,
    returned: Seq<SocketAcceptQueueSnapshot>,
    found: Map<u64, String>,
)
    requires
        cache.separate(),
        look.owned.submap_of(cache.owned),
        sorted_out(snapshots, snapshots.len() as int, cache, look),
        forall|id: u128| #[trigger]
            cache.owned.contains_key(id) ==> lists_id(snapshots, snapshots.len() as int, id),
        forall|id: u128| #[trigger]
            cache.foreign.contains(id) ==> lists_id(snapshots, snapshots.len() as int, id),
        (after, returned) == second_look(
            look.unknown,
            look.unknown.len() as int,
            CacheModel { owned: look.owned, foreign: cache.foreign },
            look.kept,
            found,
        ),
    ensures
        after.separate(),
        forall|id: u128|
            lists_id(snapshots, snapshots.len() as int, id) <==> (
            #[trigger] after.owned.contains_key(id) || after.foreign.contains(id)),
        forall|i: int|
            0 <= i < snapshots.len() && after.owned.contains_key(
                key_id((#[trigger] snapshots[i]).key),
            ) ==> returned.contains(snapshots[i]),
        distinct_listeners(snapshots) ==> forall|s: SocketAcceptQueueSnapshot| #[trigger]
            returned.contains(s) ==> snapshots.contains(s) && after.owned.contains_key(
                key_id(s.key),
            ),
{
    let unknown = look.unknown;
    let n = unknown.len() as int;
    let looked = CacheModel { owned: look.owned, foreign: cache.foreign };
    lemma_second_look(unknown, n, looked, look.kept, found);
    assert(second_look(unknown, n, looked, look.kept, found).0 == after);
    assert(second_look(unknown, n, looked, look.kept, found).1 == returned);
    assert(snapshots.take(snapshots.len() as int) =~= snapshots);
    assert forall|id: u128, hit: bool| #[trigger] looked_up(unknown, n, found, id, hit) implies {
        &&& !look.owned.contains_key(id)
        &&& !cache.foreign.contains(id)
        &&& !looked_up(unknown, n, found, id, !hit)
        &&& lists_id(snapshots, snapshots.len() as int, id)
    } by {
        let j = choose|j: int|
            0 <= j < n && key_id((#[trigger] unknown[j]).key) == id && found.contains_key(
                unknown[j].key.inode,
            ) == hit;
        let i = choose|i: int| 0 <= i < snapshots.len() && snapshots[i] == unknown[j];
        assert(key_id(snapshots[i].key) == id);
        if looked_up(unknown, n, found, id, !hit) {
            let k = choose|k: int|
                0 <= k < n && key_id((#[trigger] unknown[k]).key) == id && found.contains_key(
                    unknown[k].key.inode,
                ) == !hit;
            law_key_ids_are_distinct(unknown[j].key, unknown[k].key);
        }
    }
    assert forall|id: u128| after.owned.contains_key(id) implies !after.foreign.contains(id) by {
        assert(looked_up(unknown, n, found, id, true) || look.owned.contains_key(id));
        if after.foreign.contains(id) && !cache.foreign.contains(id) {
            assert(looked_up(unknown, n, found, id, !true));
        }
    }
    assert forall|id: u128| lists_id(snapshots, snapshots.len() as int, id) <==> (
    #[trigger] after.owned.contains_key(id) || after.foreign.contains(id)) by {
        assert(look.owned.contains_key(id) ==> cache.owned.contains_key(id));
        assert(after.foreign.contains(id) <==> cache.foreign.contains(id) || looked_up(
            unknown,
            n,
            found,
            id,
            false,
        ));
        if lists_id(snapshots, snapshots.len() as int, id) {
            let i = choose|i: int|
                0 <= i < snapshots.len() && key_id((#[trigger] snapshots[i]).key) == id;
            if lists_id(unknown, n, id) {
                let j = choose|j: int| 0 <= j < n && key_id((#[trigger] unknown[j]).key) == id;
                if found.contains_key(unknown[j].key.inode) {
                    assert(looked_up(unknown, n, found, id, true));
                } else {
                    assert(looked_up(unknown, n, found, id, false));
                }
            }
        }
    }
    assert forall|i: int|
        0 <= i < snapshots.len() && after.owned.contains_key(
            key_id((#[trigger] snapshots[i]).key),
        ) implies returned.contains(snapshots[i]) by {
        let id = key_id(snapshots[i].key);
        assert(!after.foreign.contains(id));
        if look.unknown.contains(snapshots[i]) {
            let j = choose|j: int| 0 <= j < n && unknown[j] == snapshots[i];
            if !found.contains_key(unknown[j].key.inode) {
                assert(looked_up(unknown, n, found, id, false));
            }
        }
    }
    if distinct_listeners(snapshots) {
        assert forall|s: SocketAcceptQueueSnapshot| #[trigger]
            returned.contains(s) implies snapshots.contains(s) && after.owned.contains_key(
            key_id(s.key),
        ) by {
            if look.kept.contains(s) {
                let j = choose|j: int| 0 <= j < look.kept.len() && look.kept[j] == s;
                assert(look.owned.contains_key(key_id(look.kept[j].key)));
                assert(snapshots.contains(look.kept[j]));
            } else {
                let j = choose|j: int| 0 <= j < n && unknown[j] == s;
                assert(snapshots.contains(unknown[j]));
            }
        }
    }
}

proof fn lemma_first_look_decides(
    snapshots: Seq<SocketAcceptQueueSnapshot>,
    n: int,
    cache: CacheModel,
    reads: Seq<Option<u64>>,
    i: int,
)
    requires
        0 <= n <= snapshots.len(),
        0 <= i < snapshots.len(),
        distinct_listeners(snapshots),
    ensures
        ({
            let look = first_look(snapshots, n, cache, reads);
            let id = key_id(snapshots[i].key);
            let held = cache.owned.contains_key(id) && reads[i] == Some(snapshots[i].key.inode);
            &&& i >= n ==> look.owned.contains_key(id) == cache.owned.contains_key(id)
            &&& i < n ==> look.owned.contains_key(id) == held
            &&& i < n && !held && !cache.foreign.contains(id) ==> look.unknown.contains(
                snapshots[i],
            )
        }),
    decreases n,
{
    if n > 0 {
        lemma_first_look_decides(snapshots, n - 1, cache, reads, i);
        let before = first_look(snapshots, n - 1, cache, reads);
        let last = snapshots[n - 1];
        lemma_pushed(before.unknown, last);
        if i != n - 1 {
            law_key_ids_are_distinct(snapshots[i].key, last.key);
            if i < n - 1 {
                assert(snapshots[i].key != snapshots[n - 1].key);
            } else {
                assert(snapshots[n - 1].key != snapshots[i].key);
            }
        }
    }
}

proof fn lemma_second_look_passes_over(
    unknown: Seq<SocketAcceptQueueSnapshot>,
    n: int,
    cache: CacheModel,
    kept: Seq<SocketAcceptQueueSnapshot>,
    found: Map<u64, String>,
    id: u128,
)
    requires
        0 <= n <= unknown.len(),
        forall|j: int| 0 <= j < n ==> key_id((#[trigger] unknown[j]).key) != id,
    ensures
        ({
            let after = second_look(unknown, n, cache, kept, found).0;
            &&& after.owned.contains_key(id) == cache.owned.contains_key(id)
            &&& cache.owned.contains_key(id) ==> after.owned[id] == cache.owned[id]
            &&& after.foreign.contains(id) == cache.foreign.contains(id)
        }),
    decreases n,
{
    if n > 0 {
        lemma_second_look_passes_over(unknown, n - 1, cache, kept, found, id);
    }
}

proof fn lemma_second_look_decides(
    unknown: Seq<SocketAcceptQueueSnapshot>,
    n: int,
    cache: CacheModel,
    kept: Seq<SocketAcceptQueueSnapshot>,
    found: Map<u64, String>,
    j: int,
)
    requires
        0 <= j < n <= unknown.len(),
    ensures
        ({
            let after = second_look(unknown, n, cache, kept, found).0;
            let id = key_id(unknown[j].key);
            let inode = unknown[j].key.inode;
            &&& found.contains_key(inode) ==> after.owned.contains_key(id) && after.owned[id]
                == found[inode]
            &&& !found.contains_key(inode) ==> after.foreign.contains(id)
        }),
    decreases n,
{
    if j < n - 1 {
        lemma_second_look_decides(unknown, n - 1, cache, kept, found, j);
        law_key_ids_are_distinct(unknown[j].key, unknown[n - 1].key);
    }
}

/// Which process a listener belongs to follows from the file descriptors. One
/// that the cache knows as this process's stays so, with its path, if the file
/// descriptor there still has its inode. Else, one that the cache knows as
/// another's stays so. Any other is this process's exactly if the scan found a
/// file descriptor with its inode, and then has the path of that.
pub proof fn law_ownership_follows_the_descriptors<E, R, S>(
    read: R,
    scan: S,
    snapshots: Seq<SocketAcceptQueueSnapshot>,
    cache: CacheModel,
    reads: Seq<Option<u64>>,
    after: CacheModel,
    r: Result<Vec<SocketAcceptQueueSnapshot>, E>,
    found: Map<u64, String>,
    i: int,
) where
    R: Fn(&String) -> Result<Option<u64>, E>,
    S: FnOnce(&HashSet<u64>) -> Result<HashMap<u64, String>, E>,

    requires
        cache.separate(),
        distinct_listeners(snapshots),
        0 <= i < snapshots.len(),
        r is Ok,
        forall|targets: &HashSet<u64>, scanned: HashMap<u64, String>| #[trigger]
            call_ensures(scan, (targets,), Ok(scanned)) ==> scanned@ == found,
        classified(
            read,
            scan,
            snapshots,
            cache.pruned(active_ids(snapshots, snapshots.len() as int)),
            reads,
            after,
            r,
        ),
    ensures
        ({
            let id = key_id(snapshots[i].key);
            let inode = snapshots[i].key.inode;
            let held = cache.owned.contains_key(id) && reads[i] == Some(inode);
            &&& cache.owned.contains_key(id) ==> call_ensures(
                read,
                (&cache.owned[id],),
                Ok(reads[i]),
            )
            &&& held ==> after.owned.contains_key(id) && after.owned[id] == cache.owned[id]
            &&& !held && cache.foreign.contains(id) ==> after.foreign.contains(id)
            &&& !held && !cache.foreign.contains(id) && found.contains_key(inode)
                ==> after.owned.contains_key(id) && after.owned[id] == found[inode]
            &&& !held && !cache.foreign.contains(id) && !found.contains_key(inode)
                ==> after.foreign.contains(id)
        }),
{
    let n = snapshots.len() as int;
    let pruned = cache.pruned(active_ids(snapshots, n));
    let look = first_look(snapshots, n, pruned, reads);
    let looked = CacheModel { owned: look.owned, foreign: pruned.foreign };
    let id = key_id(snapshots[i].key);
    let inode = snapshots[i].key.inode;
    lemma_active_ids(snapshots, n, id);
    assert(lists_id(snapshots, n, id));
    assert(pruned.owned.contains_key(id) == cache.owned.contains_key(id));
    assert(pruned.foreign.contains(id) == cache.foreign.contains(id));
    lemma_first_look_decides(snapshots, n, pruned, reads, i);
    lemma_first_look_decides(snapshots, i, pruned, reads, i);
    lemma_first_look_only_forgets(snapshots, n, pruned, reads);
    lemma_first_look_only_forgets(snapshots, i, pruned, reads);
    lemma_first_look_sorts_out(snapshots, n, pruned, reads);
    let held = cache.owned.contains_key(id) && reads[i] == Some(inode);
    if cache.owned.contains_key(id) {
        assert(first_look(snapshots, i, pruned, reads).owned[id] == cache.owned[id]);
        assert(fd_read(read, snapshots, i, pruned, reads, Ok(reads[i])));
    }
    if look.unknown.len() > 0 {
        let m = look.unknown.len() as int;
        assert((after, r->Ok_0@) == second_look(look.unknown, m, looked, look.kept, found));
        if held || cache.foreign.contains(id) {
            lemma_second_look_passes_over(look.unknown, m, looked, look.kept, found, id);
        } else {
            let j = choose|j: int| 0 <= j < m && look.unknown[j] == snapshots[i];
            lemma_second_look_decides(look.unknown, m, looked, look.kept, found, j);
        }
    } else if !held && !cache.foreign.contains(id) {
        assert(look.unknown.contains(snapshots[i]));
    }
}

/// A socket's name has its inode between the brackets of `socket:[..]`. Any
/// other text names no socket.
pub proof fn law_a_socket_is_named_by_its_inode(name: Seq<char>, target: Seq<char>)
    ensures
        socket_name("socket:["@ + name + seq![']']) == Some(name),
        (forall|text: Seq<char>| target != #[trigger] ("socket:["@ + text + seq![']']))
            ==> socket_name(target) is None,
{
    let prefix = "socket:["@;
    let full = prefix + name + seq![']'];
    assert(full.subrange(0, prefix.len() as int) =~= prefix);
    assert(full.subrange(prefix.len() as int, full.len() - 1) =~= name);
    if let Some(text) = socket_name(target) {
        assert(target =~= prefix + text + seq![']']) by {
            assert(target.subrange(0, prefix.len() as int) =~= prefix);
        }
    }
}

/// Each snapshot gives one event with the time of the sample, in order, and the
/// event has the listener's identity, address and queue.
pub proof fn law_every_snapshot_is_recorded(
    snapshots: Seq<SocketAcceptQueueSnapshot>,
    timestamp_ns: u64,
    i: int,
)
    requires
        0 <= i < snapshots.len(),
    ensures
        events_of(snapshots, timestamp_ns).len() == snapshots.len(),
        ({
            let event = events_of(snapshots, timestamp_ns)[i];
            let snapshot = snapshots[i];
            &&& event.timestamp_ns == timestamp_ns
            &&& event.socket_cookie == snapshot.key.cookie
            &&& event.socket_inode == snapshot.key.inode
            &&& event.ip_version == snapshot.ip_version
            &&& event.protocol == 6
            &&& event.local_addr@ == snapshot.local_addr@
            &&& event.local_port == snapshot.local_port
            &&& event.pending_connections == snapshot.pending_connections
            &&& event.backlog_limit == snapshot.backlog_limit
        }),
{
}

/// A scan takes the first file descriptor of each socket that is looked for.
pub proof fn law_a_scan_takes_what_it_looks_for(
    targets: Set<u64>,
    found: Map<u64, String>,
    inode: u64,
    path: String,
)
    ensures
        targets.contains(inode) && !found.contains_key(inode) ==> {
            let after = found_after(targets, found, Some(inode), path);
            after.contains_key(inode) && after[inode] == path
        },
        !targets.contains(inode) || found.contains_key(inode) ==> found_after(
            targets,
            found,
            Some(inode),
            path,
        ) == found,
        found_after(targets, found, None, path) == found,
{
}

} // verus!
