//! Handle registries: bounded stores of pipe entries in insertion order,
//! each with a validity bit, and the three dispatch policies — prefix
//! filter, round-robin with fallback, and consistent hash.
//!
//! A registry holds only what routing decisions read: the entry's stable
//! key, its filter, and whether its peer is still there. The channel
//! endpoints the keys stand for live with the caller, which performs the
//! sends and receives the registry decides on and reports closed peers
//! back through `mark_invalid`.

use vstd::prelude::*;

use crate::packet::hash_of;

verus! {

/// Longest identifier prefix a client handle may filter on.
pub const PREFIX_MAX: usize = 8;

/// Longest peer address an addressed send may carry.
pub const ADDR_MAX: usize = 64;

/// A client handle's identifier prefix, at most `PREFIX_MAX` bytes.
#[derive(Clone)]
pub struct Prefix {
    pub bytes: Vec<u8>,
}

impl Prefix {
    pub open spec fn wf(&self) -> bool {
        self.bytes@.len() <= PREFIX_MAX
    }

    /// Accepts a prefix of at most `PREFIX_MAX` bytes; longer inputs are
    /// refused rather than cut short.
    pub fn try_new(b: &[u8]) -> (r: Option<Prefix>)
        ensures
            r is Some <==> b@.len() <= PREFIX_MAX,
            r matches Some(p) ==> p.bytes@ == b@ && p.wf(),
    {
        if b.len() <= PREFIX_MAX {
            Some(Prefix { bytes: vstd::slice::slice_to_vec(b) })
        } else {
            None
        }
    }
}

/// A peer address for an addressed stream send, at most `ADDR_MAX` bytes.
#[derive(Clone)]
pub struct Addr {
    pub bytes: Vec<u8>,
}

impl Addr {
    pub open spec fn wf(&self) -> bool {
        self.bytes@.len() <= ADDR_MAX
    }

    /// Accepts an address of at most `ADDR_MAX` bytes; a longer one is the
    /// caller's invalid-input error.
    pub fn try_new(b: &[u8]) -> (r: Option<Addr>)
        ensures
            r is Some <==> b@.len() <= ADDR_MAX,
            r matches Some(a) ==> a.bytes@ == b@ && a.wf(),
    {
        if b.len() <= ADDR_MAX {
            Some(Addr { bytes: vstd::slice::slice_to_vec(b) })
        } else {
            None
        }
    }
}

/// A registry entry for a client handle: stable key, prefix filter, and
/// whether the worker's end is still open.
pub struct FilteredPipe {
    pub key: u64,
    pub filter: Prefix,
    pub valid: bool,
}

/// A registry entry for a server handle: stable key and validity bit.
#[derive(Clone, Copy)]
pub struct PlainPipe {
    pub key: u64,
    pub valid: bool,
}

pub open spec fn f_keys_unique(es: Seq<FilteredPipe>) -> bool {
    forall|i: int, j: int|
        0 <= i < j < es.len() ==> (#[trigger] es[i]).key != (#[trigger] es[j]).key
}

pub open spec fn f_keys_below(es: Seq<FilteredPipe>, bound: u64) -> bool {
    forall|i: int| 0 <= i < es.len() ==> (#[trigger] es[i]).key < bound
}

pub open spec fn f_filters_wf(es: Seq<FilteredPipe>) -> bool {
    forall|i: int| 0 <= i < es.len() ==> (#[trigger] es[i]).filter.wf()
}

pub open spec fn p_keys_unique(es: Seq<PlainPipe>) -> bool {
    forall|i: int, j: int|
        0 <= i < j < es.len() ==> (#[trigger] es[i]).key != (#[trigger] es[j]).key
}

pub open spec fn p_keys_below(es: Seq<PlainPipe>, bound: u64) -> bool {
    forall|i: int| 0 <= i < es.len() ==> (#[trigger] es[i]).key < bound
}

/// The entries that survive a cleanup pass, in order.
pub open spec fn f_live(es: Seq<FilteredPipe>) -> Seq<FilteredPipe>
    decreases es.len(),
{
    if es.len() == 0 {
        Seq::empty()
    } else if es[0].valid {
        seq![es[0]] + f_live(es.skip(1))
    } else {
        f_live(es.skip(1))
    }
}

/// The keys of the valid entries, in order.
pub open spec fn f_live_keys(es: Seq<FilteredPipe>) -> Seq<u64>
    decreases es.len(),
{
    if es.len() == 0 {
        Seq::empty()
    } else if es[0].valid {
        seq![es[0].key] + f_live_keys(es.skip(1))
    } else {
        f_live_keys(es.skip(1))
    }
}

/// The keys a cleanup pass drops, in order.
pub open spec fn f_dead_keys(es: Seq<FilteredPipe>) -> Seq<u64>
    decreases es.len(),
{
    if es.len() == 0 {
        Seq::empty()
    } else if !es[0].valid {
        seq![es[0].key] + f_dead_keys(es.skip(1))
    } else {
        f_dead_keys(es.skip(1))
    }
}

pub open spec fn p_live(es: Seq<PlainPipe>) -> Seq<PlainPipe>
    decreases es.len(),
{
    if es.len() == 0 {
        Seq::empty()
    } else if es[0].valid {
        seq![es[0]] + p_live(es.skip(1))
    } else {
        p_live(es.skip(1))
    }
}

pub open spec fn p_live_keys(es: Seq<PlainPipe>) -> Seq<u64>
    decreases es.len(),
{
    if es.len() == 0 {
        Seq::empty()
    } else if es[0].valid {
        seq![es[0].key] + p_live_keys(es.skip(1))
    } else {
        p_live_keys(es.skip(1))
    }
}

pub open spec fn p_dead_keys(es: Seq<PlainPipe>) -> Seq<u64>
    decreases es.len(),
{
    if es.len() == 0 {
        Seq::empty()
    } else if !es[0].valid {
        seq![es[0].key] + p_dead_keys(es.skip(1))
    } else {
        p_dead_keys(es.skip(1))
    }
}

proof fn lemma_f_live_wf(es: Seq<FilteredPipe>, bound: u64)
    requires
        f_keys_unique(es),
        f_keys_below(es, bound),
        f_filters_wf(es),
    ensures
        f_keys_unique(f_live(es)),
        f_keys_below(f_live(es), bound),
        f_filters_wf(f_live(es)),
        f_live(es).len() <= es.len(),
        forall|i: int|
            0 <= i < f_live(es).len() ==> es.contains(#[trigger] f_live(es)[i]),
    decreases es.len(),
{
    if es.len() > 0 {
        let tail = es.skip(1);
        assert(forall|i: int, j: int|
            0 <= i < j < tail.len() ==> (#[trigger] tail[i]).key != (#[trigger] tail[j]).key)
            by {
            assert(forall|i: int| 0 <= i < tail.len() ==> tail[i] == es[i + 1]);
        }
        lemma_f_live_wf(tail, bound);
        assert(forall|i: int| 0 <= i < f_live(tail).len() ==> es.contains(
            #[trigger] f_live(tail)[i],
        )) by {
            assert(forall|i: int|
                0 <= i < f_live(tail).len() ==> tail.contains(#[trigger] f_live(tail)[i]));
            assert(forall|j: int| 0 <= j < tail.len() ==> es.contains(#[trigger] tail[j])) by {
                assert(forall|j: int| 0 <= j < tail.len() ==> tail[j] == es[j + 1]);
            }
        }
        if es[0].valid {
            let lv = f_live(es);
            assert(lv[0] == es[0]);
            assert(forall|i: int| 1 <= i < lv.len() ==> lv[i] == f_live(tail)[i - 1]);
            assert(forall|i: int| 1 <= i < lv.len() ==> (#[trigger] lv[i]).key != es[0].key)
                by {
                assert(forall|i: int| 1 <= i < lv.len() ==> tail.contains(lv[i]));
                assert(forall|j: int|
                    0 <= j < tail.len() ==> (#[trigger] tail[j]).key != es[0].key);
            }
        }
    }
}

proof fn lemma_p_live_wf(es: Seq<PlainPipe>, bound: u64)
    requires
        p_keys_unique(es),
        p_keys_below(es, bound),
    ensures
        p_keys_unique(p_live(es)),
        p_keys_below(p_live(es), bound),
        p_live(es).len() <= es.len(),
        forall|i: int|
            0 <= i < p_live(es).len() ==> es.contains(#[trigger] p_live(es)[i]),
    decreases es.len(),
{
    if es.len() > 0 {
        let tail = es.skip(1);
        assert(forall|i: int, j: int|
            0 <= i < j < tail.len() ==> (#[trigger] tail[i]).key != (#[trigger] tail[j]).key)
            by {
            assert(forall|i: int| 0 <= i < tail.len() ==> tail[i] == es[i + 1]);
        }
        lemma_p_live_wf(tail, bound);
        assert(forall|i: int| 0 <= i < p_live(tail).len() ==> es.contains(
            #[trigger] p_live(tail)[i],
        )) by {
            assert(forall|i: int|
                0 <= i < p_live(tail).len() ==> tail.contains(#[trigger] p_live(tail)[i]));
            assert(forall|j: int| 0 <= j < tail.len() ==> es.contains(#[trigger] tail[j])) by {
                assert(forall|j: int| 0 <= j < tail.len() ==> tail[j] == es[j + 1]);
            }
        }
        if es[0].valid {
            let lv = p_live(es);
            assert(lv[0] == es[0]);
            assert(forall|i: int| 1 <= i < lv.len() ==> lv[i] == p_live(tail)[i - 1]);
            assert(forall|i: int| 1 <= i < lv.len() ==> (#[trigger] lv[i]).key != es[0].key)
                by {
                assert(forall|i: int| 1 <= i < lv.len() ==> tail.contains(lv[i]));
                assert(forall|j: int|
                    0 <= j < tail.len() ==> (#[trigger] tail[j]).key != es[0].key);
            }
        }
    }
}

/// Whether `id` begins with the filter bytes `p`.
pub open spec fn starts_with(id: Seq<u8>, p: Seq<u8>) -> bool {
    p.len() <= id.len() && id.take(p.len() as int) == p
}

/// Whether any identifier in the packet matches the filter.
pub open spec fn id_matches(ids: Seq<Seq<u8>>, p: Seq<u8>) -> bool {
    exists|i: int| 0 <= i < ids.len() && starts_with(#[trigger] ids[i], p)
}

/// Prefix fan-out: the keys of the valid entries whose filter is a prefix
/// of some identifier, in registry order.
pub open spec fn req_targets(es: Seq<FilteredPipe>, ids: Seq<Seq<u8>>) -> Seq<u64>
    decreases es.len(),
{
    if es.len() == 0 {
        Seq::empty()
    } else {
        (if es[0].valid && id_matches(ids, es[0].filter.bytes@) {
            seq![es[0].key]
        } else {
            Seq::<u64>::empty()
        }) + req_targets(es.skip(1), ids)
    }
}

pub fn slice_starts_with(id: &[u8], p: &[u8]) -> (r: bool)
    ensures
        r == starts_with(id@, p@),
{
    let plen = p.len();
    if plen > id.len() {
        return false;
    }
    let mut i: usize = 0;
    while i < plen
        invariant
            0 <= i <= plen,
            plen == p@.len(),
            plen <= id@.len(),
            forall|j: int| 0 <= j < i ==> id@[j] == p@[j],
        decreases plen - i,
    {
        if id[i] != p[i] {
            return false;
        }
        i = i + 1;
    }
    proof {
        assert(id@.take(plen as int) =~= p@);
    }
    true
}

fn matches_any(ids: &Vec<Vec<u8>>, p: &[u8]) -> (r: bool)
    ensures
        r == id_matches(ids@.map_values(|x: Vec<u8>| x@), p@),
{
    let ghost idsv = ids@.map_values(|x: Vec<u8>| x@);
    let n = ids.len();
    let mut i: usize = 0;
    while i < n
        invariant
            0 <= i <= n,
            n == ids@.len(),
            idsv == ids@.map_values(|x: Vec<u8>| x@),
            forall|j: int| 0 <= j < i ==> !starts_with(#[trigger] idsv[j], p@),
        decreases n - i,
    {
        if slice_starts_with(ids[i].as_slice(), p) {
            proof {
                assert(idsv[i as int] == ids@[i as int]@);
                assert(0 <= i < idsv.len() && starts_with(idsv[i as int], p@));
            }
            return true;
        }
        i = i + 1;
    }
    false
}

/// The reusable scatter-receive buffers: one pending-receive task key per
/// valid entry, plus an index scratch for the selector.
pub struct RecvScratch {
    pub tasks: Vec<u64>,
    pub slice_scratch: Vec<usize>,
    pub capacity: usize,
}

impl RecvScratch {
    pub fn new(capacity: usize) -> (r: Self)
        ensures
            r.tasks@.len() == 0,
            r.slice_scratch@.len() == 0,
            r.capacity == capacity,
    {
        RecvScratch { tasks: Vec::new(), slice_scratch: Vec::new(), capacity }
    }

    /// Hands the buffers back empty for the next scatter.
    pub fn get(&mut self)
        ensures
            final(self).tasks@.len() == 0,
            final(self).slice_scratch@.len() == 0,
            final(self).capacity == old(self).capacity,
    {
        self.tasks.clear();
        self.slice_scratch.clear();
    }

    /// Drops the task at `pos` after its peer turned out to be closed.
    pub fn remove_task(&mut self, pos: usize) -> (k: u64)
        requires
            pos < old(self).tasks@.len(),
        ensures
            k == old(self).tasks@[pos as int],
            final(self).tasks@ == old(self).tasks@.remove(pos as int),
            final(self).slice_scratch == old(self).slice_scratch,
            final(self).capacity == old(self).capacity,
    {
        self.tasks.remove(pos)
    }
}

/// The client request-handle registry: prefix-filtered fan-out.
pub struct ReqHandles {
    pub entries: Vec<FilteredPipe>,
    pub next_key: u64,
    pub capacity: usize,
    pub need_cleanup: bool,
}

impl ReqHandles {
    pub open spec fn wf(&self) -> bool {
        &&& self.entries@.len() <= self.capacity
        &&& f_keys_unique(self.entries@)
        &&& f_keys_below(self.entries@, self.next_key)
        &&& f_filters_wf(self.entries@)
    }

    pub fn new(capacity: usize) -> (r: Self)
        ensures
            r.wf(),
            r.entries@.len() == 0,
            r.capacity == capacity,
            !r.need_cleanup,
            r.next_key == 0,
    {
        ReqHandles { entries: Vec::new(), next_key: 0, capacity, need_cleanup: false }
    }

    pub fn len(&self) -> (r: usize)
        ensures
            r == self.entries@.len(),
    {
        self.entries.len()
    }

    pub fn need_cleanup(&self) -> (r: bool)
        ensures
            r == self.need_cleanup,
    {
        self.need_cleanup
    }

    /// Appends a valid entry as the tail and hands back its stable key.
    pub fn add(&mut self, filter: Prefix) -> (k: u64)
        requires
            old(self).wf(),
            old(self).entries@.len() < old(self).capacity,
            old(self).next_key < u64::MAX,
            filter.wf(),
        ensures
            final(self).wf(),
            k == old(self).next_key,
            final(self).entries@ == old(self).entries@.push(
                (FilteredPipe { key: old(self).next_key, filter, valid: true }),
            ),
            final(self).next_key == old(self).next_key + 1,
            final(self).capacity == old(self).capacity,
            final(self).need_cleanup == old(self).need_cleanup,
    {
        let k = self.next_key;
        self.entries.push(FilteredPipe { key: k, filter, valid: true });
        self.next_key = k + 1;
        k
    }

    /// Fills the scratch with one receive task per valid entry, in order.
    pub fn arm_recv(&self, scratch: &mut RecvScratch)
        ensures
            final(scratch).tasks@ == f_live_keys(self.entries@),
            final(scratch).slice_scratch@.len() == 0,
            final(scratch).capacity == old(scratch).capacity,
    {
        scratch.get();
        let ghost es = self.entries@;
        let n = self.entries.len();
        let mut i: usize = 0;
        proof {
            assert(es.skip(0) =~= es);
        }
        while i < n
            invariant
                0 <= i <= n,
                n == es.len(),
                es == self.entries@,
                scratch.tasks@ + f_live_keys(es.skip(i as int)) == f_live_keys(es),
                scratch.slice_scratch@.len() == 0,
                scratch.capacity == old(scratch).capacity,
            decreases n - i,
        {
            let ghost pre = es.skip(i as int);
            if self.entries[i].valid {
                scratch.tasks.push(self.entries[i].key);
            }
            i = i + 1;
            proof {
                assert(pre.skip(1) =~= es.skip(i as int));
                assert(pre[0] == es[i - 1]);
            }
        }
        proof {
            assert(es.skip(n as int) =~= Seq::<FilteredPipe>::empty());
        }
    }

    /// Prefix fan-out of one inbound packet: every valid entry whose filter
    /// is a byte-prefix of some identifier receives it.
    pub fn dispatch(&self, ids: &Vec<Vec<u8>>) -> (r: Vec<u64>)
        ensures
            r@ == req_targets(self.entries@, ids@.map_values(|x: Vec<u8>| x@)),
    {
        let ghost es = self.entries@;
        let ghost idsv = ids@.map_values(|x: Vec<u8>| x@);
        let mut out: Vec<u64> = Vec::new();
        let n = self.entries.len();
        let mut i: usize = 0;
        proof {
            assert(es.skip(0) =~= es);
        }
        while i < n
            invariant
                0 <= i <= n,
                n == es.len(),
                es == self.entries@,
                idsv == ids@.map_values(|x: Vec<u8>| x@),
                out@ + req_targets(es.skip(i as int), idsv) == req_targets(es, idsv),
            decreases n - i,
        {
            let ghost pre = es.skip(i as int);
            let e = &self.entries[i];
            if e.valid && matches_any(ids, e.filter.bytes.as_slice()) {
                out.push(e.key);
            }
            i = i + 1;
            proof {
                assert(pre.skip(1) =~= es.skip(i as int));
                assert(pre[0] == es[i - 1]);
            }
        }
        proof {
            assert(es.skip(n as int) =~= Seq::<FilteredPipe>::empty());
        }
        out
    }

    /// Flags the entry with key `k` invalid; a cleanup pass will drop it.
    pub fn mark_invalid(&mut self, k: u64)
        requires
            old(self).wf(),
        ensures
            final(self).wf(),
            final(self).capacity == old(self).capacity,
            final(self).next_key == old(self).next_key,
            final(self).entries@.len() == old(self).entries@.len(),
            forall|i: int|
                0 <= i < old(self).entries@.len() ==> (#[trigger] final(self).entries@[i]) == (
                if old(self).entries@[i].key == k {
                    (FilteredPipe {
                        key: old(self).entries@[i].key,
                        filter: old(self).entries@[i].filter,
                        valid: false,
                    })
                } else {
                    old(self).entries@[i]
                }),
            final(self).need_cleanup == (old(self).need_cleanup || exists|i: int|
                0 <= i < old(self).entries@.len() && (#[trigger] old(self).entries@[i]).key
                    == k),
    {
        let n = self.entries.len();
        let mut i: usize = 0;
        while i < n
            invariant
                0 <= i <= n,
                n == self.entries@.len(),
                self == old(self),
                old(self).wf(),
                forall|j: int| 0 <= j < i ==> (#[trigger] self.entries@[j]).key != k,
            decreases n - i,
        {
            if self.entries[i].key == k {
                let e = &mut self.entries[i];
                e.valid = false;
                self.need_cleanup = true;
                proof {
                    let oes = old(self).entries@;
                    assert(f_keys_unique(oes));
                    assert(0 <= i < oes.len());
                    assert(oes[i as int].key == k);
                    assert forall|j: int| 0 <= j < oes.len() && j != i implies (#[trigger] oes[j]).key
                        != k by {
                        if j < i as int {
                            assert(0 <= j && j < i as int && (i as int) < oes.len());
                            assert(oes[j].key != oes[i as int].key);
                        } else {
                            assert(0 <= i as int && (i as int) < j && j < oes.len());
                            assert(oes[i as int].key != oes[j].key);
                        }
                    }
                    assert(forall|j: int|
                        0 <= j < self.entries@.len() ==> (#[trigger] self.entries@[j]).key
                            == oes[j].key);
                }
                return ;
            }
            i = i + 1;
        }
    }

    /// Removes every invalid entry, keeping the valid ones in order, and
    /// hands back the dropped keys so the caller can let their pipes go.
    pub fn cleanup(&mut self) -> (removed: Vec<u64>)
        requires
            old(self).wf(),
        ensures
            final(self).wf(),
            final(self).entries@ == f_live(old(self).entries@),
            removed@ == f_dead_keys(old(self).entries@),
            !final(self).need_cleanup,
            final(self).capacity == old(self).capacity,
            final(self).next_key == old(self).next_key,
    {
        let ghost all = self.entries@;
        let mut kept: Vec<FilteredPipe> = Vec::new();
        let mut removed: Vec<u64> = Vec::new();
        while self.entries.len() != 0
            invariant
                kept@ + f_live(self.entries@) == f_live(all),
                removed@ + f_dead_keys(self.entries@) == f_dead_keys(all),
                self.capacity == old(self).capacity,
                self.next_key == old(self).next_key,
            decreases self.entries@.len(),
        {
            let ghost pre = self.entries@;
            let ghost kept_pre = kept@;
            let ghost removed_pre = removed@;
            let e = self.entries.remove(0);
            proof {
                assert(self.entries@ =~= pre.skip(1));
            }
            if e.valid {
                kept.push(e);
                proof {
                    assert(kept@ + f_live(self.entries@) =~= kept_pre + f_live(pre));
                }
            } else {
                removed.push(e.key);
                proof {
                    assert(removed@ + f_dead_keys(self.entries@) =~= removed_pre + f_dead_keys(
                        pre,
                    ));
                }
            }
        }
        proof {
            assert(kept@ =~= f_live(all));
            assert(removed@ =~= f_dead_keys(all));
        }
        self.entries = kept;
        self.need_cleanup = false;
        proof {
            lemma_f_live_wf(all, self.next_key);
        }
        removed
    }
}

/// The client stream-handle registry: the same prefix fan-out as the
/// request registry, with two inbound sub-channels per handle (any-peer and
/// addressed), so a caller arms two scatters from it.
pub struct StreamHandles {
    pub entries: Vec<FilteredPipe>,
    pub next_key: u64,
    pub capacity: usize,
    pub need_cleanup: bool,
}

impl StreamHandles {
    pub open spec fn wf(&self) -> bool {
        &&& self.entries@.len() <= self.capacity
        &&& f_keys_unique(self.entries@)
        &&& f_keys_below(self.entries@, self.next_key)
        &&& f_filters_wf(self.entries@)
    }

    pub fn new(capacity: usize) -> (r: Self)
        ensures
            r.wf(),
            r.entries@.len() == 0,
            r.capacity == capacity,
            !r.need_cleanup,
            r.next_key == 0,
    {
        StreamHandles { entries: Vec::new(), next_key: 0, capacity, need_cleanup: false }
    }

    pub fn len(&self) -> (r: usize)
        ensures
            r == self.entries@.len(),
    {
        self.entries.len()
    }

    pub fn need_cleanup(&self) -> (r: bool)
        ensures
            r == self.need_cleanup,
    {
        self.need_cleanup
    }

    /// Appends a valid entry as the tail and hands back its stable key.
    pub fn add(&mut self, filter: Prefix) -> (k: u64)
        requires
            old(self).wf(),
            old(self).entries@.len() < old(self).capacity,
            old(self).next_key < u64::MAX,
            filter.wf(),
        ensures
            final(self).wf(),
            k == old(self).next_key,
            final(self).entries@ == old(self).entries@.push(
                (FilteredPipe { key: old(self).next_key, filter, valid: true }),
            ),
            final(self).next_key == old(self).next_key + 1,
            final(self).capacity == old(self).capacity,
            final(self).need_cleanup == old(self).need_cleanup,
    {
        let k = self.next_key;
        self.entries.push(FilteredPipe { key: k, filter, valid: true });
        self.next_key = k + 1;
        k
    }

    /// Fills the scratch with one any-peer receive task per valid entry.
    pub fn arm_recv_any(&self, scratch: &mut RecvScratch)
        ensures
            final(scratch).tasks@ == f_live_keys(self.entries@),
            final(scratch).slice_scratch@.len() == 0,
            final(scratch).capacity == old(scratch).capacity,
    {
        self.arm(scratch);
    }

    /// Fills the scratch with one addressed receive task per valid entry.
    pub fn arm_recv_addr(&self, scratch: &mut RecvScratch)
        ensures
            final(scratch).tasks@ == f_live_keys(self.entries@),
            final(scratch).slice_scratch@.len() == 0,
            final(scratch).capacity == old(scratch).capacity,
    {
        self.arm(scratch);
    }

    fn arm(&self, scratch: &mut RecvScratch)
        ensures
            final(scratch).tasks@ == f_live_keys(self.entries@),
            final(scratch).slice_scratch@.len() == 0,
            final(scratch).capacity == old(scratch).capacity,
    {
        scratch.get();
        let ghost es = self.entries@;
        let n = self.entries.len();
        let mut i: usize = 0;
        proof {
            assert(es.skip(0) =~= es);
        }
        while i < n
            invariant
                0 <= i <= n,
                n == es.len(),
                es == self.entries@,
                scratch.tasks@ + f_live_keys(es.skip(i as int)) == f_live_keys(es),
                scratch.slice_scratch@.len() == 0,
                scratch.capacity == old(scratch).capacity,
            decreases n - i,
        {
            let ghost pre = es.skip(i as int);
            if self.entries[i].valid {
                scratch.tasks.push(self.entries[i].key);
            }
            i = i + 1;
            proof {
                assert(pre.skip(1) =~= es.skip(i as int));
                assert(pre[0] == es[i - 1]);
            }
        }
        proof {
            assert(es.skip(n as int) =~= Seq::<FilteredPipe>::empty());
        }
    }

    /// Prefix fan-out of one inbound stream packet.
    pub fn dispatch(&self, ids: &Vec<Vec<u8>>) -> (r: Vec<u64>)
        ensures
            r@ == req_targets(self.entries@, ids@.map_values(|x: Vec<u8>| x@)),
    {
        let ghost es = self.entries@;
        let ghost idsv = ids@.map_values(|x: Vec<u8>| x@);
        let mut out: Vec<u64> = Vec::new();
        let n = self.entries.len();
        let mut i: usize = 0;
        proof {
            assert(es.skip(0) =~= es);
        }
        while i < n
            invariant
                0 <= i <= n,
                n == es.len(),
                es == self.entries@,
                idsv == ids@.map_values(|x: Vec<u8>| x@),
                out@ + req_targets(es.skip(i as int), idsv) == req_targets(es, idsv),
            decreases n - i,
        {
            let ghost pre = es.skip(i as int);
            let e = &self.entries[i];
            if e.valid && matches_any(ids, e.filter.bytes.as_slice()) {
                out.push(e.key);
            }
            i = i + 1;
            proof {
                assert(pre.skip(1) =~= es.skip(i as int));
                assert(pre[0] == es[i - 1]);
            }
        }
        proof {
            assert(es.skip(n as int) =~= Seq::<FilteredPipe>::empty());
        }
        out
    }

    /// Flags the entry with key `k` invalid; a cleanup pass will drop it.
    pub fn mark_invalid(&mut self, k: u64)
        requires
            old(self).wf(),
        ensures
            final(self).wf(),
            final(self).capacity == old(self).capacity,
            final(self).next_key == old(self).next_key,
            final(self).entries@.len() == old(self).entries@.len(),
            forall|i: int|
                0 <= i < old(self).entries@.len() ==> (#[trigger] final(self).entries@[i]) == (
                if old(self).entries@[i].key == k {
                    (FilteredPipe {
                        key: old(self).entries@[i].key,
                        filter: old(self).entries@[i].filter,
                        valid: false,
                    })
                } else {
                    old(self).entries@[i]
                }),
            final(self).need_cleanup == (old(self).need_cleanup || exists|i: int|
                0 <= i < old(self).entries@.len() && (#[trigger] old(self).entries@[i]).key
                    == k),
    {
        let n = self.entries.len();
        let mut i: usize = 0;
        while i < n
            invariant
                0 <= i <= n,
                n == self.entries@.len(),
                self == old(self),
                old(self).wf(),
                forall|j: int| 0 <= j < i ==> (#[trigger] self.entries@[j]).key != k,
            decreases n - i,
        {
            if self.entries[i].key == k {
                let e = &mut self.entries[i];
                e.valid = false;
                self.need_cleanup = true;
                proof {
                    let oes = old(self).entries@;
                    assert(f_keys_unique(oes));
                    assert(0 <= i < oes.len());
                    assert(oes[i as int].key == k);
                    assert forall|j: int| 0 <= j < oes.len() && j != i implies (#[trigger] oes[j]).key
                        != k by {
                        if j < i as int {
                            assert(oes[j].key != oes[i as int].key);
                        } else {
                            assert(oes[i as int].key != oes[j].key);
                        }
                    }
                    assert(forall|j: int|
                        0 <= j < self.entries@.len() ==> (#[trigger] self.entries@[j]).key
                            == oes[j].key);
                }
                return ;
            }
            i = i + 1;
        }
    }

    /// Removes every invalid entry, keeping the valid ones in order.
    pub fn cleanup(&mut self) -> (removed: Vec<u64>)
        requires
            old(self).wf(),
        ensures
            final(self).wf(),
            final(self).entries@ == f_live(old(self).entries@),
            removed@ == f_dead_keys(old(self).entries@),
            !final(self).need_cleanup,
            final(self).capacity == old(self).capacity,
            final(self).next_key == old(self).next_key,
    {
        let ghost all = self.entries@;
        let mut kept: Vec<FilteredPipe> = Vec::new();
        let mut removed: Vec<u64> = Vec::new();
        while self.entries.len() != 0
            invariant
                kept@ + f_live(self.entries@) == f_live(all),
                removed@ + f_dead_keys(self.entries@) == f_dead_keys(all),
                self.capacity == old(self).capacity,
                self.next_key == old(self).next_key,
            decreases self.entries@.len(),
        {
            let ghost pre = self.entries@;
            let ghost kept_pre = kept@;
            let ghost removed_pre = removed@;
            let e = self.entries.remove(0);
            proof {
                assert(self.entries@ =~= pre.skip(1));
            }
            if e.valid {
                kept.push(e);
                proof {
                    assert(kept@ + f_live(self.entries@) =~= kept_pre + f_live(pre));
                }
            } else {
                removed.push(e.key);
                proof {
                    assert(removed@ + f_dead_keys(self.entries@) =~= removed_pre + f_dead_keys(
                        pre,
                    ));
                }
            }
        }
        proof {
            assert(kept@ =~= f_live(all));
            assert(removed@ =~= f_dead_keys(all));
        }
        self.entries = kept;
        self.need_cleanup = false;
        proof {
            lemma_f_live_wf(all, self.next_key);
        }
        removed
    }
}

/// Round-robin with fallback: the last valid entry at or before `limit`,
/// with `limit` clamped to the end of the registry.
pub open spec fn last_valid_upto(es: Seq<PlainPipe>, limit: int) -> Option<int>
    decreases limit + 1,
{
    if limit < 0 || es.len() == 0 {
        None
    } else if limit >= es.len() {
        last_valid_upto(es, es.len() - 1)
    } else if es[limit].valid {
        Some(limit)
    } else {
        last_valid_upto(es, limit - 1)
    }
}

/// The server request-handle registry: round-robin dispatch with fallback
/// to the most recent valid entry passed during the scan.
pub struct ServerReqHandles {
    pub entries: Vec<PlainPipe>,
    pub next_key: u64,
    pub capacity: usize,
    pub need_cleanup: bool,
    pub send_index: usize,
}

impl ServerReqHandles {
    pub open spec fn wf(&self) -> bool {
        &&& self.entries@.len() <= self.capacity
        &&& p_keys_unique(self.entries@)
        &&& p_keys_below(self.entries@, self.next_key)
        &&& self.send_index < usize::MAX
    }

    pub fn new(capacity: usize) -> (r: Self)
        ensures
            r.wf(),
            r.entries@.len() == 0,
            r.capacity == capacity,
            !r.need_cleanup,
            r.next_key == 0,
            r.send_index == 0,
    {
        ServerReqHandles {
            entries: Vec::new(),
            next_key: 0,
            capacity,
            need_cleanup: false,
            send_index: 0,
        }
    }

    pub fn len(&self) -> (r: usize)
        ensures
            r == self.entries@.len(),
    {
        self.entries.len()
    }

    pub fn need_cleanup(&self) -> (r: bool)
        ensures
            r == self.need_cleanup,
    {
        self.need_cleanup
    }

    /// Appends a valid entry as the tail and hands back its stable key.
    pub fn add(&mut self) -> (k: u64)
        requires
            old(self).wf(),
            old(self).entries@.len() < old(self).capacity,
            old(self).next_key < u64::MAX,
        ensures
            final(self).wf(),
            k == old(self).next_key,
            final(self).entries@ == old(self).entries@.push(
                (PlainPipe { key: old(self).next_key, valid: true }),
            ),
            final(self).next_key == old(self).next_key + 1,
            final(self).capacity == old(self).capacity,
            final(self).need_cleanup == old(self).need_cleanup,
            final(self).send_index == old(self).send_index,
    {
        let k = self.next_key;
        self.entries.push(PlainPipe { key: k, valid: true });
        self.next_key = k + 1;
        k
    }

    /// Fills the scratch with one receive task per valid entry, in order.
    pub fn arm_recv(&self, scratch: &mut RecvScratch)
        ensures
            final(scratch).tasks@ == p_live_keys(self.entries@),
            final(scratch).slice_scratch@.len() == 0,
            final(scratch).capacity == old(scratch).capacity,
    {
        scratch.get();
        let ghost es = self.entries@;
        let n = self.entries.len();
        let mut i: usize = 0;
        proof {
            assert(es.skip(0) =~= es);
        }
        while i < n
            invariant
                0 <= i <= n,
                n == es.len(),
                es == self.entries@,
                scratch.tasks@ + p_live_keys(es.skip(i as int)) == p_live_keys(es),
                scratch.slice_scratch@.len() == 0,
                scratch.capacity == old(scratch).capacity,
            decreases n - i,
        {
            let ghost pre = es.skip(i as int);
            if self.entries[i].valid {
                scratch.tasks.push(self.entries[i].key);
            }
            i = i + 1;
            proof {
                assert(pre.skip(1) =~= es.skip(i as int));
                assert(pre[0] == es[i - 1]);
            }
        }
        proof {
            assert(es.skip(n as int) =~= Seq::<PlainPipe>::empty());
        }
    }

    /// One round-robin dispatch: picks the `n`-th entry if valid, else the
    /// most recent valid entry seen while walking to it, advances the
    /// rotation, and picks nothing from an empty registry.
    pub fn dispatch(&mut self) -> (r: Option<u64>)
        requires
            old(self).wf(),
        ensures
            final(self).wf(),
            final(self).entries == old(self).entries,
            final(self).capacity == old(self).capacity,
            final(self).next_key == old(self).next_key,
            final(self).need_cleanup == old(self).need_cleanup,
            old(self).entries@.len() == 0 ==> r is None && final(self).send_index == old(
                self,
            ).send_index,
            old(self).entries@.len() > 0 ==> final(self).send_index as int == (old(
                self,
            ).send_index + 1) % (old(self).entries@.len() as int),
            old(self).entries@.len() > 0 ==> (match last_valid_upto(
                old(self).entries@,
                old(self).send_index as int,
            ) {
                Some(i) => (r matches Some(k) && k == old(self).entries@[i].key),
                None => r is None,
            }),
    {
        let n = self.entries.len();
        if n == 0 {
            return None;
        }
        let ghost es = self.entries@;
        let skip_n = self.send_index;
        self.send_index = (skip_n + 1) % n;
        let limit = if skip_n < n {
            skip_n
        } else {
            n - 1
        };
        let mut sel: Option<u64> = None;
        let mut i: usize = 0;
        proof {
            assert(last_valid_upto(es, -1) is None);
        }
        while i <= limit
            invariant
                0 <= i <= limit + 1,
                limit < n,
                n == es.len(),
                es == self.entries@,
                self.capacity == old(self).capacity,
                self.next_key == old(self).next_key,
                self.need_cleanup == old(self).need_cleanup,
                self.send_index as int == (skip_n + 1) % (n as int),
                skip_n == old(self).send_index,
                n > 0,
                match sel {
                    None => last_valid_upto(es, i - 1) is None,
                    Some(k) => last_valid_upto(es, i - 1) matches Some(j) && 0 <= j < es.len()
                        && es[j].key == k,
                },
            decreases limit + 1 - i,
        {
            if self.entries[i].valid {
                sel = Some(self.entries[i].key);
            }
            i = i + 1;
        }
        proof {
            if skip_n >= n {
                assert(last_valid_upto(es, skip_n as int) == last_valid_upto(es, n - 1));
            }
        }
        sel
    }

    /// Flags the entry with key `k` invalid; a cleanup pass will drop it.
    pub fn mark_invalid(&mut self, k: u64)
        requires
            old(self).wf(),
        ensures
            final(self).wf(),
            final(self).capacity == old(self).capacity,
            final(self).next_key == old(self).next_key,
            final(self).send_index == old(self).send_index,
            final(self).entries@.len() == old(self).entries@.len(),
            forall|i: int|
                0 <= i < old(self).entries@.len() ==> (#[trigger] final(self).entries@[i]) == (
                if old(self).entries@[i].key == k {
                    (PlainPipe { key: old(self).entries@[i].key, valid: false })
                } else {
                    old(self).entries@[i]
                }),
            final(self).need_cleanup == (old(self).need_cleanup || exists|i: int|
                0 <= i < old(self).entries@.len() && (#[trigger] old(self).entries@[i]).key
                    == k),
    {
        let n = self.entries.len();
        let mut i: usize = 0;
        while i < n
            invariant
                0 <= i <= n,
                n == self.entries@.len(),
                self == old(self),
                old(self).wf(),
                forall|j: int| 0 <= j < i ==> (#[trigger] self.entries@[j]).key != k,
            decreases n - i,
        {
            if self.entries[i].key == k {
                let e = &mut self.entries[i];
                e.valid = false;
                self.need_cleanup = true;
                proof {
                    let oes = old(self).entries@;
                    assert(p_keys_unique(oes));
                    assert(0 <= i < oes.len());
                    assert(oes[i as int].key == k);
                    assert forall|j: int| 0 <= j < oes.len() && j != i implies (#[trigger] oes[j]).key
                        != k by {
                        if j < i as int {
                            assert(oes[j].key != oes[i as int].key);
                        } else {
                            assert(oes[i as int].key != oes[j].key);
                        }
                    }
                    assert(forall|j: int|
                        0 <= j < self.entries@.len() ==> (#[trigger] self.entries@[j]).key
                            == oes[j].key);
                }
                return ;
            }
            i = i + 1;
        }
    }

    /// Removes every invalid entry, keeping the valid ones in order.
    pub fn cleanup(&mut self) -> (removed: Vec<u64>)
        requires
            old(self).wf(),
        ensures
            final(self).wf(),
            final(self).entries@ == p_live(old(self).entries@),
            removed@ == p_dead_keys(old(self).entries@),
            !final(self).need_cleanup,
            final(self).capacity == old(self).capacity,
            final(self).next_key == old(self).next_key,
            final(self).send_index == old(self).send_index,
    {
        let ghost all = self.entries@;
        let mut kept: Vec<PlainPipe> = Vec::new();
        let mut removed: Vec<u64> = Vec::new();
        while self.entries.len() != 0
            invariant
                kept@ + p_live(self.entries@) == p_live(all),
                removed@ + p_dead_keys(self.entries@) == p_dead_keys(all),
                self.capacity == old(self).capacity,
                self.next_key == old(self).next_key,
                self.send_index == old(self).send_index,
            decreases self.entries@.len(),
        {
            let ghost pre = self.entries@;
            let ghost kept_pre = kept@;
            let ghost removed_pre = removed@;
            let e = self.entries.remove(0);
            proof {
                assert(self.entries@ =~= pre.skip(1));
            }
            if e.valid {
                kept.push(e);
                proof {
                    assert(kept@ + p_live(self.entries@) =~= kept_pre + p_live(pre));
                }
            } else {
                removed.push(e.key);
                proof {
                    assert(removed@ + p_dead_keys(self.entries@) =~= removed_pre + p_dead_keys(
                        pre,
                    ));
                }
            }
        }
        proof {
            assert(kept@ =~= p_live(all));
            assert(removed@ =~= p_dead_keys(all));
        }
        self.entries = kept;
        self.need_cleanup = false;
        proof {
            lemma_p_live_wf(all, self.next_key);
        }
        removed
    }
}

/// Consistent-hash routing of one identifier: the entry at index
/// `hash(id) mod N`, delivered only while that entry is valid.
pub open spec fn target_of(es: Seq<PlainPipe>, id: Seq<u8>) -> Option<u64> {
    if es.len() == 0 {
        None
    } else {
        let idx = ((hash_of(id) as usize) as int) % (es.len() as int);
        if es[idx].valid {
            Some(es[idx].key)
        } else {
            None
        }
    }
}

/// Hash dispatch of a whole packet: one delivery per identifier it
/// carries, each routed independently.
pub open spec fn hash_targets(es: Seq<PlainPipe>, ids: Seq<Seq<u8>>) -> Seq<u64>
    decreases ids.len(),
{
    if ids.len() == 0 {
        Seq::empty()
    } else {
        (match target_of(es, ids[0]) {
            Some(k) => seq![k],
            None => Seq::<u64>::empty(),
        }) + hash_targets(es, ids.skip(1))
    }
}

/// The server stream-handle registry: consistent-hash dispatch.
pub struct ServerStreamHandles {
    pub entries: Vec<PlainPipe>,
    pub next_key: u64,
    pub capacity: usize,
    pub need_cleanup: bool,
}

impl ServerStreamHandles {
    pub open spec fn wf(&self) -> bool {
        &&& self.entries@.len() <= self.capacity
        &&& p_keys_unique(self.entries@)
        &&& p_keys_below(self.entries@, self.next_key)
    }

    pub fn new(capacity: usize) -> (r: Self)
        ensures
            r.wf(),
            r.entries@.len() == 0,
            r.capacity == capacity,
            !r.need_cleanup,
            r.next_key == 0,
    {
        ServerStreamHandles { entries: Vec::new(), next_key: 0, capacity, need_cleanup: false }
    }

    pub fn len(&self) -> (r: usize)
        ensures
            r == self.entries@.len(),
    {
        self.entries.len()
    }

    pub fn need_cleanup(&self) -> (r: bool)
        ensures
            r == self.need_cleanup,
    {
        self.need_cleanup
    }

    /// Appends a valid entry as the tail and hands back its stable key.
    pub fn add(&mut self) -> (k: u64)
        requires
            old(self).wf(),
            old(self).entries@.len() < old(self).capacity,
            old(self).next_key < u64::MAX,
        ensures
            final(self).wf(),
            k == old(self).next_key,
            final(self).entries@ == old(self).entries@.push(
                (PlainPipe { key: old(self).next_key, valid: true }),
            ),
            final(self).next_key == old(self).next_key + 1,
            final(self).capacity == old(self).capacity,
            final(self).need_cleanup == old(self).need_cleanup,
    {
        let k = self.next_key;
        self.entries.push(PlainPipe { key: k, valid: true });
        self.next_key = k + 1;
        k
    }

    /// Fills the scratch with one receive task per valid entry, in order.
    pub fn arm_recv(&self, scratch: &mut RecvScratch)
        ensures
            final(scratch).tasks@ == p_live_keys(self.entries@),
            final(scratch).slice_scratch@.len() == 0,
            final(scratch).capacity == old(scratch).capacity,
    {
        scratch.get();
        let ghost es = self.entries@;
        let n = self.entries.len();
        let mut i: usize = 0;
        proof {
            assert(es.skip(0) =~= es);
        }
        while i < n
            invariant
                0 <= i <= n,
                n == es.len(),
                es == self.entries@,
                scratch.tasks@ + p_live_keys(es.skip(i as int)) == p_live_keys(es),
                scratch.slice_scratch@.len() == 0,
                scratch.capacity == old(scratch).capacity,
            decreases n - i,
        {
            let ghost pre = es.skip(i as int);
            if self.entries[i].valid {
                scratch.tasks.push(self.entries[i].key);
            }
            i = i + 1;
            proof {
                assert(pre.skip(1) =~= es.skip(i as int));
                assert(pre[0] == es[i - 1]);
            }
        }
        proof {
            assert(es.skip(n as int) =~= Seq::<PlainPipe>::empty());
        }
    }

    /// Hash dispatch of one inbound packet: for each identifier it
    /// carries, the entry at index `hash(id) mod N` receives it if valid.
    pub fn dispatch(&self, ids: &Vec<Vec<u8>>) -> (r: Vec<u64>)
        ensures
            r@ == hash_targets(self.entries@, ids@.map_values(|x: Vec<u8>| x@)),
    {
        let ghost es = self.entries@;
        let ghost idsv = ids@.map_values(|x: Vec<u8>| x@);
        let mut out: Vec<u64> = Vec::new();
        let n = self.entries.len();
        if n == 0 {
            proof {
                lemma_hash_targets_empty(es, idsv);
            }
            return out;
        }
        let m = ids.len();
        let mut i: usize = 0;
        proof {
            assert(idsv.skip(0) =~= idsv);
        }
        while i < m
            invariant
                0 <= i <= m,
                m == idsv.len(),
                n == es.len(),
                n > 0,
                es == self.entries@,
                idsv == ids@.map_values(|x: Vec<u8>| x@),
                m == ids@.len(),
                out@ + hash_targets(es, idsv.skip(i as int)) == hash_targets(es, idsv),
            decreases m - i,
        {
            let ghost pre = idsv.skip(i as int);
            let idx = crate::packet::hash(ids[i].as_slice()) % n;
            proof {
                assert(ids@[i as int]@ == idsv[i as int]);
                assert(pre[0] == idsv[i as int]);
            }
            if self.entries[idx].valid {
                out.push(self.entries[idx].key);
            }
            i = i + 1;
            proof {
                assert(pre.skip(1) =~= idsv.skip(i as int));
            }
        }
        proof {
            assert(idsv.skip(m as int) =~= Seq::<Seq<u8>>::empty());
        }
        out
    }

    /// Flags the entry with key `k` invalid; a cleanup pass will drop it.
    pub fn mark_invalid(&mut self, k: u64)
        requires
            old(self).wf(),
        ensures
            final(self).wf(),
            final(self).capacity == old(self).capacity,
            final(self).next_key == old(self).next_key,
            final(self).entries@.len() == old(self).entries@.len(),
            forall|i: int|
                0 <= i < old(self).entries@.len() ==> (#[trigger] final(self).entries@[i]) == (
                if old(self).entries@[i].key == k {
                    (PlainPipe { key: old(self).entries@[i].key, valid: false })
                } else {
                    old(self).entries@[i]
                }),
            final(self).need_cleanup == (old(self).need_cleanup || exists|i: int|
                0 <= i < old(self).entries@.len() && (#[trigger] old(self).entries@[i]).key
                    == k),
    {
        let n = self.entries.len();
        let mut i: usize = 0;
        while i < n
            invariant
                0 <= i <= n,
                n == self.entries@.len(),
                self == old(self),
                old(self).wf(),
                forall|j: int| 0 <= j < i ==> (#[trigger] self.entries@[j]).key != k,
            decreases n - i,
        {
            if self.entries[i].key == k {
                let e = &mut self.entries[i];
                e.valid = false;
                self.need_cleanup = true;
                proof {
                    let oes = old(self).entries@;
                    assert(p_keys_unique(oes));
                    assert(0 <= i < oes.len());
                    assert(oes[i as int].key == k);
                    assert forall|j: int| 0 <= j < oes.len() && j != i implies (#[trigger] oes[j]).key
                        != k by {
                        if j < i as int {
                            assert(oes[j].key != oes[i as int].key);
                        } else {
                            assert(oes[i as int].key != oes[j].key);
                        }
                    }
                    assert(forall|j: int|
                        0 <= j < self.entries@.len() ==> (#[trigger] self.entries@[j]).key
                            == oes[j].key);
                }
                return ;
            }
            i = i + 1;
        }
    }

    /// Removes every invalid entry, keeping the valid ones in order.
    pub fn cleanup(&mut self) -> (removed: Vec<u64>)
        requires
            old(self).wf(),
        ensures
            final(self).wf(),
            final(self).entries@ == p_live(old(self).entries@),
            removed@ == p_dead_keys(old(self).entries@),
            !final(self).need_cleanup,
            final(self).capacity == old(self).capacity,
            final(self).next_key == old(self).next_key,
    {
        let ghost all = self.entries@;
        let mut kept: Vec<PlainPipe> = Vec::new();
        let mut removed: Vec<u64> = Vec::new();
        while self.entries.len() != 0
            invariant
                kept@ + p_live(self.entries@) == p_live(all),
                removed@ + p_dead_keys(self.entries@) == p_dead_keys(all),
                self.capacity == old(self).capacity,
                self.next_key == old(self).next_key,
            decreases self.entries@.len(),
        {
            let ghost pre = self.entries@;
            let ghost kept_pre = kept@;
            let ghost removed_pre = removed@;
            let e = self.entries.remove(0);
            proof {
                assert(self.entries@ =~= pre.skip(1));
            }
            if e.valid {
                kept.push(e);
                proof {
                    assert(kept@ + p_live(self.entries@) =~= kept_pre + p_live(pre));
                }
            } else {
                removed.push(e.key);
                proof {
                    assert(removed@ + p_dead_keys(self.entries@) =~= removed_pre + p_dead_keys(
                        pre,
                    ));
                }
            }
        }
        proof {
            assert(kept@ =~= p_live(all));
            assert(removed@ =~= p_dead_keys(all));
        }
        self.entries = kept;
        self.need_cleanup = false;
        proof {
            lemma_p_live_wf(all, self.next_key);
        }
        removed
    }
}

/// With no entries, hash dispatch delivers nothing, however many
/// identifiers the packet carries.
proof fn lemma_hash_targets_empty(es: Seq<PlainPipe>, ids: Seq<Seq<u8>>)
    requires
        es.len() == 0,
    ensures
        hash_targets(es, ids) == Seq::<u64>::empty(),
    decreases ids.len(),
{
    if ids.len() > 0 {
        lemma_hash_targets_empty(es, ids.skip(1));
        assert(hash_targets(es, ids) =~= Seq::<u64>::empty());
    }
}

} // verus!
