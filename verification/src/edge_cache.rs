//! Edge-state cache: two bits per node, stored as one of four quantized
//! conductance levels, kept in a direct-mapped cache.

use vstd::prelude::*;

verus! {

/// Number of conductance quantization levels (2 bits per node).
pub const CONDUCTANCE_LEVELS: u8 = 4;

/// Lower bounds of the four conductance levels.
pub const LEVEL_THRESHOLDS: [u16; 4] = [0, 4096, 8192, 12288];

/// Level 0: no edge state (insulating).
pub const LEVEL_0_MAX: u16 = 4095;

/// Level 1: single edge mode.
pub const LEVEL_1_MIN: u16 = 4096;

pub const LEVEL_1_MAX: u16 = 8191;

/// Level 2: two edge modes.
pub const LEVEL_2_MIN: u16 = 8192;

pub const LEVEL_2_MAX: u16 = 12287;

/// Level 3: three edge modes.
pub const LEVEL_3_MIN: u16 = 12288;

pub const LEVEL_3_MAX: u16 = 16383;

/// The 2-bit value that a conductance reading encodes.
pub open spec fn conductance_level(c: u16) -> u8 {
    if c <= LEVEL_0_MAX {
        0
    } else if c <= LEVEL_1_MAX {
        1
    } else if c <= LEVEL_2_MAX {
        2
    } else {
        3
    }
}

/// The target conductance of a 2-bit value: the midpoint of its level.
pub open spec fn level_midpoint(d: u8) -> u16 {
    let v = d % 4;
    if v == 0 {
        2047
    } else if v == 1 {
        6143
    } else if v == 2 {
        10239
    } else {
        14335
    }
}

/// Cached data for one node.
#[derive(Debug, Clone, Copy, PartialEq, Eq, Structural)]
pub struct EdgeCacheEntry {
    /// Node ID (0-9999)
    pub node_id: u16,
    /// Cached 2-bit data value (0-3)
    pub data: u8,
    /// Last measured conductance value (raw ADC)
    pub last_conductance: u16,
    /// Timestamp of last access
    pub last_access: u32,
    /// Valid bit (entry contains data)
    pub valid: bool,
    /// Dirty bit (needs writeback)
    pub dirty: bool,
}

impl Default for EdgeCacheEntry {
    fn default() -> (r: Self)
        ensures
            r == (EdgeCacheEntry {
                node_id: 0,
                data: 0,
                last_conductance: 0,
                last_access: 0,
                valid: false,
                dirty: false,
            }),
    {
        EdgeCacheEntry { node_id: 0, data: 0, last_conductance: 0, last_access: 0, valid: false, dirty: false }
    }
}

/// The empty entry of a node.
pub open spec fn empty_entry(node_id: u16) -> EdgeCacheEntry {
    EdgeCacheEntry { node_id, data: 0, last_conductance: 0, last_access: 0, valid: false, dirty: false }
}

impl EdgeCacheEntry {
    /// An empty (invalid, clean) entry for a node.
    pub fn new(node_id: u16) -> (r: Self)
        ensures
            r == empty_entry(node_id),
    {
        EdgeCacheEntry { node_id, data: 0, last_conductance: 0, last_access: 0, valid: false, dirty: false }
    }

    /// Record a conductance measurement: the entry becomes valid and holds
    /// the level it encodes.
    pub fn update_from_conductance(&mut self, conductance: u16, timestamp: u32)
        ensures
            *final(self) == (EdgeCacheEntry {
                last_conductance: conductance,
                data: conductance_level(conductance),
                last_access: timestamp,
                valid: true,
                ..*old(self)
            }),
    {
        self.last_conductance = conductance;
        self.data = Self::conductance_to_data(conductance);
        self.last_access = timestamp;
        self.valid = true;
    }

    /// The target conductance of the entry's data.
    pub fn target_conductance(&self) -> (r: u16)
        ensures
            r == level_midpoint(self.data),
    {
        Self::data_to_conductance(self.data)
    }

    /// The 2-bit value a conductance reading encodes.
    pub fn conductance_to_data(conductance: u16) -> (r: u8)
        ensures
            r == conductance_level(conductance),
    {
        if conductance <= LEVEL_0_MAX {
            0
        } else if conductance <= LEVEL_1_MAX {
            1
        } else if conductance <= LEVEL_2_MAX {
            2
        } else {
            3
        }
    }

    /// The target conductance (level midpoint) of the low two bits of `data`.
    pub fn data_to_conductance(data: u8) -> (r: u16)
        ensures
            r == level_midpoint(data),
    {
        let v = data & 0x03;
        assert(data & 0x03 == data % 4) by (bit_vector);
        if v == 0 {
            LEVEL_0_MAX / 2
        } else if v == 1 {
            (LEVEL_1_MIN + LEVEL_1_MAX) / 2
        } else if v == 2 {
            (LEVEL_2_MIN + LEVEL_2_MAX) / 2
        } else {
            (LEVEL_3_MIN + LEVEL_3_MAX) / 2
        }
    }

    /// Mark the entry as needing writeback.
    pub fn mark_dirty(&mut self)
        ensures
            *final(self) == (EdgeCacheEntry { dirty: true, ..*old(self) }),
    {
        self.dirty = true;
    }

    /// Mark the entry as written back.
    pub fn mark_clean(&mut self)
        ensures
            *final(self) == (EdgeCacheEntry { dirty: false, ..*old(self) }),
    {
        self.dirty = false;
    }

    /// Invalidate the entry.
    pub fn invalidate(&mut self)
        ensures
            *final(self) == (EdgeCacheEntry { valid: false, dirty: false, ..*old(self) }),
    {
        self.valid = false;
        self.dirty = false;
    }
}

/// Writing a 2-bit value as its target conductance and measuring it back
/// gives the value.
pub proof fn law_conductance_round_trip(d: u8)
    ensures
        conductance_level(level_midpoint(d)) == d % 4,
{
}

/// Every target conductance lies inside its level's range.
pub proof fn law_midpoint_in_level(d: u8)
    ensures
        d % 4 == 0 ==> level_midpoint(d) <= LEVEL_0_MAX,
        d % 4 == 1 ==> LEVEL_1_MIN <= level_midpoint(d) <= LEVEL_1_MAX,
        d % 4 == 2 ==> LEVEL_2_MIN <= level_midpoint(d) <= LEVEL_2_MAX,
        d % 4 == 3 ==> LEVEL_3_MIN <= level_midpoint(d) <= LEVEL_3_MAX,
{
}

/// Cache performance statistics.
#[derive(Debug, Clone, Copy, PartialEq, Eq, Structural)]
pub struct CacheStats {
    /// Number of cache hits
    pub hits: u32,
    /// Number of cache misses
    pub misses: u32,
    /// Number of writebacks
    pub writebacks: u32,
    /// Number of invalidations
    pub invalidations: u32,
}

impl Default for CacheStats {
    fn default() -> (r: Self)
        ensures
            r == (CacheStats { hits: 0, misses: 0, writebacks: 0, invalidations: 0 }),
    {
        CacheStats { hits: 0, misses: 0, writebacks: 0, invalidations: 0 }
    }
}

impl CacheStats {
    /// Reset every counter to zero.
    pub fn reset(&mut self)
        ensures
            *final(self) == (CacheStats { hits: 0, misses: 0, writebacks: 0, invalidations: 0 }),
    {
        *self = CacheStats::default();
    }
}

/// The abstract state of an edge cache.
pub ghost struct EdgeCacheView {
    pub entries: Seq<EdgeCacheEntry>,
    pub timestamp: u32,
    pub stats: CacheStats,
}

/// The slot of a node in a direct-mapped cache of `n` entries.
pub open spec fn slot(node_id: u16, n: nat) -> int {
    node_id as int % n as int
}

/// The cached data of a node, if its slot holds a valid entry for it.
pub open spec fn lookup_spec(v: EdgeCacheView, node_id: u16, n: nat) -> Option<u8> {
    let i = slot(node_id, n);
    if i < v.entries.len() && v.entries[i].valid && v.entries[i].node_id == node_id {
        Some(v.entries[i].data)
    } else {
        None
    }
}

/// Reading a node: the lookup result, counted as a hit or a miss.
pub open spec fn read_spec(v: EdgeCacheView, node_id: u16, n: nat) -> (EdgeCacheView, Option<u8>) {
    match lookup_spec(v, node_id, n) {
        Some(d) => (EdgeCacheView { stats: CacheStats { hits: (v.stats.hits + 1) as u32, ..v.stats }, ..v }, Some(d)),
        None => (
            EdgeCacheView { stats: CacheStats { misses: (v.stats.misses + 1) as u32, ..v.stats }, ..v },
            None,
        ),
    }
}

/// Writing a node: a valid, dirty entry holding the low two bits of `data`
/// replaces the node's slot (a valid dirty entry of another node there
/// counts as a writeback); when the slot lies past the stored entries the
/// entry is appended instead, which fails when the cache is full.
pub open spec fn write_spec(v: EdgeCacheView, node_id: u16, data: u8, n: nat) -> (EdgeCacheView, bool) {
    let i = slot(node_id, n);
    let evict = i < v.entries.len() && v.entries[i].valid && v.entries[i].dirty && v.entries[i].node_id
        != node_id;
    let stats = if evict {
        CacheStats { writebacks: (v.stats.writebacks + 1) as u32, ..v.stats }
    } else {
        v.stats
    };
    let e = EdgeCacheEntry {
        node_id,
        data: data % 4,
        last_conductance: 0,
        last_access: v.timestamp,
        valid: true,
        dirty: true,
    };
    if i < v.entries.len() {
        (EdgeCacheView { entries: v.entries.update(i, e), stats, ..v }, true)
    } else if v.entries.len() < n {
        (EdgeCacheView { entries: v.entries.push(e), stats, ..v }, true)
    } else {
        (EdgeCacheView { stats, ..v }, false)
    }
}

/// Number of valid entries in `s`.
pub open spec fn count_valid(s: Seq<EdgeCacheEntry>) -> nat
    decreases s.len(),
{
    if s.len() == 0 {
        0
    } else {
        count_valid(s.drop_last()) + (if s.last().valid { 1nat } else { 0nat })
    }
}

/// Whether an entry is waiting for writeback.
pub open spec fn is_dirty(e: EdgeCacheEntry) -> bool {
    e.valid && e.dirty
}

/// Number of valid, dirty entries in `s`.
pub open spec fn count_dirty(s: Seq<EdgeCacheEntry>) -> nat
    decreases s.len(),
{
    if s.len() == 0 {
        0
    } else {
        count_dirty(s.drop_last()) + (if is_dirty(s.last()) { 1nat } else { 0nat })
    }
}

/// An entry after writeback.
pub open spec fn cleaned(e: EdgeCacheEntry) -> EdgeCacheEntry {
    if is_dirty(e) {
        EdgeCacheEntry { dirty: false, ..e }
    } else {
        e
    }
}

/// Direct-mapped edge cache with `NUM_ENTRIES` slots.
pub struct EdgeCache<const NUM_ENTRIES: usize> {
    entries: Vec<EdgeCacheEntry>,
    timestamp: u32,
    stats: CacheStats,
}

impl<const NUM_ENTRIES: usize> View for EdgeCache<NUM_ENTRIES> {
    type V = EdgeCacheView;

    closed spec fn view(&self) -> EdgeCacheView {
        EdgeCacheView { entries: self.entries@, timestamp: self.timestamp, stats: self.stats }
    }
}

impl<const NUM_ENTRIES: usize> EdgeCache<NUM_ENTRIES> {
    /// The number of slots: `NUM_ENTRIES`, at most the 10,000 nodes of the
    /// grid.
    pub open spec fn slot_count() -> nat {
        (if NUM_ENTRIES < 10000 { NUM_ENTRIES } else { 10000 }) as nat
    }

    /// The cache holds an entry for each of its first `slot_count` slots,
    /// and never more than `NUM_ENTRIES` entries.
    pub open spec fn wf(&self) -> bool {
        Self::slot_count() <= self@.entries.len() <= NUM_ENTRIES
    }

    /// The state of a fresh cache: one empty entry per slot (at most
    /// 10,000), timestamp 0 and zero statistics.
    pub open spec fn new_view() -> EdgeCacheView {
        EdgeCacheView {
            entries: Seq::new(
                (if NUM_ENTRIES < 10000 { NUM_ENTRIES } else { 10000 }) as nat,
                |i: int| empty_entry(i as u16),
            ),
            timestamp: 0,
            stats: CacheStats { hits: 0, misses: 0, writebacks: 0, invalidations: 0 },
        }
    }

    /// A fresh cache.
    pub fn new() -> (r: Self)
        ensures
            r.wf(),
            r@ == Self::new_view(),
    {
        let n: usize = if NUM_ENTRIES < 10000 { NUM_ENTRIES } else { 10000 };
        let mut entries: Vec<EdgeCacheEntry> = Vec::new();
        let mut i: usize = 0;
        while i < n
            invariant
                n <= 10000,
                n <= NUM_ENTRIES,
                i <= n,
                entries@ == Seq::new(i as nat, |k: int| empty_entry(k as u16)),
            decreases n - i,
        {
            entries.push(EdgeCacheEntry::new(i as u16));
            assert(entries@ =~= Seq::new((i + 1) as nat, |k: int| empty_entry(k as u16)));
            i += 1;
        }
        EdgeCache { entries, timestamp: 0, stats: CacheStats::default() }
    }

    /// The current timestamp.
    pub fn timestamp(&self) -> (r: u32)
        ensures
            r == self@.timestamp,
    {
        self.timestamp
    }

    /// Advance the timestamp (wrapping).
    pub fn tick(&mut self)
        ensures
            final(self).wf() == old(self).wf(),
            final(self)@ == (EdgeCacheView {
                timestamp: (if old(self)@.timestamp == u32::MAX { 0 } else { old(self)@.timestamp + 1 }) as u32,
                ..old(self)@
            }),
    {
        self.timestamp = if self.timestamp == u32::MAX { 0 } else { self.timestamp + 1 };
    }

    /// The slot and entry of a node, if its slot holds a valid entry for it.
    pub fn lookup(&self, node_id: u16) -> (r: Option<(usize, &EdgeCacheEntry)>)
        requires
            NUM_ENTRIES > 0,
        ensures
            r is Some <==> lookup_spec(self@, node_id, NUM_ENTRIES as nat) is Some,
            r matches Some(p) ==> p.0 == slot(node_id, NUM_ENTRIES as nat) && *p.1 == self@.entries[p.0 as int]
                && p.1.data == lookup_spec(self@, node_id, NUM_ENTRIES as nat).unwrap(),
    {
        let index = (node_id as usize) % NUM_ENTRIES;
        if index < self.entries.len() {
            let entry = &self.entries[index];
            if entry.valid && entry.node_id == node_id {
                return Some((index, entry));
            }
        }
        None
    }

    /// Read a node's data, counting a hit or a miss.
    pub fn read(&mut self, node_id: u16) -> (r: Option<u8>)
        requires
            NUM_ENTRIES > 0,
            old(self)@.stats.hits < u32::MAX,
            old(self)@.stats.misses < u32::MAX,
        ensures
            final(self).wf() == old(self).wf(),
            (final(self)@, r) == read_spec(old(self)@, node_id, NUM_ENTRIES as nat),
    {
        let found = match self.lookup(node_id) {
            Some((_, entry)) => Some(entry.data),
            None => None,
        };
        match found {
            Some(d) => {
                self.stats.hits += 1;
                Some(d)
            },
            None => {
                self.stats.misses += 1;
                None
            },
        }
    }

    /// Write a node's data (its low two bits) into its slot. When the slot
    /// lies past the stored entries (possible only for caches of more than
    /// 10,000 entries) the entry is appended instead, and a full cache
    /// refuses it.
    pub fn write(&mut self, node_id: u16, data: u8) -> (r: Result<(), ()>)
        requires
            NUM_ENTRIES > 0,
            old(self).wf(),
            old(self)@.stats.writebacks < u32::MAX,
        ensures
            final(self).wf(),
            (final(self)@, r is Ok) == write_spec(old(self)@, node_id, data, NUM_ENTRIES as nat),
    {
        let index = (node_id as usize) % NUM_ENTRIES;
        if index < self.entries.len() {
            let existing = self.entries[index];
            if existing.valid && existing.dirty && existing.node_id != node_id {
                self.stats.writebacks += 1;
            }
        }
        assert(data & 0x03 == data % 4) by (bit_vector);
        let entry = EdgeCacheEntry {
            node_id,
            data: data & 0x03,
            last_conductance: 0,
            last_access: self.timestamp,
            valid: true,
            dirty: true,
        };
        if index < self.entries.len() {
            self.entries[index] = entry;
        } else if self.entries.len() < NUM_ENTRIES {
            self.entries.push(entry);
        } else {
            return Err(());
        }
        Ok(())
    }

    /// Invalidate a node's slot if it belongs to the node (valid or not).
    pub fn invalidate(&mut self, node_id: u16) -> (r: bool)
        requires
            NUM_ENTRIES > 0,
            old(self)@.stats.invalidations < u32::MAX,
        ensures
            final(self).wf() == old(self).wf(),
            ({
                let i = slot(node_id, NUM_ENTRIES as nat);
                let hit = i < old(self)@.entries.len() && old(self)@.entries[i].node_id == node_id;
                &&& r == hit
                &&& hit ==> final(self)@ == (EdgeCacheView {
                    entries: old(self)@.entries.update(
                        i,
                        EdgeCacheEntry { valid: false, dirty: false, ..old(self)@.entries[i] },
                    ),
                    stats: CacheStats {
                        invalidations: (old(self)@.stats.invalidations + 1) as u32,
                        ..old(self)@.stats
                    },
                    ..old(self)@
                })
                &&& !hit ==> final(self)@ == old(self)@
            }),
            lookup_spec(final(self)@, node_id, NUM_ENTRIES as nat) is None,
    {
        let index = (node_id as usize) % NUM_ENTRIES;
        if index < self.entries.len() {
            if self.entries[index].node_id == node_id {
                let mut e = self.entries[index];
                e.invalidate();
                self.entries[index] = e;
                self.stats.invalidations += 1;
                return true;
            }
        }
        false
    }

    /// Write back every valid dirty entry (they become clean); returns how
    /// many there were, which is added to the writeback count.
    pub fn flush(&mut self) -> (r: u32)
        requires
            old(self)@.stats.writebacks + count_dirty(old(self)@.entries) <= u32::MAX,
        ensures
            final(self).wf() == old(self).wf(),
            r == count_dirty(old(self)@.entries),
            final(self)@.entries == old(self)@.entries.map_values(|e: EdgeCacheEntry| cleaned(e)),
            final(self)@.stats == (CacheStats {
                writebacks: (old(self)@.stats.writebacks + r) as u32,
                ..old(self)@.stats
            }),
            final(self)@.timestamp == old(self)@.timestamp,
            count_dirty(final(self)@.entries) == 0,
    {
        let ghost old_entries = self.entries@;
        let n = self.entries.len();
        let mut count: u32 = 0;
        let mut i: usize = 0;
        while i < n
            invariant
                n == self.entries@.len(),
                n == old_entries.len(),
                i <= n,
                count == count_dirty(old_entries.take(i as int)),
                old(self)@.stats.writebacks + count_dirty(old_entries) <= u32::MAX,
                forall|k: int| 0 <= k < i ==> #[trigger] self.entries@[k] == cleaned(old_entries[k]),
                forall|k: int| i <= k < n ==> #[trigger] self.entries@[k] == old_entries[k],
                self.stats == old(self).stats,
                self.timestamp == old(self).timestamp,
            decreases n - i,
        {
            proof {
                assert(old_entries.take(i + 1).drop_last() == old_entries.take(i as int));
                lemma_count_dirty_prefix(old_entries, (i + 1) as int);
            }
            if self.entries[i].valid && self.entries[i].dirty {
                let mut e = self.entries[i];
                e.mark_clean();
                self.entries.set(i, e);
                count += 1;
            }
            i += 1;
        }
        assert(old_entries.take(n as int) == old_entries);
        assert(self.entries@ =~= old_entries.map_values(|e: EdgeCacheEntry| cleaned(e)));
        self.stats.writebacks += count;
        proof {
            lemma_count_dirty_none(self.entries@);
        }
        count
    }

    /// The statistics.
    pub fn stats(&self) -> (r: &CacheStats)
        ensures
            *r == self@.stats,
    {
        &self.stats
    }

    /// Reset the statistics.
    pub fn reset_stats(&mut self)
        ensures
            final(self).wf() == old(self).wf(),
            final(self)@ == (EdgeCacheView {
                stats: CacheStats { hits: 0, misses: 0, writebacks: 0, invalidations: 0 },
                ..old(self)@
            }),
    {
        self.stats.reset();
    }

    /// Number of valid entries.
    pub fn valid_entries(&self) -> (r: usize)
        ensures
            r == count_valid(self@.entries),
    {
        let n = self.entries.len();
        let mut count: usize = 0;
        let mut i: usize = 0;
        while i < n
            invariant
                n == self.entries@.len(),
                i <= n,
                count <= i,
                count == count_valid(self.entries@.take(i as int)),
            decreases n - i,
        {
            assert(self.entries@.take(i + 1).drop_last() == self.entries@.take(i as int));
            if self.entries[i].valid {
                count += 1;
            }
            i += 1;
        }
        assert(self.entries@.take(n as int) == self.entries@);
        count
    }

    /// Number of valid, dirty entries.
    pub fn dirty_entries(&self) -> (r: usize)
        ensures
            r == count_dirty(self@.entries),
    {
        let n = self.entries.len();
        let mut count: usize = 0;
        let mut i: usize = 0;
        while i < n
            invariant
                n == self.entries@.len(),
                i <= n,
                count <= i,
                count == count_dirty(self.entries@.take(i as int)),
            decreases n - i,
        {
            assert(self.entries@.take(i + 1).drop_last() == self.entries@.take(i as int));
            if self.entries[i].valid && self.entries[i].dirty {
                count += 1;
            }
            i += 1;
        }
        assert(self.entries@.take(n as int) == self.entries@);
        count
    }
}

impl<const NUM_ENTRIES: usize> Default for EdgeCache<NUM_ENTRIES> {
    fn default() -> (r: Self)
        ensures
            r.wf(),
            r@ == Self::new_view(),
    {
        Self::new()
    }
}

/// Capacity of the pending-write buffer.
pub const WRITE_BUFFER_CAPACITY: usize = 64;

/// Capacity of the prefetch queue.
pub const PREFETCH_QUEUE_CAPACITY: usize = 16;

/// Applying queued writes in order: the final cache and how many succeeded.
pub open spec fn apply_writes(v: EdgeCacheView, ws: Seq<(u16, u8)>, n: nat) -> (EdgeCacheView, nat)
    decreases ws.len(),
{
    if ws.len() == 0 {
        (v, 0)
    } else {
        let prev = apply_writes(v, ws.drop_last(), n);
        let step = write_spec(prev.0, ws.last().0, ws.last().1, n);
        (step.0, prev.1 + (if step.1 { 1nat } else { 0nat }))
    }
}

/// Reading queued nodes in order: the final cache and how many were hits.
pub open spec fn apply_reads(v: EdgeCacheView, ids: Seq<u16>, n: nat) -> (EdgeCacheView, nat)
    decreases ids.len(),
{
    if ids.len() == 0 {
        (v, 0)
    } else {
        let prev = apply_reads(v, ids.drop_last(), n);
        let step = read_spec(prev.0, ids.last(), n);
        (step.0, prev.1 + (if step.1 is Some { 1nat } else { 0nat }))
    }
}

/// Each write adds at most one writeback and one success, keeps the
/// timestamp and never grows the cache past `n` entries.
proof fn lemma_apply_writes_bounds(v: EdgeCacheView, ws: Seq<(u16, u8)>, n: nat)
    requires
        n > 0,
        v.stats.writebacks + ws.len() <= u32::MAX,
        v.entries.len() <= n,
    ensures
        apply_writes(v, ws, n).0.stats.writebacks <= v.stats.writebacks + ws.len(),
        apply_writes(v, ws, n).1 <= ws.len(),
        apply_writes(v, ws, n).0.entries.len() <= n,
        apply_writes(v, ws, n).0.timestamp == v.timestamp,
    decreases ws.len(),
{
    if ws.len() > 0 {
        lemma_apply_writes_bounds(v, ws.drop_last(), n);
    }
}

/// Each read adds at most one hit or one miss and changes nothing else.
proof fn lemma_apply_reads_bounds(v: EdgeCacheView, ids: Seq<u16>, n: nat)
    requires
        v.stats.hits + ids.len() <= u32::MAX,
        v.stats.misses + ids.len() <= u32::MAX,
    ensures
        apply_reads(v, ids, n).0.stats.hits <= v.stats.hits + ids.len(),
        apply_reads(v, ids, n).0.stats.misses <= v.stats.misses + ids.len(),
        apply_reads(v, ids, n).1 <= ids.len(),
        apply_reads(v, ids, n).0.entries == v.entries,
        apply_reads(v, ids, n).0.timestamp == v.timestamp,
    decreases ids.len(),
{
    if ids.len() > 0 {
        lemma_apply_reads_bounds(v, ids.drop_last(), n);
    }
}

/// An edge cache with a buffer of pending writes and a queue of prefetches.
pub struct EdgeCacheBulk<const NUM_ENTRIES: usize> {
    cache: EdgeCache<NUM_ENTRIES>,
    write_buffer: Vec<(u16, u8)>,
    prefetch_queue: Vec<u16>,
}

impl<const NUM_ENTRIES: usize> EdgeCacheBulk<NUM_ENTRIES> {
    /// The underlying cache.
    pub closed spec fn inner(&self) -> EdgeCache<NUM_ENTRIES> {
        self.cache
    }

    /// The writes waiting in the buffer, oldest first.
    pub closed spec fn pending_writes(&self) -> Seq<(u16, u8)> {
        self.write_buffer@
    }

    /// The nodes waiting in the prefetch queue, oldest first.
    pub closed spec fn pending_prefetches(&self) -> Seq<u16> {
        self.prefetch_queue@
    }

    /// The buffers stay within their capacities and the cache is well formed.
    pub open spec fn wf(&self) -> bool {
        &&& self.inner().wf()
        &&& self.pending_writes().len() <= WRITE_BUFFER_CAPACITY
        &&& self.pending_prefetches().len() <= PREFETCH_QUEUE_CAPACITY
    }

    /// A fresh cache with empty buffers.
    pub fn new() -> (r: Self)
        ensures
            r.wf(),
            r.inner()@ == EdgeCache::<NUM_ENTRIES>::new_view(),
            r.pending_writes() == Seq::<(u16, u8)>::empty(),
            r.pending_prefetches() == Seq::<u16>::empty(),
    {
        EdgeCacheBulk { cache: EdgeCache::new(), write_buffer: Vec::new(), prefetch_queue: Vec::new() }
    }

    /// Queue a write; fails, changing nothing, when the buffer is full.
    pub fn queue_write(&mut self, node_id: u16, data: u8) -> (r: Result<(), ()>)
        requires
            old(self).wf(),
        ensures
            final(self).wf(),
            final(self).inner() == old(self).inner(),
            final(self).pending_prefetches() == old(self).pending_prefetches(),
            r is Ok <==> old(self).pending_writes().len() < WRITE_BUFFER_CAPACITY,
            r is Ok ==> final(self).pending_writes() == old(self).pending_writes().push((node_id, data)),
            r is Err ==> final(self).pending_writes() == old(self).pending_writes(),
    {
        if self.write_buffer.len() < WRITE_BUFFER_CAPACITY {
            self.write_buffer.push((node_id, data));
            Ok(())
        } else {
            Err(())
        }
    }

    /// Queue a prefetch; fails, changing nothing, when the queue is full.
    pub fn queue_prefetch(&mut self, node_id: u16) -> (r: Result<(), ()>)
        requires
            old(self).wf(),
        ensures
            final(self).wf(),
            final(self).inner() == old(self).inner(),
            final(self).pending_writes() == old(self).pending_writes(),
            r is Ok <==> old(self).pending_prefetches().len() < PREFETCH_QUEUE_CAPACITY,
            r is Ok ==> final(self).pending_prefetches() == old(self).pending_prefetches().push(node_id),
            r is Err ==> final(self).pending_prefetches() == old(self).pending_prefetches(),
    {
        if self.prefetch_queue.len() < PREFETCH_QUEUE_CAPACITY {
            self.prefetch_queue.push(node_id);
            Ok(())
        } else {
            Err(())
        }
    }

    /// Apply every pending write to the cache in order, empty the buffer and
    /// return how many writes succeeded.
    pub fn flush_writes(&mut self) -> (r: usize)
        requires
            NUM_ENTRIES > 0,
            old(self).wf(),
            old(self).inner()@.stats.writebacks + old(self).pending_writes().len() <= u32::MAX,
        ensures
            final(self).wf(),
            (final(self).inner()@, r as nat) == apply_writes(
                old(self).inner()@,
                old(self).pending_writes(),
                NUM_ENTRIES as nat,
            ),
            final(self).pending_writes() == Seq::<(u16, u8)>::empty(),
            final(self).pending_prefetches() == old(self).pending_prefetches(),
    {
        let ghost start = self.cache@;
        let ghost ws = self.write_buffer@;
        proof {
            lemma_apply_writes_bounds(start, ws, NUM_ENTRIES as nat);
        }
        let n = self.write_buffer.len();
        let mut count: usize = 0;
        let mut i: usize = 0;
        while i < n
            invariant
                NUM_ENTRIES > 0,
                n == ws.len(),
                ws == self.write_buffer@,
                n <= WRITE_BUFFER_CAPACITY,
                i <= n,
                start.stats.writebacks + ws.len() <= u32::MAX,
                start.entries.len() <= NUM_ENTRIES,
                (self.cache@, count as nat) == apply_writes(start, ws.take(i as int), NUM_ENTRIES as nat),
                self.cache.wf(),
                self.prefetch_queue@ == old(self).prefetch_queue@,
            decreases n - i,
        {
            proof {
                assert(ws.take(i + 1).drop_last() == ws.take(i as int));
                lemma_apply_writes_bounds(start, ws.take(i as int), NUM_ENTRIES as nat);
            }
            let (node_id, data) = self.write_buffer[i];
            if self.cache.write(node_id, data).is_ok() {
                count += 1;
            }
            i += 1;
        }
        assert(ws.take(n as int) == ws);
        self.write_buffer.clear();
        count
    }

    /// Read every queued node from the cache in order (counting hits and
    /// misses), empty the queue and return how many were hits.
    pub fn execute_prefetches(&mut self) -> (r: usize)
        requires
            NUM_ENTRIES > 0,
            old(self).wf(),
            old(self).inner()@.stats.hits + old(self).pending_prefetches().len() <= u32::MAX,
            old(self).inner()@.stats.misses + old(self).pending_prefetches().len() <= u32::MAX,
        ensures
            final(self).wf(),
            (final(self).inner()@, r as nat) == apply_reads(
                old(self).inner()@,
                old(self).pending_prefetches(),
                NUM_ENTRIES as nat,
            ),
            final(self).pending_prefetches() == Seq::<u16>::empty(),
            final(self).pending_writes() == old(self).pending_writes(),
    {
        let ghost start = self.cache@;
        let ghost ids = self.prefetch_queue@;
        proof {
            lemma_apply_reads_bounds(start, ids, NUM_ENTRIES as nat);
        }
        let n = self.prefetch_queue.len();
        let mut count: usize = 0;
        let mut i: usize = 0;
        while i < n
            invariant
                NUM_ENTRIES > 0,
                n == ids.len(),
                ids == self.prefetch_queue@,
                n <= PREFETCH_QUEUE_CAPACITY,
                i <= n,
                start.stats.hits + ids.len() <= u32::MAX,
                start.stats.misses + ids.len() <= u32::MAX,
                start.entries.len() <= NUM_ENTRIES,
                (self.cache@, count as nat) == apply_reads(start, ids.take(i as int), NUM_ENTRIES as nat),
                self.write_buffer@ == old(self).write_buffer@,
            decreases n - i,
        {
            proof {
                assert(ids.take(i + 1).drop_last() == ids.take(i as int));
                lemma_apply_reads_bounds(start, ids.take(i as int), NUM_ENTRIES as nat);
            }
            let node_id = self.prefetch_queue[i];
            if self.cache.read(node_id).is_some() {
                count += 1;
            }
            i += 1;
        }
        assert(ids.take(n as int) == ids);
        proof {
            lemma_apply_reads_bounds(start, ids, NUM_ENTRIES as nat);
        }
        self.prefetch_queue.clear();
        count
    }

    /// The underlying cache.
    pub fn cache(&self) -> (r: &EdgeCache<NUM_ENTRIES>)
        ensures
            *r == self.inner(),
    {
        &self.cache
    }

    /// The underlying cache, for changes.
    pub fn cache_mut(&mut self) -> (r: &mut EdgeCache<NUM_ENTRIES>)
        ensures
            *r == old(self).inner(),
            final(self).inner() == *final(r),
            final(self).pending_writes() == old(self).pending_writes(),
            final(self).pending_prefetches() == old(self).pending_prefetches(),
    {
        &mut self.cache
    }
}

impl<const NUM_ENTRIES: usize> Default for EdgeCacheBulk<NUM_ENTRIES> {
    fn default() -> (r: Self)
        ensures
            r.wf(),
            r.inner()@ == EdgeCache::<NUM_ENTRIES>::new_view(),
            r.pending_writes() == Seq::<(u16, u8)>::empty(),
            r.pending_prefetches() == Seq::<u16>::empty(),
    {
        Self::new()
    }
}

/// A write into a cache holding an entry for each of its first
/// `min(n, 10000)` slots is read back whenever the node's slot is stored or is
/// the next one (always, for caches of at most 10,000 entries, and for every
/// node of the grid): the write succeeds and the node then hits with the low
/// two bits of the written value.
pub proof fn law_read_after_write(v: EdgeCacheView, node_id: u16, data: u8, n: nat)
    requires
        n > 0,
        (if n < 10000 { n } else { 10000 }) <= v.entries.len() <= n,
    ensures
        n <= 10000 || node_id < 10000 ==> slot(node_id, n) < v.entries.len(),
        slot(node_id, n) <= v.entries.len() ==> write_spec(v, node_id, data, n).1,
        slot(node_id, n) <= v.entries.len() ==> lookup_spec(write_spec(v, node_id, data, n).0, node_id, n)
            == Some(data % 4),
        slot(node_id, n) <= v.entries.len() ==> read_spec(write_spec(v, node_id, data, n).0, node_id, n).1
            == Some(data % 4),
{
    if node_id < 10000 && n > 10000 {
        assert(slot(node_id, n) == node_id) by {
            vstd::arithmetic::div_mod::lemma_small_mod(node_id as nat, n);
        }
    }
}

/// A write leaves the lookup of every node of another slot unchanged.
pub proof fn law_write_keeps_other_slots(v: EdgeCacheView, node_id: u16, data: u8, other: u16, n: nat)
    requires
        n > 0,
        v.entries.len() <= n,
        slot(other, n) != slot(node_id, n),
    ensures
        lookup_spec(write_spec(v, node_id, data, n).0, other, n) == lookup_spec(v, other, n),
{
}

/// Reading changes no entry: a second read of a node gives what the first gave.
pub proof fn law_read_idempotent(v: EdgeCacheView, node_id: u16, n: nat)
    ensures
        read_spec(v, node_id, n).0.entries == v.entries,
        read_spec(read_spec(v, node_id, n).0, node_id, n).1 == read_spec(v, node_id, n).1,
{
}

/// A prefix holds no more dirty entries than the whole.
proof fn lemma_count_dirty_prefix(s: Seq<EdgeCacheEntry>, k: int)
    requires
        0 <= k <= s.len(),
    ensures
        count_dirty(s.take(k)) <= count_dirty(s),
    decreases s.len() - k,
{
    if k < s.len() {
        lemma_count_dirty_prefix(s, k + 1);
        assert(s.take(k + 1).drop_last() == s.take(k));
    } else {
        assert(s.take(k) == s);
    }
}

/// A sequence with no dirty entry counts none.
proof fn lemma_count_dirty_none(s: Seq<EdgeCacheEntry>)
    requires
        forall|i: int| 0 <= i < s.len() ==> !is_dirty(#[trigger] s[i]),
    ensures
        count_dirty(s) == 0,
    decreases s.len(),
{
    if s.len() > 0 {
        lemma_count_dirty_none(s.drop_last());
    }
}

} // verus!
