//! Bookkeeping of the GPU buffers that hold primitive instances: what to
//! allocate, which bytes to write and where, and how the upload counters move.
//!
//! The functions here decide; the caller owns the GPU buffers and performs
//! the allocations and writes they describe.

use std::ops::Range;
use vstd::prelude::*;

verus! {

/// Smallest capacity, in bytes, that a persistent buffer is given when it is
/// reallocated.
pub const MIN_PERSISTENT_CAPACITY: usize = 4096;

/// Smallest binding size, in bytes, of an instance buffer.
pub const MIN_BINDING_SIZE: u64 = 16;

/// `a + b`, saturating at `usize::MAX`.
pub open spec fn sat_add_usize(a: int, b: int) -> int {
    if a + b > usize::MAX {
        usize::MAX as int
    } else {
        a + b
    }
}

/// `a * b`, saturating at `usize::MAX`.
pub open spec fn sat_mul_usize(a: int, b: int) -> int {
    if a * b > usize::MAX {
        usize::MAX as int
    } else {
        a * b
    }
}

/// `a + b`, saturating at `u32::MAX`.
pub open spec fn sat_add_u32(a: int, b: int) -> int {
    if a + b > u32::MAX {
        u32::MAX as int
    } else {
        a + b
    }
}

/// Capacity given to a persistent buffer reallocated for `data_len` bytes:
/// twice the data (saturating), and never less than the minimum.
pub open spec fn grown_capacity(data_len: int) -> int {
    let doubled = sat_mul_usize(data_len, 2);
    if doubled > MIN_PERSISTENT_CAPACITY {
        doubled
    } else {
        MIN_PERSISTENT_CAPACITY as int
    }
}

/// The byte range that the element range `r` occupies in data of `data_len`
/// bytes, clipped at the end of the data.
pub open spec fn byte_range(r: Range<usize>, element_size: int, data_len: int) -> Range<usize> {
    let end = sat_mul_usize(r.end as int, element_size);
    Range {
        start: sat_mul_usize(r.start as int, element_size) as usize,
        end: (if end < data_len {
            end
        } else {
            data_len
        }) as usize,
    }
}

/// A byte range that can be written: non-empty and within both the data and
/// the buffer.
pub open spec fn writable(b: Range<usize>, data_len: int, capacity: int) -> bool {
    b.start < b.end && b.end <= data_len && b.end <= capacity
}

/// The byte ranges written for the changed element ranges `ranges`, in order,
/// leaving out those that cannot be written.
pub open spec fn planned_writes(
    ranges: Seq<Range<usize>>,
    element_size: int,
    data_len: int,
    capacity: int,
) -> Seq<Range<usize>>
    decreases ranges.len(),
{
    if ranges.len() == 0 {
        Seq::empty()
    } else {
        let before = planned_writes(ranges.drop_last(), element_size, data_len, capacity);
        let b = byte_range(ranges.last(), element_size, data_len);
        if writable(b, data_len, capacity) {
            before.push(b)
        } else {
            before
        }
    }
}

/// Total length of the byte ranges `writes`, saturating at `usize::MAX`.
pub open spec fn written_bytes(writes: Seq<Range<usize>>) -> int
    decreases writes.len(),
{
    if writes.len() == 0 {
        0
    } else {
        let last = writes.last();
        sat_add_usize(written_bytes(writes.drop_last()), last.end - last.start)
    }
}

/// Fragmentation of `state` after a full upload of `data_len` bytes: a
/// reallocation (when the data does not fit) forgets it, and the bytes given
/// up by a shrinking upload are added to it, saturating.
pub open spec fn fragmentation_after_full_upload(state: PersistentBufferState, data_len: int) -> int {
    let reallocated = data_len > state.capacity;
    if data_len < state.len {
        sat_add_usize(
            (if reallocated {
                0
            } else {
                state.fragmentation_bytes as int
            }),
            state.len - data_len,
        )
    } else if reallocated {
        0
    } else {
        state.fragmentation_bytes as int
    }
}

/// Fragmentation accumulates: without a reallocation, each shrinking full
/// upload adds the bytes it gives up to what earlier ones left (saturating),
/// so two shrinking uploads in a row leave the bytes given up by both, from
/// the first length down to the last.
pub proof fn lemma_shrinking_uploads_accumulate_fragmentation(
    state: PersistentBufferState,
    first_len: usize,
    second_len: usize,
)
    requires
        second_len < first_len,
        first_len < state.len,
        state.len <= state.capacity,
    ensures
        fragmentation_after_full_upload(state, first_len as int) == sat_add_usize(
            state.fragmentation_bytes as int,
            state.len - first_len,
        ),
        ({
            let after_first = PersistentBufferState {
                capacity: state.capacity,
                len: first_len,
                fragmentation_bytes: fragmentation_after_full_upload(state, first_len as int) as usize,
            };
            fragmentation_after_full_upload(after_first, second_len as int) == sat_add_usize(
                state.fragmentation_bytes as int,
                state.len - second_len,
            )
        }),
{
}

/// The allocation state of a GPU buffer that keeps the instances of one kind
/// of primitive from frame to frame.
#[derive(Clone, Copy, Debug, PartialEq, Eq, Structural)]
pub struct PersistentBufferState {
    /// Allocated size in bytes.
    pub capacity: usize,
    /// Bytes of instance data held.
    pub len: usize,
    /// Bytes freed by shrinking uploads since the last reallocation.
    pub fragmentation_bytes: usize,
}

/// The writes of a partial upload and the bytes they carry.
pub struct RangeUploads {
    /// Byte ranges of the data to write at the same offsets in the buffer.
    pub writes: Vec<Range<usize>>,
    /// Total bytes written, saturating.
    pub bytes: usize,
}

/// Multiplies, saturating at `usize::MAX`.
fn saturating_mul(a: usize, b: usize) -> (product: usize)
    ensures
        product == sat_mul_usize(a as int, b as int),
{
    match a.checked_mul(b) {
        Some(p) => p,
        None => usize::MAX,
    }
}

/// Capacity for a buffer reallocated to hold `data_len` bytes.
pub fn grown_capacity_for(data_len: usize) -> (capacity: usize)
    ensures
        capacity == grown_capacity(data_len as int),
        capacity >= data_len,
        capacity >= MIN_PERSISTENT_CAPACITY,
{
    let doubled = saturating_mul(data_len, 2);
    if doubled > MIN_PERSISTENT_CAPACITY {
        doubled
    } else {
        MIN_PERSISTENT_CAPACITY
    }
}

impl PersistentBufferState {
    /// A buffer of `initial_capacity_bytes` bytes holding nothing.
    pub fn new(initial_capacity_bytes: usize) -> (state: Self)
        ensures
            state.capacity == initial_capacity_bytes,
            state.len == 0,
            state.fragmentation_bytes == 0,
    {
        PersistentBufferState { capacity: initial_capacity_bytes, len: 0, fragmentation_bytes: 0 }
    }

    /// Replaces the buffer's contents with `data_len` bytes. When the data does
    /// not fit, the buffer is reallocated (returns `true`) with twice the room
    /// and its fragmentation forgotten; bytes given up by a shrinking upload
    /// count as fragmentation.
    pub fn upload_full(&mut self, data_len: usize) -> (reallocated: bool)
        ensures
            reallocated == (data_len > old(self).capacity),
            final(self).capacity == (if reallocated {
                grown_capacity(data_len as int)
            } else {
                old(self).capacity as int
            }),
            final(self).len == data_len,
            final(self).len <= final(self).capacity,
            final(self).fragmentation_bytes == fragmentation_after_full_upload(*old(self), data_len as int),
            !reallocated && data_len < old(self).len ==> final(self).fragmentation_bytes == sat_add_usize(
                old(self).fragmentation_bytes as int,
                old(self).len - data_len,
            ),
            !reallocated && data_len >= old(self).len ==> final(self).fragmentation_bytes == old(
                self,
            ).fragmentation_bytes,
            reallocated ==> final(self).fragmentation_bytes == (if data_len < old(self).len {
                old(self).len - data_len
            } else {
                0
            }),
    {
        let mut reallocated = false;
        let old_len = self.len;
        if data_len > self.capacity {
            self.capacity = grown_capacity_for(data_len);
            self.fragmentation_bytes = 0;
            reallocated = true;
        }
        if data_len < old_len {
            self.fragmentation_bytes = self.fragmentation_bytes.saturating_add(old_len - data_len);
        }
        self.len = data_len;
        reallocated
    }

    /// Reallocates the buffer for `data_len` bytes of data, which are then
    /// written whole; fragmentation is forgotten.
    pub fn compact(&mut self, data_len: usize)
        ensures
            final(self).capacity == grown_capacity(data_len as int),
            final(self).len == data_len,
            final(self).len <= final(self).capacity,
            final(self).fragmentation_bytes == 0,
    {
        self.capacity = grown_capacity_for(data_len);
        self.len = data_len;
        self.fragmentation_bytes = 0;
    }

    /// The byte ranges to write for the changed element ranges `ranges` of
    /// data of `data_len` bytes whose elements are `element_size` bytes each.
    pub fn upload_ranges(
        &self,
        data_len: usize,
        ranges: &[Range<usize>],
        element_size: usize,
    ) -> (uploads: RangeUploads)
        ensures
            uploads.writes@ == planned_writes(
                ranges@,
                element_size as int,
                data_len as int,
                self.capacity as int,
            ),
            uploads.bytes == written_bytes(uploads.writes@),
            forall|i: int|
                0 <= i < uploads.writes@.len() ==> writable(
                    #[trigger] uploads.writes@[i],
                    data_len as int,
                    self.capacity as int,
                ),
    {
        let mut writes: Vec<Range<usize>> = Vec::new();
        let mut bytes: usize = 0;
        let mut i: usize = 0;
        while i < ranges.len()
            invariant
                0 <= i <= ranges.len(),
                writes@ == planned_writes(
                    ranges@.subrange(0, i as int),
                    element_size as int,
                    data_len as int,
                    self.capacity as int,
                ),
                bytes == written_bytes(writes@),
                forall|j: int|
                    0 <= j < writes@.len() ==> writable(
                        #[trigger] writes@[j],
                        data_len as int,
                        self.capacity as int,
                    ),
            decreases ranges.len() - i,
        {
            let range = &ranges[i];
            let byte_start = saturating_mul(range.start, element_size);
            let scaled_end = saturating_mul(range.end, element_size);
            let byte_end = if scaled_end < data_len {
                scaled_end
            } else {
                data_len
            };
            proof {
                let prefix = ranges@.subrange(0, i as int + 1);
                assert(prefix.drop_last() =~= ranges@.subrange(0, i as int));
                assert(prefix.last() == ranges@[i as int]);
            }
            if byte_start < byte_end && byte_end <= data_len && byte_end <= self.capacity {
                let ghost before = writes@;
                writes.push(byte_start..byte_end);
                proof {
                    assert(writes@.drop_last() =~= before);
                }
                bytes = bytes.saturating_add(byte_end - byte_start);
            }
            i = i + 1;
        }
        proof {
            assert(ranges@.subrange(0, ranges@.len() as int) =~= ranges@);
        }
        RangeUploads { writes, bytes }
    }
}

/// Size of a binding of `size` bytes of a buffer: never less than the minimum.
pub fn binding_size(size: usize) -> (bound: u64)
    requires
        size <= u64::MAX,
    ensures
        bound == (if size > MIN_BINDING_SIZE {
            size as int
        } else {
            MIN_BINDING_SIZE as int
        }),
{
    let size = size as u64;
    if size > MIN_BINDING_SIZE {
        size
    } else {
        MIN_BINDING_SIZE
    }
}

/// What to write after a persistent-instance upload was planned.
pub enum InstanceUpload {
    /// Write the whole data; the buffer was first reallocated with its new
    /// capacity when `reallocated` holds.
    Full { reallocated: bool },
    /// Write these byte ranges of the data, at the same offsets.
    Ranges(Vec<Range<usize>>),
    /// The buffer already holds the data.
    Unchanged,
}

/// Plans the upload of `instance_count` instances of `element_size` bytes each
/// into `buffer`, whose last full upload held `*last_len` instances.
///
/// The whole data is written when the number of instances changed, or when
/// the scene's generation changed without any changed range; otherwise the
/// changed ranges are written, if any. The upload counters grow by the bytes
/// and writes issued, saturating.
pub fn upload_persistent_instances(
    buffer: &mut PersistentBufferState,
    last_len: &mut usize,
    instance_count: usize,
    element_size: usize,
    changed_ranges: &[Range<usize>],
    generation_changed: bool,
    upload_bytes: &mut usize,
    upload_count: &mut u32,
) -> (upload: InstanceUpload)
    requires
        instance_count * element_size <= usize::MAX,
    ensures
        ({
            let data_len = instance_count * element_size;
            let full = instance_count != *old(last_len) || (generation_changed
                && changed_ranges@.len() == 0);
            if full {
                &&& upload matches InstanceUpload::Full { reallocated }
                    && reallocated == (data_len > old(buffer).capacity)
                &&& final(buffer).len == data_len
                &&& final(buffer).fragmentation_bytes == fragmentation_after_full_upload(
                    *old(buffer),
                    data_len,
                )
                &&& final(buffer).capacity == (if data_len > old(buffer).capacity {
                    grown_capacity(data_len)
                } else {
                    old(buffer).capacity as int
                })
                &&& *final(last_len) == instance_count
                &&& *final(upload_bytes) == (if data_len == 0 {
                    *old(upload_bytes) as int
                } else {
                    sat_add_usize(*old(upload_bytes) as int, data_len)
                })
                &&& *final(upload_count) == (if data_len == 0 {
                    *old(upload_count) as int
                } else {
                    sat_add_u32(*old(upload_count) as int, 1)
                })
            } else if changed_ranges@.len() > 0 {
                let writes = planned_writes(
                    changed_ranges@,
                    element_size as int,
                    data_len,
                    old(buffer).capacity as int,
                );
                &&& upload matches InstanceUpload::Ranges(w) && w@ == writes
                &&& *final(buffer) == *old(buffer)
                &&& *final(last_len) == *old(last_len)
                &&& *final(upload_bytes) == sat_add_usize(
                    *old(upload_bytes) as int,
                    written_bytes(writes),
                )
                &&& *final(upload_count) == sat_add_u32(
                    *old(upload_count) as int,
                    (changed_ranges@.len() as u32) as int,
                )
            } else {
                &&& upload is Unchanged
                &&& *final(buffer) == *old(buffer)
                &&& *final(last_len) == *old(last_len)
                &&& *final(upload_bytes) == *old(upload_bytes)
                &&& *final(upload_count) == *old(upload_count)
            }
        }),
{
    let data_len = instance_count * element_size;
    if instance_count != *last_len || (generation_changed && changed_ranges.len() == 0) {
        let reallocated = buffer.upload_full(data_len);
        *last_len = instance_count;
        if data_len != 0 {
            *upload_bytes = (*upload_bytes).saturating_add(data_len);
            *upload_count = (*upload_count).saturating_add(1);
        }
        InstanceUpload::Full { reallocated }
    } else if changed_ranges.len() != 0 {
        let uploads = buffer.upload_ranges(data_len, changed_ranges, element_size);
        *upload_bytes = (*upload_bytes).saturating_add(uploads.bytes);
        *upload_count = (*upload_count).saturating_add(changed_ranges.len() as u32);
        InstanceUpload::Ranges(uploads.writes)
    } else {
        InstanceUpload::Unchanged
    }
}

/// Compacts `buffer` around `data_len` bytes of data when `needs_compaction`
/// holds (returns `true`: the buffer is to be reallocated and the data written
/// whole), counting the upload when there is data.
pub fn compact_persistent_instances(
    buffer: &mut PersistentBufferState,
    data_len: usize,
    needs_compaction: bool,
    upload_bytes: &mut usize,
    upload_count: &mut u32,
) -> (compacted: bool)
    ensures
        compacted == needs_compaction,
        !compacted ==> *final(buffer) == *old(buffer) && *final(upload_bytes) == *old(
            upload_bytes,
        ) && *final(upload_count) == *old(upload_count),
        compacted ==> {
            &&& final(buffer).capacity == grown_capacity(data_len as int)
            &&& final(buffer).len == data_len
            &&& final(buffer).fragmentation_bytes == 0
            &&& *final(upload_bytes) == (if data_len == 0 {
                *old(upload_bytes) as int
            } else {
                sat_add_usize(*old(upload_bytes) as int, data_len as int)
            })
            &&& *final(upload_count) == (if data_len == 0 {
                *old(upload_count) as int
            } else {
                sat_add_u32(*old(upload_count) as int, 1)
            })
        },
{
    if !needs_compaction {
        return false;
    }
    buffer.compact(data_len);
    if data_len != 0 {
        *upload_bytes = (*upload_bytes).saturating_add(data_len);
        *upload_count = (*upload_count).saturating_add(1);
    }
    true
}

/// The smallest multiple of `align` that is at least `value`.
pub open spec fn next_multiple(value: int, align: int) -> int {
    if value % align == 0 {
        value
    } else {
        value + (align - value % align)
    }
}

/// The next multiple of `align` is a multiple of it, not below `value` and
/// less than `align` above it.
pub proof fn lemma_next_multiple(value: int, align: int)
    requires
        value >= 0,
        align > 0,
    ensures
        next_multiple(value, align) >= value,
        next_multiple(value, align) < value + align,
        next_multiple(value, align) % align == 0,
{
    let rem = value % align;
    let q = value / align;
    vstd::arithmetic::div_mod::lemma_fundamental_div_mod(value, align);
    if rem != 0 {
        assert(value + (align - rem) == (q + 1) * align) by (nonlinear_arith)
            requires
                value == align * q + rem,
        ;
        vstd::arithmetic::div_mod::lemma_mod_multiples_basic(q + 1, align);
    }
}

/// The smallest multiple of `align` that is at least `value`.
pub fn next_multiple_of(value: u64, align: u64) -> (rounded: u64)
    requires
        align > 0,
        next_multiple(value as int, align as int) <= u64::MAX,
    ensures
        rounded == next_multiple(value as int, align as int),
        rounded >= value,
        rounded % align == 0,
        rounded < value + align,
{
    proof {
        lemma_next_multiple(value as int, align as int);
    }
    let rem = value % align;
    if rem == 0 {
        value
    } else {
        value + (align - rem)
    }
}

/// Where a write of `data_len` bytes is placed when the buffer is filled up
/// to `offset`: its aligned offset and its size.
pub open spec fn placement(offset: int, data_len: int, align: int) -> (int, int) {
    (next_multiple(offset, align), write_size(data_len))
}

/// Writes placed one after the other never overlap, and each starts at a
/// multiple of the alignment.
pub proof fn lemma_consecutive_writes_disjoint(offset: int, first_len: int, second_len: int, align: int)
    requires
        offset >= 0,
        align > 0,
    ensures
        ({
            let (first, first_size) = placement(offset, first_len, align);
            let (second, second_size) = placement(first + first_size, second_len, align);
            &&& offset <= first
            &&& first + first_size <= second
            &&& first % align == 0
            &&& second % align == 0
            &&& first_size > 0
            &&& second_size > 0
        }),
{
    let (first, first_size) = placement(offset, first_len, align);
    lemma_next_multiple(offset, align);
    lemma_next_multiple(first + first_size, align);
}

/// The shared buffer into which per-frame instance data is appended.
#[derive(Clone, Copy, Debug, PartialEq, Eq, Structural)]
pub struct InstanceBufferState {
    /// Allocated size in bytes.
    pub capacity: u64,
    /// Largest size the buffer may grow to.
    pub max_buffer_size: u64,
    /// Alignment of each write's offset.
    pub storage_buffer_alignment: u64,
}

/// Size in bytes that a write of `data_len` bytes takes in the instance buffer.
pub open spec fn write_size(data_len: int) -> int {
    if data_len > MIN_BINDING_SIZE {
        data_len
    } else {
        MIN_BINDING_SIZE as int
    }
}

/// The capacity after growing from `capacity` toward `max_buffer_size`.
pub open spec fn grown_instance_capacity(capacity: int, max_buffer_size: int) -> int {
    if capacity * 2 < max_buffer_size {
        capacity * 2
    } else {
        max_buffer_size
    }
}

/// The overflow retries of a frame end: growing a non-empty buffer below its
/// largest size makes it strictly larger without passing that size, so after
/// at most `max_buffer_size - capacity` retries the buffer is at its largest
/// size and the frame is given up instead.
pub proof fn lemma_grow_makes_progress(capacity: int, max_buffer_size: int)
    requires
        0 < capacity < max_buffer_size,
    ensures
        capacity < grown_instance_capacity(capacity, max_buffer_size) <= max_buffer_size,
        max_buffer_size - grown_instance_capacity(capacity, max_buffer_size) < max_buffer_size
            - capacity,
{
}

impl InstanceBufferState {
    /// Places `data_len` bytes after `*instance_offset`, at the next aligned
    /// offset. Returns the offset and size of the binding, and moves the
    /// offset past it; returns `None`, changing nothing, when the buffer is too
    /// small.
    pub fn write_to_instance_buffer(
        &self,
        instance_offset: &mut u64,
        data_len: usize,
        upload_bytes: &mut usize,
        upload_count: &mut u32,
    ) -> (placed: Option<(u64, u64)>)
        requires
            self.storage_buffer_alignment > 0,
            data_len <= u64::MAX,
            next_multiple(*old(instance_offset) as int, self.storage_buffer_alignment as int)
                + write_size(data_len as int) <= u64::MAX,
        ensures
            ({
                let offset = next_multiple(
                    *old(instance_offset) as int,
                    self.storage_buffer_alignment as int,
                );
                let size = write_size(data_len as int);
                if offset + size > self.capacity {
                    &&& placed is None
                    &&& *final(instance_offset) == *old(instance_offset)
                    &&& *final(upload_bytes) == *old(upload_bytes)
                    &&& *final(upload_count) == *old(upload_count)
                } else {
                    &&& placed == Some((offset as u64, size as u64))
                    &&& offset >= *old(instance_offset)
                    &&& offset % (self.storage_buffer_alignment as int) == 0
                    &&& *final(instance_offset) == offset + size
                    &&& *final(instance_offset) <= self.capacity
                    &&& *final(upload_bytes) == sat_add_usize(
                        *old(upload_bytes) as int,
                        data_len as int,
                    )
                    &&& *final(upload_count) == sat_add_u32(*old(upload_count) as int, 1)
                }
            }),
    {
        let offset = next_multiple_of(*instance_offset, self.storage_buffer_alignment);
        let size: u64 = if (data_len as u64) > MIN_BINDING_SIZE {
            data_len as u64
        } else {
            MIN_BINDING_SIZE
        };
        if offset + size > self.capacity {
            return None;
        }
        *upload_bytes = (*upload_bytes).saturating_add(data_len);
        *upload_count = (*upload_count).saturating_add(1);
        *instance_offset = offset + size;
        Some((offset, size))
    }

    /// `true` when the buffer overflowed at its largest size, and the frame is
    /// to be given up rather than retried.
    pub fn at_max_size(&self) -> (at_max: bool)
        ensures
            at_max == (self.capacity >= self.max_buffer_size),
    {
        self.capacity >= self.max_buffer_size
    }

    /// What to do when a frame's instances overflowed the buffer: when it is
    /// below its largest size, grow it and retry the frame (returns `true`);
    /// at its largest size, give the frame up and leave the buffer as it is.
    pub fn on_overflow(&mut self) -> (retry: bool)
        requires
            old(self).capacity < old(self).max_buffer_size ==> old(self).capacity * 2 <= u64::MAX,
        ensures
            retry == (old(self).capacity < old(self).max_buffer_size),
            retry ==> final(self).capacity == grown_instance_capacity(
                old(self).capacity as int,
                old(self).max_buffer_size as int,
            ) && final(self).max_buffer_size == old(self).max_buffer_size
                && final(self).storage_buffer_alignment == old(self).storage_buffer_alignment,
            !retry ==> *final(self) == *old(self),
    {
        if self.at_max_size() {
            false
        } else {
            self.grow();
            true
        }
    }

    /// Doubles the capacity, up to the largest size.
    pub fn grow(&mut self)
        requires
            old(self).capacity * 2 <= u64::MAX,
        ensures
            final(self).capacity == grown_instance_capacity(
                old(self).capacity as int,
                old(self).max_buffer_size as int,
            ),
            final(self).max_buffer_size == old(self).max_buffer_size,
            final(self).storage_buffer_alignment == old(self).storage_buffer_alignment,
    {
        let doubled = self.capacity * 2;
        self.capacity = if doubled < self.max_buffer_size {
            doubled
        } else {
            self.max_buffer_size
        };
    }
}


/// Initial capacity, in bytes, of each persistent instance buffer.
pub const INITIAL_PERSISTENT_CAPACITY: usize = 65536;

/// The persistent buffers of the six instanced primitive kinds, the instance
/// counts of their last full uploads, and the scene generation last uploaded.
#[derive(Clone, Copy, Debug, PartialEq, Eq, Structural)]
pub struct PersistentBuffersState {
    pub shadows: PersistentBufferState,
    pub quads: PersistentBufferState,
    pub underlines: PersistentBufferState,
    pub monochrome_sprites: PersistentBufferState,
    pub subpixel_sprites: PersistentBufferState,
    pub polychrome_sprites: PersistentBufferState,
    pub last_shadow_len: usize,
    pub last_quad_len: usize,
    pub last_underline_len: usize,
    pub last_mono_sprite_len: usize,
    pub last_subpixel_sprite_len: usize,
    pub last_poly_sprite_len: usize,
    /// `u64::MAX` until a scene was uploaded, so that the first scene always
    /// counts as a new generation.
    pub last_generation: u64,
}

impl PersistentBuffersState {
    /// Six empty buffers of the initial capacity; nothing uploaded yet.
    pub fn new() -> (state: Self)
        ensures
            state.shadows == PersistentBufferState::new_spec(INITIAL_PERSISTENT_CAPACITY),
            state.quads == PersistentBufferState::new_spec(INITIAL_PERSISTENT_CAPACITY),
            state.underlines == PersistentBufferState::new_spec(INITIAL_PERSISTENT_CAPACITY),
            state.monochrome_sprites == PersistentBufferState::new_spec(INITIAL_PERSISTENT_CAPACITY),
            state.subpixel_sprites == PersistentBufferState::new_spec(INITIAL_PERSISTENT_CAPACITY),
            state.polychrome_sprites == PersistentBufferState::new_spec(INITIAL_PERSISTENT_CAPACITY),
            state.last_shadow_len == 0,
            state.last_quad_len == 0,
            state.last_underline_len == 0,
            state.last_mono_sprite_len == 0,
            state.last_subpixel_sprite_len == 0,
            state.last_poly_sprite_len == 0,
            state.last_generation == u64::MAX,
    {
        PersistentBuffersState {
            shadows: PersistentBufferState::new(INITIAL_PERSISTENT_CAPACITY),
            quads: PersistentBufferState::new(INITIAL_PERSISTENT_CAPACITY),
            underlines: PersistentBufferState::new(INITIAL_PERSISTENT_CAPACITY),
            monochrome_sprites: PersistentBufferState::new(INITIAL_PERSISTENT_CAPACITY),
            subpixel_sprites: PersistentBufferState::new(INITIAL_PERSISTENT_CAPACITY),
            polychrome_sprites: PersistentBufferState::new(INITIAL_PERSISTENT_CAPACITY),
            last_shadow_len: 0,
            last_quad_len: 0,
            last_underline_len: 0,
            last_mono_sprite_len: 0,
            last_subpixel_sprite_len: 0,
            last_poly_sprite_len: 0,
            last_generation: u64::MAX,
        }
    }

    /// Whether `generation` differs from the generation last uploaded.
    pub fn generation_changed(&self, generation: u64) -> (changed: bool)
        ensures
            changed == (generation != self.last_generation),
    {
        generation != self.last_generation
    }
}

impl PersistentBufferState {
    /// A buffer of `capacity` bytes holding nothing.
    pub open spec fn new_spec(capacity: usize) -> PersistentBufferState {
        PersistentBufferState { capacity, len: 0, fragmentation_bytes: 0 }
    }
}

} // verus!
