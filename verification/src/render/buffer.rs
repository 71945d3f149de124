//! The CPU side of vertex buffers: ranges and locations of vertices, the vertex copy that a
//! buffer keeps, and how a buffer's contents move when it grows or shrinks.
use vstd::prelude::*;
use vstd::slice::{slice_subrange, slice_to_vec};

verus! {

/// A part of a vertex buffer.
#[allow(dead_code)]
pub enum BufferRange {
    Full,
    OffsetFull(usize),
    Range(std::ops::Range<usize>),
}

/// Where a mesh lies in a vertex buffer: its first vertex and its number of vertices.
#[derive(Debug, Clone, Copy, PartialEq, Eq, Structural)]
pub struct BufferLocation {
    pub offset: usize,
    pub size: usize,
}

/// The first and last-but-one index that a range selects in a buffer of `len` vertices.
pub open spec fn range_bounds(range: BufferRange, len: int) -> (int, int) {
    match range {
        BufferRange::Full => (0, len),
        BufferRange::OffsetFull(offset) => (offset as int, len),
        BufferRange::Range(r) => (r.start as int, r.end as int),
    }
}

/// Whether `k` lies in `lo..hi`.
pub open spec fn within(lo: int, k: int, hi: int) -> bool {
    lo <= k < hi
}

/// Whether every index in a range is a vertex of a buffer of `len` vertices; an empty or
/// reversed range, or an offset past the end, names no index.
pub open spec fn change_fits(range: BufferRange, len: int) -> bool {
    let (lo, hi) = range_bounds(range, len);
    lo < hi ==> 0 <= lo && hi <= len
}

/// Whether a range lies within a buffer of `len` vertices.
pub open spec fn range_fits(range: BufferRange, len: int) -> bool {
    let (lo, hi) = range_bounds(range, len);
    0 <= lo <= hi <= len
}

impl BufferRange {
    /// The range that a location covers: from its offset, its size many vertices.
    pub fn from_location(location: BufferLocation) -> (r: BufferRange)
        requires
            location.offset + location.size <= usize::MAX,
        ensures
            r == BufferRange::Range(location.offset..(location.offset + location.size) as usize),
    {
        BufferRange::Range(location.offset..(location.offset + location.size))
    }
}

/// A buffer's vertices as the CPU keeps them, and the range of them that is drawn.
pub struct DynamicBuffer<T> {
    vertices: Vec<T>,
    render_range: std::ops::Range<u32>,
}

impl<T: Copy> DynamicBuffer<T> {
    pub closed spec fn vertices_view(&self) -> Seq<T> {
        self.vertices@
    }

    pub closed spec fn render_range_view(&self) -> std::ops::Range<u32> {
        self.render_range
    }

    /// An empty buffer with room for `size` vertices that draws `range`.
    pub fn new(size: usize, range: std::ops::Range<u32>) -> (r: Self)
        ensures
            r.vertices_view() == Seq::<T>::empty(),
            r.render_range_view() == range,
    {
        DynamicBuffer { vertices: Vec::with_capacity(size), render_range: range }
    }

    /// A buffer that holds `data` and draws all of it.
    pub fn new_init(data: &[T]) -> (r: Self)
        requires
            data@.len() <= u32::MAX,
        ensures
            r.vertices_view() == data@,
            r.render_range_view() == (0..data@.len() as u32),
    {
        DynamicBuffer { vertices: slice_to_vec(data), render_range: 0..data.len() as u32 }
    }

    /// Empties the buffer, keeping room for `size` vertices, and draws `size` vertices.
    pub fn renew(&mut self, size: usize)
        requires
            size <= u32::MAX,
        ensures
            final(self).vertices_view() == Seq::<T>::empty(),
            final(self).render_range_view() == (0..size as u32),
    {
        self.vertices = Vec::with_capacity(size);
        self.render_range = 0..size as u32;
    }

    /// Replaces the contents by `data` and draws all of it.
    pub fn renew_init(&mut self, data: &[T])
        requires
            data@.len() <= u32::MAX,
        ensures
            final(self).vertices_view() == data@,
            final(self).render_range_view() == (0..data@.len() as u32),
    {
        self.vertices = slice_to_vec(data);
        self.render_range = 0..data.len() as u32;
    }

    /// Overwrites the vertices from `offset` on with `data`.
    pub fn write(&mut self, offset: usize, data: &[T])
        requires
            offset + data@.len() <= old(self).vertices_view().len(),
        ensures
            final(self).vertices_view() == written(old(self).vertices_view(), offset as int, data@),
            final(self).render_range_view() == old(self).render_range_view(),
    {
        let ghost before = self.vertices@;
        let ghost range = self.render_range;
        let mut i: usize = 0;
        while i < data.len()
            invariant
                i <= data@.len(),
                self.render_range == range,
                offset + data@.len() <= before.len(),
                self.vertices@.len() == before.len(),
                forall|k: int|
                    0 <= k < before.len() ==> #[trigger] self.vertices@[k] == if offset <= k
                        < offset + i {
                        data@[k - offset]
                    } else {
                        before[k]
                    },
            decreases data@.len() - i,
        {
            assert(self.vertices.len() == before.len());
            self.vertices[offset + i] = data[i];
            i = i + 1;
        }
        assert(self.vertices@ =~= before.take(offset as int) + data@ + before.skip(
            offset + data@.len(),
        ));
    }

    /// Applies `change` to each vertex in `range`: each vertex there ends up holding what a call
    /// of `change` on a reference to its old value left behind it. The vertices outside the
    /// range stay as they were; an empty or reversed range, or an offset past the end,
    /// changes nothing.
    pub fn change<F: Fn(&mut T)>(&mut self, range: BufferRange, change: F)
        requires
            change_fits(range, old(self).vertices_view().len() as int),
            forall|x: &mut T| #[trigger] change.requires((x,)),
        ensures
            final(self).vertices_view().len() == old(self).vertices_view().len(),
            forall|k: int|
                0 <= k < old(self).vertices_view().len() && !(range_bounds(
                    range,
                    old(self).vertices_view().len() as int,
                ).0 <= k < range_bounds(range, old(self).vertices_view().len() as int).1)
                    ==> #[trigger] final(self).vertices_view()[k] == old(self).vertices_view()[k],
            forall|k: int|
                #[trigger] within(
                    range_bounds(range, old(self).vertices_view().len() as int).0,
                    k,
                    range_bounds(range, old(self).vertices_view().len() as int).1,
                ) ==> exists|m: &mut T|
                    #![trigger change.ensures((m,), ())]
                    *m == old(self).vertices_view()[k]
                        && *final(m) == final(self).vertices_view()[k]
                        && change.ensures((m,), ()),
            final(self).render_range_view() == old(self).render_range_view(),
    {
        let ghost before = self.vertices@;
        let ghost drawn = self.render_range;
        let (lo, hi) = match range {
            BufferRange::Full => (0, self.vertices.len()),
            BufferRange::OffsetFull(offset) => (offset, self.vertices.len()),
            BufferRange::Range(r) => (r.start, r.end),
        };
        let end = if lo < hi {
            hi
        } else {
            lo
        };
        let mut i = lo;
        while i < end
            invariant
                lo <= i <= end,
                lo < end ==> end <= before.len(),
                end == if lo < hi {
                    hi
                } else {
                    lo
                },
                self.vertices@.len() == before.len(),
                self.render_range == drawn,
                forall|x: &mut T| #[trigger] change.requires((x,)),
                forall|k: int|
                    0 <= k < before.len() && !(lo <= k < i) ==> #[trigger] self.vertices@[k]
                        == before[k],
                forall|k: int|
                    #[trigger] within(lo as int, k, i as int) ==> exists|m: &mut T|
                        #![trigger change.ensures((m,), ())]
                        *m == before[k] && *final(m) == self.vertices@[k] && change.ensures(
                            (m,),
                            (),
                        ),
            decreases end - i,
        {
            let ghost prev = self.vertices@;
            let vertex = &mut self.vertices[i];
            let ghost vref = vertex;
            change(vertex);
            proof {
                assert(*vref == prev[i as int]);
                assert(*final(vref) == self.vertices@[i as int]);
                assert(exists|m: &mut T| *m == prev[i as int] && *final(m) == self.vertices@[i as int]
                    && #[trigger] change.ensures((m,), ()));
            }
            let ghost j = i;
            i = i + 1;
            assert forall|k: int| #[trigger] within(lo as int, k, i as int) implies exists|
                m: &mut T,
            |
                #![trigger change.ensures((m,), ())]
                *m == before[k] && *final(m) == self.vertices@[k] && change.ensures((m,), ()) by {
                if k < j {
                    assert(within(lo as int, k, j as int));
                    assert(self.vertices@[k] == prev[k]);
                    assert(exists|m: &mut T|
                        #![trigger change.ensures((m,), ())]
                        *m == before[k] && *final(m) == prev[k] && change.ensures((m,), ()));
                }
            };
        }
        assert forall|k: int|
            #[trigger] within(
                range_bounds(range, before.len() as int).0,
                k,
                range_bounds(range, before.len() as int).1,
            ) implies exists|m: &mut T|
            #![trigger change.ensures((m,), ())]
            *m == before[k] && *final(m) == self.vertices@[k] && change.ensures((m,), ()) by {
            assert(within(lo as int, k, i as int));
        };
    }

    /// The vertices in `range`.
    pub fn read(&self, range: BufferRange) -> (r: Option<&[T]>)
        requires
            range_fits(range, self.vertices_view().len() as int),
        ensures
            r matches Some(s) && s@ == self.vertices_view().subrange(
                range_bounds(range, self.vertices_view().len() as int).0,
                range_bounds(range, self.vertices_view().len() as int).1,
            ),
    {
        let all = self.vertices.as_slice();
        match range {
            BufferRange::Full => {
                let s = slice_subrange(all, 0, all.len());
                Some(s)
            },
            BufferRange::OffsetFull(offset) => Some(slice_subrange(all, offset, all.len())),
            BufferRange::Range(r) => Some(slice_subrange(all, r.start, r.end)),
        }
    }

    /// The vertices the buffer holds.
    pub fn vertices(&self) -> (r: &Vec<T>)
        ensures
            r@ == self.vertices_view(),
    {
        &self.vertices
    }

    /// The range of vertices that is drawn.
    pub fn render_range(&self) -> (r: std::ops::Range<u32>)
        ensures
            r == self.render_range_view(),
    {
        self.render_range.start..self.render_range.end
    }

    /// Draws `range` from now on.
    pub fn update_range(&mut self, range: std::ops::Range<u32>)
        ensures
            final(self).vertices_view() == old(self).vertices_view(),
            final(self).render_range_view() == range,
    {
        self.render_range = range;
    }
}


/// The vertices after writing `data` from `offset` on, as [`DynamicBuffer::write`] states.
pub open spec fn written<T>(v: Seq<T>, offset: int, data: Seq<T>) -> Seq<T> {
    v.take(offset) + data + v.skip(offset + data.len())
}

/// Law: reading back the range just written gives the data written, and the vertices before
/// and after it are those that were there.
pub proof fn law_read_after_write<T>(v: Seq<T>, offset: int, data: Seq<T>)
    requires
        0 <= offset,
        offset + data.len() <= v.len(),
    ensures
        written(v, offset, data).len() == v.len(),
        written(v, offset, data).subrange(offset, offset + data.len()) == data,
        written(v, offset, data).take(offset) == v.take(offset),
        written(v, offset, data).skip(offset + data.len()) == v.skip(offset + data.len()),
{
    let w = written(v, offset, data);
    assert(w.subrange(offset, offset + data.len()) =~= data);
    assert(w.take(offset) =~= v.take(offset));
    assert(w.skip(offset + data.len()) =~= v.skip(offset + data.len()));
}

/// A copy of `len` bytes from offset `from` of the old buffer to offset `to` of the new one.
#[derive(Debug, Clone, Copy, PartialEq, Eq, Structural)]
pub struct BufferCopy {
    pub from: u64,
    pub to: u64,
    pub len: u64,
}

/// How a buffer is rebuilt: the byte size of the new buffer, the copies from the old one into
/// it, and the byte offset where new data is written, if any.
pub struct ResizePlan {
    pub new_bytes: u64,
    pub copies: Vec<BufferCopy>,
    pub write_at: Option<u64>,
}

/// The bookkeeping of a growable vertex buffer: how many vertices of `T` it holds and its
/// label; it always draws all of its vertices. The buffer itself lives with the graphics
/// device; the methods here say how it is to be rebuilt.
pub struct RawDynamicBuffer {
    size: u64,
    label: String,
}

/// The number of bytes that `count` values of `T` take.
pub open spec fn bytes_of<T>(count: int) -> int {
    count * vstd::layout::size_of::<T>()
}

/// The range drawn by a buffer of `size` vertices: all of them, counted in a `u32`.
pub open spec fn draw_all(size: u64) -> std::ops::Range<u32> {
    0..(size as u32)
}

/// The copies that growing a buffer of `size` vertices makes: the old contents to the start.
pub open spec fn grow_copies<T>(size: int) -> Seq<BufferCopy> {
    seq![BufferCopy { from: 0, to: 0, len: bytes_of::<T>(size) as u64 }]
}

/// The copies that freeing `count` vertices from `offset` on, of a buffer of `size`
/// vertices, makes: what lies before them to the start, and what lies after them behind it.
pub open spec fn free_copies<T>(size: int, offset: int, count: int) -> Seq<BufferCopy> {
    seq![
        BufferCopy { from: 0, to: 0, len: bytes_of::<T>(offset) as u64 },
        BufferCopy {
            from: bytes_of::<T>(offset + count) as u64,
            to: bytes_of::<T>(offset) as u64,
            len: bytes_of::<T>(size - offset - count) as u64,
        },
    ]
}

/// The bytes of `buf` after copy `c` from `src` into it.
pub open spec fn copy_into(buf: Seq<u8>, src: Seq<u8>, c: BufferCopy) -> Seq<u8> {
    Seq::new(
        buf.len(),
        |j: int|
            if c.to <= j < c.to + c.len && c.from + (j - c.to) < src.len() {
                src[c.from + (j - c.to)]
            } else {
                buf[j]
            },
    )
}

/// The bytes of `buf` after the copies `cs` from `src` into it, in order.
pub open spec fn copies_into(buf: Seq<u8>, src: Seq<u8>, cs: Seq<BufferCopy>) -> Seq<u8>
    decreases cs.len(),
{
    if cs.len() == 0 {
        buf
    } else {
        copies_into(copy_into(buf, src, cs[0]), src, cs.drop_first())
    }
}

/// The bytes of `buf` after `data` is written from byte `at` on.
pub open spec fn written_at(buf: Seq<u8>, at: int, data: Seq<u8>) -> Seq<u8> {
    Seq::new(buf.len(), |j: int| if at <= j < at + data.len() { data[j - at] } else { buf[j] })
}

/// The contents of the buffer that a plan builds from the old contents `old`: a buffer of
/// `new_bytes` zero bytes, the copies made into it in order, then `data` written where the
/// plan says.
pub open spec fn rebuilt(
    old: Seq<u8>,
    new_bytes: int,
    copies: Seq<BufferCopy>,
    write_at: Option<u64>,
    data: Seq<u8>,
) -> Seq<u8> {
    let copied = copies_into(Seq::new(new_bytes as nat, |j: int| 0u8), old, copies);
    match write_at {
        Some(at) => written_at(copied, at as int, data),
        None => copied,
    }
}

impl RawDynamicBuffer {
    pub closed spec fn size_view(&self) -> u64 {
        self.size
    }

    /// The range drawn: always all of the buffer's vertices.
    pub closed spec fn render_range_view(&self) -> std::ops::Range<u32> {
        draw_all(self.size)
    }

    pub closed spec fn label_view(&self) -> Seq<char> {
        self.label@
    }

    /// A buffer for `size` vertices of `T`, drawing all of them, with the byte size of the
    /// device buffer to create for it.
    pub fn new<T>(size: usize, label: &str) -> (r: (RawDynamicBuffer, u64))
        requires
            bytes_of::<T>(size as int) <= usize::MAX,
        ensures
            r.0.size_view() == size,
            r.0.render_range_view() == draw_all(size as u64),
            r.0.label_view() == label@,
            r.1 == bytes_of::<T>(size as int),
    {
        let bytes = size * core::mem::size_of::<T>();
        let buffer = RawDynamicBuffer {
            size: size as u64,
            label: label.to_string(),
        };
        (buffer, bytes as u64)
    }

    /// A buffer that is created holding `len` vertices, drawing all of them.
    pub fn new_init(len: usize, label: &str) -> (r: RawDynamicBuffer)
        ensures
            r.size_view() == len,
            r.render_range_view() == draw_all(len as u64),
            r.label_view() == label@,
    {
        RawDynamicBuffer { size: len as u64, label: label.to_string() }
    }

    pub fn size(&self) -> (r: u64)
        ensures
            r == self.size_view(),
    {
        self.size
    }

    /// The range drawn: all of the buffer's vertices.
    pub fn render_range(&self) -> (r: std::ops::Range<u32>)
        ensures
            r == self.render_range_view(),
            r == draw_all(self.size_view()),
    {
        0..self.size as u32
    }

    pub fn label(&self) -> (r: &str)
        ensures
            r@ == self.label_view(),
    {
        self.label.as_str()
    }

    /// Grows the buffer by room for `size` vertices: the new buffer is that much larger and
    /// the old contents are copied to its start.
    pub fn allocate<T>(&mut self, size: usize) -> (plan: ResizePlan)
        requires
            bytes_of::<T>(old(self).size_view() as int) + bytes_of::<T>(size as int) <= u64::MAX,
            bytes_of::<T>(size as int) <= usize::MAX,
            old(self).size_view() + size <= u64::MAX,
        ensures
            plan.new_bytes == bytes_of::<T>(old(self).size_view() as int) + bytes_of::<T>(
                size as int,
            ),
            plan.copies@ == grow_copies::<T>(old(self).size_view() as int),
            plan.write_at is None,
            final(self).size_view() == old(self).size_view() + size,
            final(self).render_range_view() == draw_all(final(self).size_view()),
            final(self).label_view() == old(self).label_view(),
    {
        let element = core::mem::size_of::<T>() as u64;
        proof {
            vstd::arithmetic::mul::lemma_mul_is_commutative(self.size as int, element as int);
        }
        let old_bytes = self.size * element;
        let added = (size * core::mem::size_of::<T>()) as u64;
        let mut copies = Vec::new();
        copies.push(BufferCopy { from: 0, to: 0, len: old_bytes });
        self.size = self.size + size as u64;
        ResizePlan { new_bytes: old_bytes + added, copies, write_at: None }
    }

    /// Grows the buffer by `len` vertices of `T` that are written after the old contents: the
    /// old contents are copied to the start of the new buffer and the new data follows them.
    pub fn append<T>(&mut self, len: usize) -> (plan: ResizePlan)
        requires
            bytes_of::<T>(old(self).size_view() as int) + bytes_of::<T>(len as int) <= u64::MAX,
            bytes_of::<T>(len as int) <= usize::MAX,
            old(self).size_view() + len <= u64::MAX,
        ensures
            plan.new_bytes == bytes_of::<T>(old(self).size_view() as int) + bytes_of::<T>(
                len as int,
            ),
            plan.copies@ == grow_copies::<T>(old(self).size_view() as int),
            plan.write_at == Some(bytes_of::<T>(old(self).size_view() as int) as u64),
            final(self).size_view() == old(self).size_view() + len,
            final(self).render_range_view() == draw_all(final(self).size_view()),
            final(self).label_view() == old(self).label_view(),
    {
        let element = core::mem::size_of::<T>() as u64;
        proof {
            vstd::arithmetic::mul::lemma_mul_is_commutative(self.size as int, element as int);
        }
        let old_bytes = self.size * element;
        let added = (len * core::mem::size_of::<T>()) as u64;
        let mut copies = Vec::new();
        copies.push(BufferCopy { from: 0, to: 0, len: old_bytes });
        self.size = self.size + len as u64;
        ResizePlan { new_bytes: old_bytes + added, copies, write_at: Some(old_bytes) }
    }

    /// Shrinks the buffer by the `size` vertices from `offset` on: what lies before them is
    /// copied to the start of the new buffer and what lies after them follows it.
    pub fn free<T>(&mut self, offset: usize, size: usize) -> (plan: ResizePlan)
        requires
            offset + size <= old(self).size_view(),
            bytes_of::<T>(old(self).size_view() as int) <= u64::MAX,
            bytes_of::<T>(offset as int + size as int) <= usize::MAX,
        ensures
            plan.new_bytes == bytes_of::<T>(old(self).size_view() - size),
            plan.copies@ == free_copies::<T>(old(self).size_view() as int, offset as int, size as int),
            plan.write_at is None,
            final(self).size_view() == old(self).size_view() - size,
            final(self).render_range_view() == draw_all(final(self).size_view()),
            final(self).label_view() == old(self).label_view(),
    {
        let element = core::mem::size_of::<T>();
        let ghost e = element as int;
        let ghost n = self.size as int;
        proof {
            vstd::arithmetic::mul::lemma_mul_is_commutative(n, e);
            vstd::arithmetic::mul::lemma_mul_is_commutative(offset as int, e);
            vstd::arithmetic::mul::lemma_mul_is_commutative(size as int, e);
            vstd::arithmetic::mul::lemma_mul_is_commutative(offset + size, e);
            vstd::arithmetic::mul::lemma_mul_is_distributive_add(e, offset as int, size as int);
            vstd::arithmetic::mul::lemma_mul_is_distributive_sub(e, n, size as int);
            vstd::arithmetic::mul::lemma_mul_is_distributive_sub(e, n - size, offset as int);
            vstd::arithmetic::mul::lemma_mul_inequality(offset + size, n, e);
            vstd::arithmetic::mul::lemma_mul_inequality(size as int, offset + size, e);
            vstd::arithmetic::mul::lemma_mul_inequality(offset as int, offset + size, e);
            vstd::arithmetic::mul::lemma_mul_is_commutative(n - size, e);
            vstd::arithmetic::mul::lemma_mul_is_commutative(n - offset - size, e);
            vstd::arithmetic::mul::lemma_mul_is_distributive_sub(e, n, offset + size);
            assert(n - offset - size == n - (offset + size));
            assert((n - size) * e == n * e - size * e);
            assert((n - offset - size) * e == n * e - (offset * e + size * e));
        }
        let old_bytes = self.size * element as u64;
        let byte_offset = offset * element;
        let byte_size_to_free = size * element;
        let new_bytes = old_bytes - byte_size_to_free as u64;
        let mut copies = Vec::new();
        copies.push(BufferCopy { from: 0, to: 0, len: byte_offset as u64 });
        copies.push(
            BufferCopy {
                from: (byte_offset + byte_size_to_free) as u64,
                to: byte_offset as u64,
                len: old_bytes - (byte_offset + byte_size_to_free) as u64,
            },
        );
        self.size = self.size - size as u64;
        ResizePlan { new_bytes, copies, write_at: None }
    }

    /// The byte offset of vertex `offset`, where a write of vertices from it starts.
    pub fn write_offset<T>(&self, offset: usize) -> (r: usize)
        requires
            bytes_of::<T>(offset as int) <= usize::MAX,
        ensures
            r == bytes_of::<T>(offset as int),
    {
        offset * core::mem::size_of::<T>()
    }
}

/// Law: freeing the vertices that an append added gives back the buffer as it was before
/// the append: the same number of vertices, and, where the device carries out the plans,
/// the same bytes.
pub proof fn law_free_undoes_append<T>(contents: Seq<u8>, size: int, data: Seq<u8>, len: int)
    requires
        0 <= size,
        0 <= len,
        contents.len() == bytes_of::<T>(size),
        data.len() == bytes_of::<T>(len),
        bytes_of::<T>(size + len) <= u64::MAX,
    ensures
        (size + len) - len == size,
        ({
            let grown = rebuilt(
                contents,
                bytes_of::<T>(size) + bytes_of::<T>(len),
                grow_copies::<T>(size),
                Some(bytes_of::<T>(size) as u64),
                data,
            );
            rebuilt(
                grown,
                bytes_of::<T>((size + len) - len),
                free_copies::<T>(size + len, size, len),
                None,
                seq![],
            ) == contents
        }),
{
    let e = vstd::layout::size_of::<T>() as int;
    vstd::arithmetic::mul::lemma_mul_is_distributive_add_other_way(e, size, len);
    vstd::arithmetic::mul::lemma_mul_nonnegative(size, e);
    vstd::arithmetic::mul::lemma_mul_nonnegative(len, e);
    let b = bytes_of::<T>(size);
    assert(size + len - size - len == 0);
    assert(bytes_of::<T>(size + len - size - len) == 0 * e);
    assert(bytes_of::<T>((size + len) - len) == b);
    let fresh = Seq::new((b + bytes_of::<T>(len)) as nat, |j: int| 0u8);
    let c1 = copies_into(fresh, contents, grow_copies::<T>(size));
    assert(grow_copies::<T>(size).drop_first().len() == 0);
    assert(c1 == copies_into(
        copy_into(fresh, contents, grow_copies::<T>(size)[0]),
        contents,
        grow_copies::<T>(size).drop_first(),
    ));
    let grown = written_at(c1, b, data);
    assert forall|j: int| 0 <= j < b implies grown[j] == contents[j] by {}
    let fresh2 = Seq::new(b as nat, |j: int| 0u8);
    let cs = free_copies::<T>(size + len, size, len);
    let d1 = copy_into(fresh2, grown, cs[0]);
    let d2 = copy_into(d1, grown, cs[1]);
    assert(cs.drop_first().drop_first().len() == 0);
    assert(copies_into(fresh2, grown, cs) == copies_into(d1, grown, cs.drop_first()));
    assert(copies_into(d1, grown, cs.drop_first()) == copies_into(d2, grown, cs.drop_first().drop_first()));
    assert(d2 =~= contents);
}

} // verus!
