//! Vertex and index buffers produced by tessellation, and how several of
//! them are merged into one mesh.
use vstd::prelude::*;

verus! {

/// A vertex: its position and its color.
#[derive(Clone, Copy, Debug, PartialEq)]
pub struct Vertex<P, C> {
    pub position: P,
    pub color: C,
}

/// A vertex buffer with its triangle-list index buffer.
pub struct VertexBuffers<V> {
    pub vertices: Vec<V>,
    pub indices: Vec<u32>,
}

/// The mathematical content of a pair of buffers.
pub struct BuffersView<V> {
    pub vertices: Seq<V>,
    pub indices: Seq<u32>,
}

impl<V> View for VertexBuffers<V> {
    type V = BuffersView<V>;

    open spec fn view(&self) -> BuffersView<V> {
        BuffersView { vertices: self.vertices@, indices: self.indices@ }
    }
}

pub open spec fn buffers_views<V>(bufs: Seq<VertexBuffers<V>>) -> Seq<BuffersView<V>> {
    bufs.map_values(|b: VertexBuffers<V>| b@)
}

/// Every index names one of the buffer's vertices.
pub open spec fn indices_in_range<V>(b: BuffersView<V>) -> bool {
    forall|k: int| 0 <= k < b.indices.len() ==> (#[trigger] b.indices[k]) < b.vertices.len()
}

/// The index offset of the buffer that follows `bufs`: the sum of their
/// vertex counts, each taken as a `u32`.
pub open spec fn vertex_offset<V>(bufs: Seq<BuffersView<V>>) -> int
    decreases bufs.len(),
{
    if bufs.len() == 0 {
        0
    } else {
        vertex_offset(bufs.drop_last()) + (bufs.last().vertices.len() as u32) as int
    }
}

/// All vertices, one buffer after the other.
pub open spec fn merged_vertices<V>(bufs: Seq<BuffersView<V>>) -> Seq<V>
    decreases bufs.len(),
{
    if bufs.len() == 0 {
        seq![]
    } else {
        merged_vertices(bufs.drop_last()) + bufs.last().vertices
    }
}

/// `indices` moved up by `offset`.
pub open spec fn shifted(indices: Seq<u32>, offset: int) -> Seq<u32> {
    indices.map_values(|i: u32| (i + offset) as u32)
}

/// All indices, one buffer after the other, each buffer's indices moved up by
/// the number of vertices before it.
pub open spec fn merged_indices<V>(bufs: Seq<BuffersView<V>>) -> Seq<u32>
    decreases bufs.len(),
{
    if bufs.len() == 0 {
        seq![]
    } else {
        merged_indices(bufs.drop_last()) + shifted(bufs.last().indices, vertex_offset(bufs.drop_last()))
    }
}

/// No moved index leaves the `u32` range.
pub open spec fn shifted_indices_fit<V>(bufs: Seq<BuffersView<V>>) -> bool {
    forall|j: int, k: int|
        0 <= j < bufs.len() && 0 <= k < bufs[j].indices.len() ==> bufs[j].indices[k] + vertex_offset(bufs.take(j)) <= u32::MAX
}

impl<V> VertexBuffers<V> {
    /// Empty buffers.
    pub fn new() -> (b: Self)
        ensures
            b@.vertices.len() == 0,
            b@.indices.len() == 0,
    {
        VertexBuffers { vertices: Vec::new(), indices: Vec::new() }
    }
}

proof fn lemma_offset_monotone<V>(bufs: Seq<BuffersView<V>>, j: int)
    requires
        0 <= j <= bufs.len(),
    ensures
        0 <= vertex_offset(bufs.take(j)) <= vertex_offset(bufs),
    decreases bufs.len(),
{
    if j == bufs.len() {
        assert(bufs.take(j) =~= bufs);
    } else {
        assert(bufs.take(j) =~= bufs.drop_last().take(j));
        lemma_offset_monotone(bufs.drop_last(), j);
    }
    lemma_offset_nonneg(bufs.take(j));
}

proof fn lemma_offset_nonneg<V>(bufs: Seq<BuffersView<V>>)
    ensures
        vertex_offset(bufs) >= 0,
    decreases bufs.len(),
{
    if bufs.len() > 0 {
        lemma_offset_nonneg(bufs.drop_last());
    }
}

/// Merges several buffers into one: the vertices one buffer after the
/// other, and each buffer's indices moved up by the number of vertices
/// before it.
pub fn merge_buffers<V: Copy>(buffers: Vec<VertexBuffers<V>>) -> (merged: VertexBuffers<V>)
    requires
        vertex_offset(buffers_views(buffers@)) <= u32::MAX,
        shifted_indices_fit(buffers_views(buffers@)),
    ensures
        merged@.vertices == merged_vertices(buffers_views(buffers@)),
        merged@.indices == merged_indices(buffers_views(buffers@)),
{
    let ghost views = buffers_views(buffers@);
    let mut merged: VertexBuffers<V> = VertexBuffers::new();
    let mut offset: u32 = 0;
    let mut j: usize = 0;
    while j < buffers.len()
        invariant
            j <= buffers@.len(),
            views == buffers_views(buffers@),
            vertex_offset(views) <= u32::MAX,
            shifted_indices_fit(views),
            offset as int == vertex_offset(views.take(j as int)),
            merged@.vertices == merged_vertices(views.take(j as int)),
            merged@.indices == merged_indices(views.take(j as int)),
        decreases buffers@.len() - j,
    {
        let buf = &buffers[j];
        let ghost bv = views[j as int];
        assert(bv == buf@);
        let ghost next = views.take(j + 1);
        proof {
            assert(next.drop_last() =~= views.take(j as int));
            assert(next.last() == bv);
            lemma_offset_monotone(views, j + 1);
        }
        let mut i: usize = 0;
        let ghost v0 = merged@.vertices;
        while i < buf.vertices.len()
            invariant
                i <= buf@.vertices.len(),
                merged@.vertices == v0 + buf@.vertices.take(i as int),
                merged@.indices == merged_indices(views.take(j as int)),
            decreases buf@.vertices.len() - i,
        {
            merged.vertices.push(buf.vertices[i]);
            i = i + 1;
            assert(merged@.vertices =~= v0 + buf@.vertices.take(i as int));
        }
        assert(buf@.vertices.take(i as int) =~= buf@.vertices);
        let ghost v1 = merged@.vertices;
        let mut k: usize = 0;
        let ghost i0 = merged@.indices;
        while k < buf.indices.len()
            invariant
                j < views.len(),
                bv == views[j as int],
                bv == buf@,
                shifted_indices_fit(views),
                offset as int == vertex_offset(views.take(j as int)),
                k <= buf@.indices.len(),
                merged@.vertices == v1,
                merged@.indices == i0 + shifted(buf@.indices.take(k as int), offset as int),
            decreases buf@.indices.len() - k,
        {
            assert(bv.indices[k as int] + vertex_offset(views.take(j as int)) <= u32::MAX);
            let shifted_index = buf.indices[k] + offset;
            merged.indices.push(shifted_index);
            k = k + 1;
            assert(merged@.indices =~= i0 + shifted(buf@.indices.take(k as int), offset as int));
        }
        assert(buf@.indices.take(k as int) =~= buf@.indices);
        let len = buf.vertices.len() as u32;
        assert(offset + len == vertex_offset(next));
        assert(merged_vertices(next) == merged_vertices(views.take(j as int)) + bv.vertices);
        assert(merged_indices(next) == merged_indices(views.take(j as int)) + shifted(bv.indices, offset as int));
        offset = offset + len;
        j = j + 1;
    }
    assert(views.take(j as int) =~= views);
    merged
}

/// Law: merging keeps every index pointing at a vertex. If every buffer's
/// indices name its own vertices (and no buffer holds more vertices than a
/// `u32` counts), every index of the merged buffer names a merged vertex.
pub proof fn law_merge_keeps_indices_in_range<V>(bufs: Seq<BuffersView<V>>)
    requires
        forall|j: int| 0 <= j < bufs.len() ==> indices_in_range(#[trigger] bufs[j]),
        forall|j: int| 0 <= j < bufs.len() ==> (#[trigger] bufs[j]).vertices.len() <= u32::MAX,
        vertex_offset(bufs) <= u32::MAX,
    ensures
        indices_in_range(BuffersView { vertices: merged_vertices(bufs), indices: merged_indices(bufs) }),
        merged_vertices(bufs).len() == vertex_offset(bufs),
    decreases bufs.len(),
{
    if bufs.len() > 0 {
        let init = bufs.drop_last();
        assert forall|j: int| 0 <= j < init.len() implies indices_in_range(#[trigger] init[j]) && init[j].vertices.len() <= u32::MAX by {
            assert(init[j] == bufs[j]);
        }
        lemma_offset_nonneg(init);
        law_merge_keeps_indices_in_range(init);
        let last = bufs.last();
        assert(indices_in_range(bufs[bufs.len() - 1]));
        let off = vertex_offset(init);
        lemma_offset_nonneg(init);
        let idx = merged_indices(bufs);
        let verts = merged_vertices(bufs);
        assert(bufs[bufs.len() - 1].vertices.len() <= u32::MAX);
        assert(idx == merged_indices(init) + shifted(last.indices, off));
        assert(verts == merged_vertices(init) + last.vertices);
        assert(verts.len() == off + last.vertices.len());
        assert forall|k: int| 0 <= k < idx.len() implies (#[trigger] idx[k]) < verts.len() by {
            let n = merged_indices(init).len();
            let prev = BuffersView { vertices: merged_vertices(init), indices: merged_indices(init) };
            if k < n {
                assert(idx[k] == merged_indices(init)[k]);
                assert(prev.indices[k] < prev.vertices.len());
            } else {
                let i = last.indices[k - n];
                assert(i < last.vertices.len());
                assert(shifted(last.indices, off)[k - n] == (i + off) as u32);
                assert(i + off < u32::MAX);
                assert(idx[k] == shifted(last.indices, off)[k - n]);
            }
        }
    }
}

proof fn lemma_merged_prefix<V>(bufs: Seq<BuffersView<V>>, j: int)
    requires
        0 <= j <= bufs.len(),
    ensures
        merged_indices(bufs.take(j)).len() <= merged_indices(bufs).len(),
        forall|t: int| 0 <= t < merged_indices(bufs.take(j)).len()
            ==> merged_indices(bufs)[t] == #[trigger] merged_indices(bufs.take(j))[t],
        merged_vertices(bufs.take(j)).len() <= merged_vertices(bufs).len(),
        forall|t: int| 0 <= t < merged_vertices(bufs.take(j)).len()
            ==> merged_vertices(bufs)[t] == #[trigger] merged_vertices(bufs.take(j))[t],
    decreases bufs.len(),
{
    if j == bufs.len() {
        assert(bufs.take(j) =~= bufs);
    } else {
        let init = bufs.drop_last();
        assert(bufs.take(j) =~= init.take(j));
        lemma_merged_prefix(init, j);
        let mi = merged_indices(init);
        let mv = merged_vertices(init);
        assert(merged_indices(bufs) == mi + shifted(bufs.last().indices, vertex_offset(init)));
        assert(merged_vertices(bufs) == mv + bufs.last().vertices);
        assert forall|t: int| 0 <= t < merged_indices(bufs.take(j)).len()
            implies merged_indices(bufs)[t] == #[trigger] merged_indices(bufs.take(j))[t] by {
            assert(merged_indices(bufs)[t] == mi[t]);
        }
        assert forall|t: int| 0 <= t < merged_vertices(bufs.take(j)).len()
            implies merged_vertices(bufs)[t] == #[trigger] merged_vertices(bufs.take(j))[t] by {
            assert(merged_vertices(bufs)[t] == mv[t]);
        }
    }
}

proof fn lemma_merged_vertices_len<V>(bufs: Seq<BuffersView<V>>)
    requires
        forall|j: int| 0 <= j < bufs.len() ==> (#[trigger] bufs[j]).vertices.len() <= u32::MAX,
    ensures
        merged_vertices(bufs).len() == vertex_offset(bufs),
    decreases bufs.len(),
{
    if bufs.len() > 0 {
        let init = bufs.drop_last();
        assert forall|j: int| 0 <= j < init.len() implies (#[trigger] init[j]).vertices.len() <= u32::MAX by {
            assert(init[j] == bufs[j]);
        }
        lemma_merged_vertices_len(init);
        assert(bufs[bufs.len() - 1].vertices.len() <= u32::MAX);
    }
}

/// Law: merging keeps every triangle: the `k`-th index of buffer `j` stands
/// in the merged indices right after the indices of the buffers before it,
/// moved up by their vertex count, and it names the same vertex in the
/// merged vertices as it named in buffer `j`.
pub proof fn law_merge_keeps_triangles<V>(bufs: Seq<BuffersView<V>>, j: int, k: int)
    requires
        forall|b: int| 0 <= b < bufs.len() ==> (#[trigger] bufs[b]).vertices.len() <= u32::MAX,
        shifted_indices_fit(bufs),
        0 <= j < bufs.len(),
        0 <= k < bufs[j].indices.len(),
        bufs[j].indices[k] < bufs[j].vertices.len(),
    ensures
        merged_indices(bufs.take(j)).len() + k < merged_indices(bufs).len(),
        merged_indices(bufs)[merged_indices(bufs.take(j)).len() + k] == bufs[j].indices[k] + vertex_offset(bufs.take(j)),
        merged_vertices(bufs)[merged_indices(bufs)[merged_indices(bufs.take(j)).len() + k] as int]
            == bufs[j].vertices[bufs[j].indices[k] as int],
{
    let pre = bufs.take(j);
    let t = bufs.take(j + 1);
    let off = vertex_offset(pre);
    let b = bufs[j];
    assert(t.drop_last() =~= pre);
    assert(t.last() == b);
    lemma_offset_nonneg(pre);
    assert(b.indices[k] + off <= u32::MAX);
    let pos = merged_indices(pre).len() + k;
    assert(merged_indices(t) == merged_indices(pre) + shifted(b.indices, off));
    assert(merged_indices(t)[pos] == shifted(b.indices, off)[k]);
    assert(merged_indices(t)[pos] == b.indices[k] + off);
    lemma_merged_prefix(bufs, j + 1);
    assert(merged_indices(bufs)[pos] == merged_indices(t)[pos]);
    assert forall|c: int| 0 <= c < pre.len() implies (#[trigger] pre[c]).vertices.len() <= u32::MAX by {
        assert(pre[c] == bufs[c]);
    }
    lemma_merged_vertices_len(pre);
    assert(merged_vertices(t) == merged_vertices(pre) + b.vertices);
    let v = off + b.indices[k];
    assert(merged_vertices(t)[v] == b.vertices[b.indices[k] as int]);
    assert(merged_vertices(bufs)[v] == merged_vertices(t)[v]);
}

/// The vertex positions, vertex colors and indices of buffers, as a mesh
/// takes them.
pub fn mesh_attributes<P: Copy, C: Copy>(buffers: &VertexBuffers<Vertex<P, C>>) -> (r: (Vec<P>, Vec<C>, Vec<u32>))
    ensures
        r.0@ == buffers@.vertices.map_values(|v: Vertex<P, C>| v.position),
        r.1@ == buffers@.vertices.map_values(|v: Vertex<P, C>| v.color),
        r.2@ == buffers@.indices,
{
    let mut positions: Vec<P> = Vec::new();
    let mut colors: Vec<C> = Vec::new();
    let mut i: usize = 0;
    while i < buffers.vertices.len()
        invariant
            i <= buffers@.vertices.len(),
            positions@ == buffers@.vertices.take(i as int).map_values(|v: Vertex<P, C>| v.position),
            colors@ == buffers@.vertices.take(i as int).map_values(|v: Vertex<P, C>| v.color),
        decreases buffers@.vertices.len() - i,
    {
        let v = buffers.vertices[i];
        positions.push(v.position);
        colors.push(v.color);
        i = i + 1;
        assert(positions@ =~= buffers@.vertices.take(i as int).map_values(|v: Vertex<P, C>| v.position));
        assert(colors@ =~= buffers@.vertices.take(i as int).map_values(|v: Vertex<P, C>| v.color));
    }
    assert(buffers@.vertices.take(i as int) =~= buffers@.vertices);
    let mut indices: Vec<u32> = Vec::new();
    let mut k: usize = 0;
    while k < buffers.indices.len()
        invariant
            k <= buffers@.indices.len(),
            indices@ == buffers@.indices.take(k as int),
        decreases buffers@.indices.len() - k,
    {
        indices.push(buffers.indices[k]);
        k = k + 1;
        assert(indices@ =~= buffers@.indices.take(k as int));
    }
    assert(buffers@.indices.take(k as int) =~= buffers@.indices);
    (positions, colors, indices)
}

} // verus!
