use bevy_svg::vertex_buffer::{merge_buffers, mesh_attributes, Vertex, VertexBuffers};

fn buf(n: u32, indices: Vec<u32>) -> VertexBuffers<u32> {
    VertexBuffers { vertices: (0..n).map(|i| 100 * n + i).collect(), indices }
}

#[test]
fn merge_offsets_indices_by_preceding_vertices() {
    let merged = merge_buffers(vec![buf(3, vec![0, 1, 2]), buf(2, vec![1, 0, 1]), buf(0, vec![]), buf(4, vec![3, 2, 0])]);
    assert_eq!(merged.vertices, vec![300, 301, 302, 200, 201, 400, 401, 402, 403]);
    assert_eq!(merged.indices, vec![0, 1, 2, 4, 3, 4, 8, 7, 5]);
    assert!(merged.indices.iter().all(|i| (*i as usize) < merged.vertices.len()));
}

#[test]
fn merge_of_nothing_is_empty() {
    let merged = merge_buffers::<u32>(Vec::new());
    assert!(merged.vertices.is_empty());
    assert!(merged.indices.is_empty());
    let empty = VertexBuffers::<u32>::new();
    assert!(empty.vertices.is_empty() && empty.indices.is_empty());
}

#[test]
fn mesh_attributes_split_vertices() {
    let b = VertexBuffers {
        vertices: vec![
            Vertex { position: [0.0f32, 1.0, 0.0], color: [1.0f32, 0.0, 0.0, 1.0] },
            Vertex { position: [2.0f32, 3.0, 0.0], color: [0.0f32, 1.0, 0.0, 0.5] },
        ],
        indices: vec![0, 1, 0],
    };
    let (positions, colors, indices) = mesh_attributes(&b);
    assert_eq!(positions, vec![[0.0, 1.0, 0.0], [2.0, 3.0, 0.0]]);
    assert_eq!(colors, vec![[1.0, 0.0, 0.0, 1.0], [0.0, 1.0, 0.0, 0.5]]);
    assert_eq!(indices, vec![0, 1, 0]);
}
