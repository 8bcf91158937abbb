use binary_greedy_meshing::{indices, Face, Quad, Vertex};

#[test]
fn quad_round_trip() {
    let q = Quad::pack(1, 2, 3, 4, 5, 6);
    assert_eq!(q.xyz(), [1, 2, 3]);
    assert_eq!(q.width(), 4);
    assert_eq!(q.height(), 5);
    assert_eq!(q.voxel_id(), 6);
    let m = Quad::pack(63, 63, 63, 63, 63, 0xffff_ffff);
    assert_eq!(m.xyz(), [63, 63, 63]);
    assert_eq!(m.width(), 63);
    assert_eq!(m.height(), 63);
    assert_eq!(m.voxel_id(), 0xffff_ffff);
    let z = Quad::pack(0, 0, 0, 1, 1, 0);
    assert_eq!(z.xyz(), [0, 0, 0]);
    assert_eq!((z.width(), z.height(), z.voxel_id()), (1, 1, 0));
}

#[test]
fn quad_layout() {
    let q = Quad::pack(1, 2, 3, 4, 5, 6);
    assert_eq!(q.0, (6 << 32) | (5 << 24) | (4 << 18) | (3 << 12) | (2 << 6) | 1);
}

#[test]
fn debug_quad_text() {
    assert_eq!(Quad::pack(1, 2, 3, 4, 5, 6).debug_quad(), "1;2;3 4x5 v=6");
    assert_eq!(Quad::pack(10, 0, 63, 12, 1, 65535).debug_quad(), "10;0;63 12x1 v=65535");
}

#[test]
fn indices_follow_the_pattern() {
    assert!(indices(0).is_empty());
    assert_eq!(indices(1), vec![2, 0, 1, 1, 3, 2]);
    let r = indices(3);
    assert_eq!(r.len(), 18);
    for i in 0..3u32 {
        let base = 6 * i as usize;
        assert_eq!(
            &r[base..base + 6],
            &[4 * i + 2, 4 * i, 4 * i + 1, 4 * i + 1, 4 * i + 3, 4 * i + 2]
        );
    }
}

#[test]
fn face_from_index() {
    assert_eq!(Face::from(0), Face::Up);
    assert_eq!(Face::from(1), Face::Down);
    assert_eq!(Face::from(2), Face::Right);
    assert_eq!(Face::from(3), Face::Left);
    assert_eq!(Face::from(4), Face::Front);
    assert_eq!(Face::from(5), Face::Back);
}

#[test]
fn vertex_fields() {
    let v = Vertex::pack((3 << 12) | (2 << 6) | 1, 4, 5);
    assert_eq!(v.xyz(), [1, 2, 3]);
    assert_eq!((v.x(), v.y(), v.z(), v.u(), v.v()), (1, 2, 3, 4, 5));
    assert_eq!(Vertex::new().0, 0);
}

fn corners(face: Face, q: Quad) -> Vec<[u32; 5]> {
    face.vertices_packed(q)
        .iter()
        .map(|v| [v.x(), v.y(), v.z(), v.u(), v.v()])
        .collect()
}

#[test]
fn vertices_of_each_face() {
    let q = Quad::pack(10, 20, 30, 2, 3, 1);
    assert_eq!(
        corners(Face::Left, q),
        vec![[10, 20, 30, 3, 2], [10, 20, 33, 0, 2], [10, 22, 30, 3, 0], [10, 22, 33, 0, 0]]
    );
    assert_eq!(
        corners(Face::Down, q),
        vec![[8, 20, 33, 2, 3], [8, 20, 30, 2, 0], [10, 20, 33, 0, 3], [10, 20, 30, 0, 0]]
    );
    assert_eq!(
        corners(Face::Back, q),
        vec![[10, 20, 30, 2, 3], [10, 23, 30, 2, 0], [12, 20, 30, 0, 3], [12, 23, 30, 0, 0]]
    );
    assert_eq!(
        corners(Face::Right, q),
        vec![[10, 20, 30, 0, 0], [10, 20, 33, 3, 0], [10, 18, 30, 0, 2], [10, 18, 33, 3, 2]]
    );
    assert_eq!(
        corners(Face::Up, q),
        vec![[12, 20, 33, 2, 3], [12, 20, 30, 2, 0], [10, 20, 33, 0, 3], [10, 20, 30, 0, 0]]
    );
    assert_eq!(
        corners(Face::Front, q),
        vec![[8, 23, 30, 0, 0], [8, 20, 30, 0, 3], [10, 23, 30, 2, 0], [10, 20, 30, 2, 3]]
    );
}
