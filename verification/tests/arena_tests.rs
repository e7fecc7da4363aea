use hookrunner::arena::{choose_spawn, review_join, Admission, MAX_PLAYERS};
use hookrunner::level::{parse_collision, parse_render, BinaryReader};

fn words(list: &[u32]) -> Vec<u8> {
    list.iter().flat_map(|w| w.to_le_bytes()).collect()
}

#[test]
fn spawn_takes_first_clear_after_random_start() {
    let clear = [true, false, false, true];
    assert_eq!(choose_spawn(1, &clear, &[0, 0, 0, 0]), 3);
    assert_eq!(choose_spawn(6, &clear, &[0, 0, 0, 0]), 3);
    assert_eq!(choose_spawn(4, &clear, &[0, 0, 0, 0]), 0);
}

#[test]
fn spawn_falls_back_to_farthest_last_on_ties() {
    let clear = [false, false, false];
    assert_eq!(choose_spawn(0, &clear, &[5, 9, 2]), 1);
    assert_eq!(choose_spawn(0, &clear, &[9, 9, 2]), 1);
    assert_eq!(choose_spawn(2, &clear, &[-3, -8, -3]), 2);
}

#[test]
fn join_review() {
    assert_eq!(review_join(true, "Neo", 0), Admission::Ignored);
    assert_eq!(review_join(false, "", 0), Admission::Rejected("Enter a nickname.".to_string()));
    assert_eq!(
        review_join(false, "Neo", MAX_PLAYERS),
        Admission::Rejected("The server is full. Please try again later.".to_string())
    );
    assert_eq!(review_join(false, " Neo ", MAX_PLAYERS - 1), Admission::Admitted("Neo".to_string()));
}

#[test]
fn reader_decodes_little_endian() {
    let bytes = [0x78, 0x56, 0x34, 0x12, 0xff, 0xff, 0xff, 0xff];
    let mut r = BinaryReader::new(&bytes);
    assert_eq!(r.u32(), 0x1234_5678);
    assert_eq!(r.u32(), u32::MAX);
    r.finish();
}

#[test]
fn collision_layout() {
    let mut v = words(&[2, 1]);
    v.extend(words(&[1, 2, 3, 4, 5, 6, 0, 1, 1]));
    let mesh = parse_collision(&v).unwrap();
    assert_eq!(mesh.vertex_bits, vec![1, 2, 3, 4, 5, 6]);
    assert_eq!(mesh.indices, vec![0, 1, 1]);
    let mut extra = v.clone();
    extra.push(0);
    assert!(parse_collision(&extra).is_none());
    assert!(parse_collision(&v[..v.len() - 4]).is_none());
    assert!(parse_collision(&[1, 2, 3]).is_none());
}

#[test]
fn render_layout() {
    let mut v = words(&[2]);
    // mesh 0: material 3, lightmap -1, one vertex, three indices
    v.extend(words(&[3, u32::MAX, 1, 3]));
    v.extend(words(&(100..114).collect::<Vec<u32>>()));
    v.extend(words(&[0, 0, 0]));
    // mesh 1: material 0, lightmap 2, no vertices, no indices
    v.extend(words(&[0, 2, 0, 0]));
    let meshes = parse_render(&v).unwrap();
    assert_eq!(meshes.len(), 2);
    assert_eq!((meshes[0].material, meshes[0].lightmap), (3, -1));
    assert_eq!(meshes[0].vertex_bits, (100..114).collect::<Vec<u32>>());
    assert_eq!(meshes[0].indices, vec![0, 0, 0]);
    assert_eq!((meshes[1].material, meshes[1].lightmap), (0, 2));
    assert!(parse_render(&v[..v.len() - 1]).is_none());
    let mut extra = v.clone();
    extra.extend(words(&[0]));
    assert!(parse_render(&extra).is_none());
    assert!(parse_render(&words(&[0])).unwrap().is_empty());
}
