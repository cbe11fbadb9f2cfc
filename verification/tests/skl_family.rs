use d4_harvest::error::DecodeError;
use d4_harvest::parsers::skl::{Skl, SklField, SklFile, SKL_HEADER_LEN, SKL_RECORD_LEN};
use d4_harvest::parsers::{Record, SourceFile};
use d4_harvest::utils::{go_to, Cursor};

fn put_u32(buf: &mut Vec<u8>, at: usize, value: u32) {
    buf[at..at + 4].copy_from_slice(&value.to_le_bytes());
}

struct Node {
    id: u32,
    reward_hash: u32,
    x: f32,
    y: f32,
    root_field: u32,
    req_points: u32,
    connections: Vec<u32>,
    /// Bytes that the record declares beyond the whole connections.
    extra_len: u32,
}

fn node(id: u32, root_field: u32, connections: &[u32]) -> Node {
    Node {
        id,
        reward_hash: id.wrapping_mul(31),
        x: id as f32 + 0.5,
        y: -(id as f32),
        root_field,
        req_points: id + 100,
        connections: connections.to_vec(),
        extra_len: 0,
    }
}

/// A skill-graph file: the header, one record for each node, then the
/// arrays of connections. `tree_len` is written into the header as given.
fn skl_bytes(tree_len: u32, nodes: &[Node]) -> Vec<u8> {
    let block = 92;
    let mut buf = vec![0u8; block + 64 * nodes.len()];
    put_u32(&mut buf, 0, 0xdead_beef);
    put_u32(&mut buf, 12, 0x5555_5555);
    put_u32(&mut buf, 64, (block - 16) as u32);
    put_u32(&mut buf, 68, tree_len);
    for (i, n) in nodes.iter().enumerate() {
        let at = block + 64 * i;
        put_u32(&mut buf, at, n.id);
        put_u32(&mut buf, at + 4, n.reward_hash);
        put_u32(&mut buf, at + 12, n.x.to_bits());
        put_u32(&mut buf, at + 16, n.y.to_bits());
        put_u32(&mut buf, at + 20, n.root_field);
        put_u32(&mut buf, at + 24, n.req_points);
        let array_at = buf.len();
        for c in &n.connections {
            buf.extend_from_slice(&c.to_le_bytes());
        }
        for _ in 0..n.extra_len {
            buf.push(0xaa);
        }
        put_u32(&mut buf, at + 40, (array_at - 16) as u32);
        put_u32(&mut buf, at + 44, 4 * n.connections.len() as u32 + n.extra_len);
    }
    buf
}

fn source(name: &str, data: Vec<u8>) -> SourceFile {
    SourceFile { name: name.to_string(), data }
}

#[test]
fn skl_layout_constants() {
    assert_eq!(SKL_HEADER_LEN, 92);
    assert_eq!(SKL_RECORD_LEN, 64);
}

#[test]
fn skl_decodes_every_field_of_a_node() {
    let data = skl_bytes(64, &[node(7, 1, &[8, 9, 0xffff_ffff])]);
    let file = SklFile::decode(&data).unwrap();
    assert_eq!(file.skills.len(), 1);
    let n = &file.skills[0];
    assert_eq!(n.id, 7);
    assert_eq!(n.reward_hash, 217);
    assert_eq!(n.req_points, 107);
    assert!(n.is_root);
    assert_eq!(f32::from_bits(n.x), 7.5f32);
    assert_eq!(f32::from_bits(n.y), -7.0f32);
    assert_eq!(n.connections, vec![8, 9, 0xffff_ffff]);
}

#[test]
fn skl_nodes_come_in_file_order() {
    let nodes = [node(3, 0, &[1]), node(1, 0, &[]), node(2, 1, &[3, 1])];
    let file = SklFile::decode(&skl_bytes(192, &nodes)).unwrap();
    let ids: Vec<u32> = file.skills.iter().map(|n| n.id).collect();
    assert_eq!(ids, vec![3, 1, 2]);
    assert_eq!(file.skills[0].connections, vec![1]);
    assert!(file.skills[1].connections.is_empty());
    assert_eq!(file.skills[2].connections, vec![3, 1]);
}

#[test]
fn skl_root_only_if_the_field_is_one() {
    let nodes = [
        node(1, 1, &[]),
        node(2, 0, &[]),
        node(3, 2, &[]),
        node(4, 0xffff_ffff, &[]),
        node(5, 0x0100_0000, &[]),
        node(6, 0x0000_0101, &[]),
    ];
    let file = SklFile::decode(&skl_bytes(64 * 6, &nodes)).unwrap();
    let roots: Vec<bool> = file.skills.iter().map(|n| n.is_root).collect();
    assert_eq!(roots, vec![true, false, false, false, false, false]);
}

#[test]
fn skl_connection_count_is_a_quarter_of_the_declared_length() {
    let mut n = node(1, 0, &[10, 20]);
    n.extra_len = 3;
    let file = SklFile::decode(&skl_bytes(64, &[n])).unwrap();
    assert_eq!(file.skills[0].connections, vec![10, 20]);

    let mut n = node(1, 0, &[]);
    n.extra_len = 3;
    let file = SklFile::decode(&skl_bytes(64, &[n])).unwrap();
    assert!(file.skills[0].connections.is_empty());
}

#[test]
fn skl_next_node_does_not_depend_on_the_connections() {
    let many: Vec<u32> = (0..1000).collect();
    let with_none = skl_bytes(128, &[node(1, 1, &[]), node(2, 0, &[5])]);
    let with_many = skl_bytes(128, &[node(1, 1, &many), node(2, 0, &[5])]);
    let a = SklFile::decode(&with_none).unwrap();
    let b = SklFile::decode(&with_many).unwrap();
    assert_eq!(a.skills[0].connections.len(), 0);
    assert_eq!(b.skills[0].connections.len(), 1000);
    for file in [&a, &b] {
        assert_eq!(file.skills[1].id, 2);
        assert_eq!(file.skills[1].req_points, 102);
        assert_eq!(file.skills[1].connections, vec![5]);
    }

    for data in [&with_none, &with_many] {
        let mut f = Cursor::new(data);
        go_to(&mut f, 92).unwrap();
        let first = Skl::field(&mut f).unwrap();
        assert_eq!(first.id, 1);
        assert_eq!(f.position(), 92 + 64);
    }
}

#[test]
fn skl_get_connections_restores_the_cursor() {
    let mut data = vec![0u8; 20];
    for c in [1u32, 2, 3] {
        data.extend_from_slice(&c.to_le_bytes());
    }
    let mut f = Cursor::new(&data);
    go_to(&mut f, 5).unwrap();
    assert_eq!(Skl::get_connections(&mut f, 20, 12), Ok(vec![1, 2, 3]));
    assert_eq!(f.position(), 5);
    assert_eq!(Skl::get_connections(&mut f, 24, 11), Ok(vec![2, 3]));
    assert_eq!(f.position(), 5);
    assert_eq!(Skl::get_connections(&mut f, 32, 3), Ok(vec![]));
    assert_eq!(Skl::get_connections(&mut f, 24, 12), Err(DecodeError::TruncatedRecord));
    assert_eq!(f.position(), 5);
    assert_eq!(Skl::get_connections(&mut f, 33, 0), Err(DecodeError::TruncatedRecord));
    assert_eq!(f.position(), 5);
    assert_eq!(Skl::get_connections(&mut f, u64::MAX, u32::MAX), Err(DecodeError::TruncatedRecord));
    assert_eq!(f.position(), 5);
}

#[test]
fn skl_header_reads_the_block() {
    let data = skl_bytes(640, &[]);
    let mut f = Cursor::new(&data);
    assert_eq!(Skl::header(&mut f), Ok((92, 640)));
    assert_eq!(f.position(), 92);
    assert_eq!(Skl::header(&mut f), Err(DecodeError::TruncatedRecord));
    assert_eq!(f.position(), 92);
}

#[test]
fn skl_empty_file_is_valid() {
    let file = SklFile::decode(&skl_bytes(0, &[])).unwrap();
    assert!(file.skills.is_empty());
    let file = SklFile::decode(&skl_bytes(63, &[node(1, 1, &[])])).unwrap();
    assert!(file.skills.is_empty());
}

#[test]
fn skl_short_input_is_truncation() {
    let data = skl_bytes(128, &[node(1, 1, &[2]), node(2, 0, &[1])]);
    assert!(SklFile::decode(&data).is_ok());
    assert!(matches!(SklFile::decode(&data[..91]), Err(DecodeError::TruncatedRecord)));
    assert!(matches!(SklFile::decode(&data[..92 + 64 + 63]), Err(DecodeError::TruncatedRecord)));
    // The records are whole, the last array of connections is not.
    assert!(matches!(SklFile::decode(&data[..data.len() - 1]), Err(DecodeError::TruncatedRecord)));
}

#[test]
fn skl_field_restores_the_cursor_on_failure() {
    let data = skl_bytes(64, &[node(1, 1, &[2, 3])]);
    let cut = &data[..data.len() - 2];
    let mut f = Cursor::new(cut);
    go_to(&mut f, 92).unwrap();
    assert!(matches!(Skl::field(&mut f), Err(DecodeError::TruncatedRecord)));
    assert_eq!(f.position(), 92);
}

#[test]
fn skl_block_outside_the_file_is_truncation() {
    let mut data = skl_bytes(0, &[]);
    put_u32(&mut data, 64, 92 - 16 + 1);
    assert!(matches!(SklFile::decode(&data), Err(DecodeError::TruncatedRecord)));
    put_u32(&mut data, 64, 0xffff_ffff);
    assert!(matches!(SklFile::decode(&data), Err(DecodeError::TruncatedRecord)));
}

#[test]
fn skl_add_field_appends_and_creates() {
    let mut skl = Skl::new();
    assert!(skl.files.is_empty());
    skl.add_field("a.skl", SklField::new(1, 2, 3, true, 4, 5, vec![6]));
    skl.add_field("a.skl", SklField::new(7, 0, 0, false, 0, 0, vec![]));
    skl.add_field("b.skl", SklField::new(9, 0, 0, false, 0, 0, vec![]));
    assert_eq!(skl.files.len(), 2);
    let a = skl.files.get("a.skl").unwrap();
    assert_eq!(a.skills.len(), 2);
    assert_eq!(a.skills[0].id, 1);
    assert_eq!(a.skills[0].req_points, 2);
    assert_eq!(a.skills[0].reward_hash, 3);
    assert!(a.skills[0].is_root);
    assert_eq!(a.skills[0].x, 4);
    assert_eq!(a.skills[0].y, 5);
    assert_eq!(a.skills[0].connections, vec![6]);
    assert_eq!(a.skills[1].id, 7);
    assert_eq!(skl.files.get("b.skl").unwrap().skills[0].id, 9);
    assert!(SklFile::new().skills.is_empty());
}

#[test]
fn skl_run_adds_every_file_or_none() {
    let mut skl = Skl::new();
    let good = vec![
        source("a.skl", skl_bytes(64, &[node(1, 1, &[2])])),
        source("empty.skl", skl_bytes(0, &[])),
    ];
    assert_eq!(skl.run(&good), Ok(()));
    assert_eq!(skl.files.len(), 2);
    assert_eq!(skl.files.get("a.skl").unwrap().skills[0].connections, vec![2]);
    assert!(skl.files.get("empty.skl").unwrap().skills.is_empty());

    let bad = vec![
        source("c.skl", skl_bytes(64, &[node(3, 0, &[])])),
        source("d.skl", vec![0u8; 91]),
    ];
    assert_eq!(skl.run(&bad), Err(DecodeError::TruncatedRecord));
    assert_eq!(skl.files.len(), 2);
    assert!(!skl.files.contains_key("c.skl"));
}
