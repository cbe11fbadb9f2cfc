use vstd::prelude::*;
use crate::error::yields;
use crate::error::DecodeError;
use crate::parsers::batch;
use crate::parsers::decode_all;
use crate::parsers::Record;
use crate::parsers::SourceFile;
use crate::pool::pool_position;
use crate::pool::POOL_BASE;
use crate::strmap::StrMap;
use crate::utils::go_to;
use crate::utils::padding;
use crate::utils::read_f32;
use crate::utils::read_u32;
use crate::utils::u32_at;
use crate::utils::Cursor;

verus! {

/// The number of bytes of the header of a skill-graph file.
pub const SKL_HEADER_LEN: usize = 92;

/// The number of bytes of one skill node record.
pub const SKL_RECORD_LEN: u32 = 64;

/// One node of a skill graph. `x` and `y` hold the bit patterns of the two
/// IEEE 754 singles that place the node; `connections` holds the ids of the
/// nodes it leads to, unchecked.
#[derive(Debug)]
pub struct SklField {
    pub id: u32,
    pub req_points: u32,
    pub reward_hash: u32,
    pub is_root: bool,
    pub x: u32,
    pub y: u32,
    pub connections: Vec<u32>,
}

/// A skill node as a mathematical value.
pub struct SklFieldView {
    pub id: u32,
    pub req_points: u32,
    pub reward_hash: u32,
    pub is_root: bool,
    pub x: u32,
    pub y: u32,
    pub connections: Seq<u32>,
}

impl View for SklField {
    type V = SklFieldView;

    open spec fn view(&self) -> SklFieldView {
        SklFieldView {
            id: self.id,
            req_points: self.req_points,
            reward_hash: self.reward_hash,
            is_root: self.is_root,
            x: self.x,
            y: self.y,
            connections: self.connections@,
        }
    }
}

impl SklField {
    /// A node with the given fields.
    pub fn new(
        id: u32,
        req_points: u32,
        reward_hash: u32,
        is_root: bool,
        x: u32,
        y: u32,
        connections: Vec<u32>,
    ) -> (node: Self)
        ensures
            node@ == (SklFieldView {
                id,
                req_points,
                reward_hash,
                is_root,
                x,
                y,
                connections: connections@,
            }),
    {
        Self { id, req_points, reward_hash, is_root, x, y, connections }
    }
}

/// The nodes of a sequence as mathematical values, in their order.
pub open spec fn node_views(nodes: Seq<SklField>) -> Seq<SklFieldView> {
    Seq::new(nodes.len(), |i: int| nodes[i]@)
}

/// The record of one skill-graph file: its nodes in file order.
#[derive(Debug)]
pub struct SklFile {
    pub skills: Vec<SklField>,
}

/// The record of a skill-graph file as a mathematical value.
pub struct SklFileView {
    pub skills: Seq<SklFieldView>,
}

impl View for SklFile {
    type V = SklFileView;

    open spec fn view(&self) -> SklFileView {
        SklFileView { skills: node_views(self.skills@) }
    }
}

impl SklFile {
    /// A record without nodes.
    pub fn new() -> (file: Self)
        ensures
            file@ == (SklFileView { skills: Seq::empty() }),
    {
        let file = Self { skills: Vec::new() };
        assert(node_views(file.skills@) =~= Seq::empty());
        file
    }
}

/// Whether the raw field of a node record marks the node as a root: only
/// the value one does.
pub open spec fn root_flag(raw: u32) -> bool {
    raw == 1
}

/// The header that starts at `at`: the absolute position of the skill tree
/// block and the block's length in bytes.
pub open spec fn skl_header(data: Seq<u8>, at: int) -> Result<(u64, u32), DecodeError> {
    if at + SKL_HEADER_LEN > data.len() {
        Err(DecodeError::TruncatedRecord)
    } else {
        Ok((pool_position(u32_at(data, at + 64)) as u64, u32_at(data, at + 68)))
    }
}

/// The array of connections of `len` bytes at the absolute position
/// `offset`: one little-endian number for every four whole bytes.
pub open spec fn skl_connections(data: Seq<u8>, offset: int, len: u32) -> Result<Seq<u32>, DecodeError> {
    let count = len as int / 4;
    if offset + 4 * count > data.len() {
        Err(DecodeError::TruncatedRecord)
    } else {
        Ok(Seq::new(count as nat, |j: int| u32_at(data, offset + 4 * j)))
    }
}

/// The node whose record starts at `at`.
pub open spec fn skl_node(data: Seq<u8>, at: int) -> Result<SklFieldView, DecodeError> {
    if at + SKL_RECORD_LEN > data.len() {
        Err(DecodeError::TruncatedRecord)
    } else {
        match skl_connections(data, pool_position(u32_at(data, at + 40)), u32_at(data, at + 44)) {
            Err(e) => Err(e),
            Ok(connections) => Ok(
                SklFieldView {
                    id: u32_at(data, at),
                    reward_hash: u32_at(data, at + 4),
                    x: u32_at(data, at + 12),
                    y: u32_at(data, at + 16),
                    is_root: root_flag(u32_at(data, at + 20)),
                    req_points: u32_at(data, at + 24),
                    connections,
                },
            ),
        }
    }
}

/// The first `count` nodes of the block that starts at `base`, or the error
/// of the first of them that does not decode.
pub open spec fn skl_nodes(data: Seq<u8>, base: int, count: nat) -> Result<Seq<SklFieldView>, DecodeError>
    decreases count,
{
    if count == 0 {
        Ok(Seq::empty())
    } else {
        match skl_nodes(data, base, (count - 1) as nat) {
            Err(e) => Err(e),
            Ok(nodes) => match skl_node(data, base + SKL_RECORD_LEN * (count - 1)) {
                Err(e) => Err(e),
                Ok(node) => Ok(nodes.push(node)),
            },
        }
    }
}

/// The record that the bytes of a skill-graph file stand for: the header,
/// then as many nodes as whole records fit into the declared length of the
/// skill tree block.
pub open spec fn skl_file(data: Seq<u8>) -> Result<SklFileView, DecodeError> {
    match skl_header(data, 0) {
        Err(e) => Err(e),
        Ok((tree_offset, tree_len)) => if tree_offset > data.len() {
            Err(DecodeError::TruncatedRecord)
        } else {
            match skl_nodes(data, tree_offset as int, (tree_len / SKL_RECORD_LEN) as nat) {
                Err(e) => Err(e),
                Ok(skills) => Ok(SklFileView { skills }),
            }
        },
    }
}

/// The skill graphs of a set of files, by file name.
#[derive(Debug)]
pub struct Skl {
    pub files: StrMap<SklFile>,
}

impl View for Skl {
    type V = Map<Seq<char>, SklFileView>;

    open spec fn view(&self) -> Map<Seq<char>, SklFileView> {
        self.files@
    }
}

impl Skl {
    /// A collection without files.
    pub fn new() -> (skl: Self)
        ensures
            skl@ == Map::<Seq<char>, SklFileView>::empty(),
    {
        Self { files: StrMap::new() }
    }

    /// Appends a node to the record of `file_name`; a file that has no
    /// record yet gets one.
    pub fn add_field(&mut self, file_name: &str, value: SklField)
        ensures
            final(self)@ == old(self)@.insert(
                file_name@,
                SklFileView {
                    skills: if old(self)@.contains_key(file_name@) {
                        old(self)@[file_name@].skills.push(value@)
                    } else {
                        seq![value@]
                    },
                },
            ),
    {
        let mut file = match self.files.remove(file_name) {
            Some(file) => file,
            None => SklFile::new(),
        };
        let ghost before = file.skills@;
        file.skills.push(value);
        assert(node_views(file.skills@) =~= node_views(before).push(value@));
        self.files.insert(file_name.to_owned(), file);
        assert(self@ =~= old(self)@.insert(file_name@, file@));
    }

    /// Reads the header under the cursor. On failure the cursor stays where
    /// it was; on success it stands behind the header.
    pub fn header(f: &mut Cursor) -> (r: Result<(u64, u32), DecodeError>)
        ensures
            final(f).bytes() == old(f).bytes(),
            match skl_header(old(f).bytes(), old(f).offset() as int) {
                Ok(h) => r == Ok::<(u64, u32), DecodeError>(h) && final(f).offset() == old(f).offset()
                    + SKL_HEADER_LEN,
                Err(e) => r == Err::<(u64, u32), DecodeError>(e) && final(f).offset() == old(
                    f,
                ).offset(),
            },
    {
        if f.remaining() < SKL_HEADER_LEN {
            return Err(DecodeError::TruncatedRecord);
        }
        let _deadbeef = read_u32(f)?;
        let _file_type = read_u32(f)?;
        padding(f, 4)?;
        let _hash_id = read_u32(f)?;
        padding(f, 16)?;
        padding(f, 32)?;

        let skill_tree_offset = read_u32(f)? as u64 + POOL_BASE;
        let skill_tree_len = read_u32(f)?;
        padding(f, 8)?;

        let _something_offset = read_u32(f)?;
        let _something_len = read_u32(f)?;
        let _idk = read_u32(f)?;

        Ok((skill_tree_offset, skill_tree_len))
    }

    /// Reads the array of connections of `len` bytes at the absolute
    /// position `offset`. The cursor ends where it started, whether the
    /// read succeeds or not.
    pub fn get_connections(f: &mut Cursor, offset: u64, len: u32) -> (r: Result<Vec<u32>, DecodeError>)
        ensures
            final(f).bytes() == old(f).bytes(),
            final(f).offset() == old(f).offset(),
            yields(r, skl_connections(old(f).bytes(), offset as int, len)),
    {
        let mut connections: Vec<u32> = Vec::new();
        let old_pos = f.position();
        let num_connections = len / 4;
        if go_to(f, offset).is_err() {
            return Err(DecodeError::TruncatedRecord);
        }
        if f.remaining() / 4 < num_connections as usize {
            let back = go_to(f, old_pos);
            return Err(DecodeError::TruncatedRecord);
        }
        let mut i: u32 = 0;
        while i < num_connections
            invariant
                i <= num_connections,
                num_connections == len / 4,
                f.bytes() == old(f).bytes(),
                f.offset() == offset + 4 * i,
                offset + 4 * num_connections <= f.bytes().len(),
                old_pos <= f.bytes().len(),
                connections@.len() == i,
                forall|j: int| 0 <= j < i ==> connections@[j] == u32_at(f.bytes(), offset + 4 * j),
            decreases num_connections - i,
        {
            let connection = read_u32(f)?;
            connections.push(connection);
            i = i + 1;
        }
        let back = go_to(f, old_pos);
        proof {
            assert(connections@ =~= skl_connections(old(f).bytes(), offset as int, len)->Ok_0);
        }
        Ok(connections)
    }

    fn read_field(f: &mut Cursor) -> (r: Result<SklField, DecodeError>)
        requires
            old(f).offset() + SKL_RECORD_LEN <= old(f).bytes().len(),
        ensures
            final(f).bytes() == old(f).bytes(),
            yields(r, skl_node(old(f).bytes(), old(f).offset() as int)),
            r is Ok ==> final(f).offset() == old(f).offset() + SKL_RECORD_LEN,
            final(f).offset() <= final(f).bytes().len(),
    {
        let id = read_u32(f)?;
        let reward_hash = read_u32(f)?;
        padding(f, 4)?;
        let x = read_f32(f)?;
        let y = read_f32(f)?;
        let is_root = read_u32(f)? == 1u32;
        let req_points = read_u32(f)?;
        padding(f, 12)?;
        let connection_offset = read_u32(f)? as u64 + POOL_BASE;
        let connection_len = read_u32(f)?;
        let connections = Skl::get_connections(f, connection_offset, connection_len)?;
        padding(f, 16)?;

        let skl_field = SklField::new(id, req_points, reward_hash, is_root, x, y, connections);

        Ok(skl_field)
    }

    /// Reads the node record under the cursor. On failure the cursor stays
    /// where it was. On success it stands behind the record, wherever the
    /// node's connections lie and however many they are, and the node is a
    /// root exactly if the raw root field of the record holds the value one.
    pub fn field(f: &mut Cursor) -> (r: Result<SklField, DecodeError>)
        ensures
            final(f).bytes() == old(f).bytes(),
            yields(r, skl_node(old(f).bytes(), old(f).offset() as int)),
            r is Ok ==> final(f).offset() == old(f).offset() + SKL_RECORD_LEN,
            r is Err ==> final(f).offset() == old(f).offset(),
            r matches Ok(node) ==> (node.is_root <==> u32_at(
                old(f).bytes(),
                old(f).offset() as int + 20,
            ) == 1),
            r matches Ok(node) ==> node.connections@.len() == u32_at(
                old(f).bytes(),
                old(f).offset() as int + 44,
            ) / 4,
    {
        if f.remaining() < SKL_RECORD_LEN as usize {
            return Err(DecodeError::TruncatedRecord);
        }
        let start = f.position();
        let r = Skl::read_field(f);
        if r.is_err() {
            let back = go_to(f, start);
        }
        r
    }

    /// Decodes a batch of files and adds the record of each to the
    /// collection, under the file's name. If a file fails to decode, the
    /// collection stays as it was.
    pub fn run(&mut self, files: &Vec<SourceFile>) -> (r: Result<(), DecodeError>)
        ensures
            match batch::<SklFile>(files@) {
                Ok(records) => r is Ok && final(self)@ == old(self)@.union_prefer_right(records),
                Err(e) => r == Err::<(), DecodeError>(e) && final(self)@ == old(self)@,
            },
    {
        let records = decode_all::<SklFile>(files)?;
        self.files.absorb(records);
        Ok(())
    }
}

impl Record for SklFile {
    open spec fn parse(data: Seq<u8>) -> Result<SklFileView, DecodeError> {
        skl_file(data)
    }

    fn decode(data: &[u8]) -> (r: Result<Self, DecodeError>) {
        let mut f = Cursor::new(data);
        let (info_offset, info_len) = Skl::header(&mut f)?;
        go_to(&mut f, info_offset)?;
        let num_fields = info_len / SKL_RECORD_LEN;

        let mut file = SklFile::new();
        let mut i: u32 = 0;
        while i < num_fields
            invariant
                i <= num_fields,
                f.bytes() == data@,
                f.offset() == info_offset + SKL_RECORD_LEN * i,
                skl_nodes(data@, info_offset as int, i as nat) == Ok::<
                    Seq<SklFieldView>,
                    DecodeError,
                >(file@.skills),
                skl_file(data@) == (match skl_nodes(data@, info_offset as int, num_fields as nat) {
                    Err(e) => Err(e),
                    Ok(skills) => Ok(SklFileView { skills }),
                }),
            decreases num_fields - i,
        {
            let ghost before = file.skills@;
            match Skl::field(&mut f) {
                Ok(skl_field) => {
                    file.skills.push(skl_field);
                    proof {
                        assert(node_views(file.skills@) =~= node_views(before).push(skl_field@));
                    }
                },
                Err(e) => {
                    proof {
                        lemma_skl_nodes_fail_fast(data@, info_offset as int, i as nat + 1, num_fields as nat);
                    }
                    return Err(e);
                },
            }
            i = i + 1;
        }
        Ok(file)
    }
}

/// When the first `n` nodes of a block do not decode, no greater number of
/// nodes of the block does, and the error is the same.
pub proof fn lemma_skl_nodes_fail_fast(data: Seq<u8>, base: int, n: nat, count: nat)
    requires
        n <= count,
        skl_nodes(data, base, n) is Err,
    ensures
        skl_nodes(data, base, count) == skl_nodes(data, base, n),
    decreases count - n,
{
    if n < count {
        lemma_skl_nodes_fail_fast(data, base, n, (count - 1) as nat);
    }
}

/// The records of a block decode to one node each, in file order. The node
/// with the index `i` is that of the record that starts `i` strides behind
/// the start of the block, wherever the connections of the nodes before it
/// lie and however many they are; it has one connection for every four
/// whole bytes of the length that its record declares.
pub proof fn lemma_skl_nodes_in_order(data: Seq<u8>, base: int, count: nat)
    requires
        skl_nodes(data, base, count) is Ok,
    ensures
        skl_nodes(data, base, count)->Ok_0.len() == count,
        forall|i: int|
            0 <= i < count ==> skl_node(data, base + SKL_RECORD_LEN * i) == Ok::<
                SklFieldView,
                DecodeError,
            >(#[trigger] skl_nodes(data, base, count)->Ok_0[i]),
        forall|i: int|
            0 <= i < count ==> (#[trigger] skl_nodes(data, base, count)->Ok_0[i]).connections.len()
                == u32_at(data, base + SKL_RECORD_LEN * i + 44) / 4,
        forall|i: int|
            0 <= i < count ==> ((#[trigger] skl_nodes(data, base, count)->Ok_0[i]).is_root
                <==> u32_at(data, base + SKL_RECORD_LEN * i + 20) == 1),
    decreases count,
{
    if count > 0 {
        lemma_skl_nodes_in_order(data, base, (count - 1) as nat);
    }
}

/// A file whose header declares a skill tree block of `64 * n` bytes
/// decodes to exactly `n` nodes, in file order.
pub proof fn lemma_skl_node_count(data: Seq<u8>, n: nat)
    requires
        skl_file(data) is Ok,
        skl_header(data, 0) matches Ok(h) && h.1 == SKL_RECORD_LEN * n,
    ensures
        skl_file(data)->Ok_0.skills.len() == n,
        skl_nodes(data, skl_header(data, 0)->Ok_0.0 as int, n) == Ok::<
            Seq<SklFieldView>,
            DecodeError,
        >(skl_file(data)->Ok_0.skills),
{
    lemma_skl_nodes_in_order(data, skl_header(data, 0)->Ok_0.0 as int, n);
}

} // verus!
