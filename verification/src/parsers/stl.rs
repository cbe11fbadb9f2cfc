use vstd::prelude::*;
use crate::error::yields;
use crate::error::DecodeError;
use crate::parsers::batch;
use crate::parsers::decode_all;
use crate::parsers::Record;
use crate::parsers::SourceFile;
use crate::pool::pool_text;
use crate::pool::read_string;
use crate::strmap::StrMap;
use crate::utils::go_to;
use crate::utils::padding;
use crate::utils::read_u32;
use crate::utils::u32_at;
use crate::utils::Cursor;

verus! {

/// The number of bytes of the header of a string-table file.
pub const STL_HEADER_LEN: usize = 48;

/// The number of bytes of one key and value record.
pub const STL_RECORD_LEN: u32 = 40;

/// The record of one string-table file: the id of the entity that the file
/// describes, and its strings by key.
#[derive(Debug)]
pub struct StlFile {
    pub hash_id: u32,
    pub fields: StrMap<String>,
}

/// The record of a string-table file as a mathematical value.
pub struct StlFileView {
    pub hash_id: u32,
    pub fields: Map<Seq<char>, Seq<char>>,
}

impl View for StlFile {
    type V = StlFileView;

    open spec fn view(&self) -> StlFileView {
        StlFileView { hash_id: self.hash_id, fields: self.fields@ }
    }
}

impl StlFile {
    /// A record without strings.
    pub fn new(hash_id: u32) -> (file: Self)
        ensures
            file@ == (StlFileView { hash_id, fields: Map::empty() }),
    {
        Self { hash_id, fields: StrMap::new() }
    }
}

/// The header that starts at `at`: the length in bytes of the block of
/// records, and the id of the entity.
pub open spec fn stl_header(data: Seq<u8>, at: int) -> Result<(u32, u32), DecodeError> {
    if at + STL_HEADER_LEN > data.len() {
        Err(DecodeError::TruncatedRecord)
    } else {
        Ok((u32_at(data, at + 36), u32_at(data, at + 12)))
    }
}

/// The key and the value of the record that starts at `at`.
pub open spec fn stl_pair(data: Seq<u8>, at: int) -> Result<(Seq<char>, Seq<char>), DecodeError> {
    if at + STL_RECORD_LEN > data.len() {
        Err(DecodeError::TruncatedRecord)
    } else {
        match pool_text(data, u32_at(data, at + 8), u32_at(data, at + 12)) {
            Err(e) => Err(e),
            Ok(key) => match pool_text(data, u32_at(data, at + 24), u32_at(data, at + 28)) {
                Err(e) => Err(e),
                Ok(value) => Ok((key, value)),
            },
        }
    }
}

/// The keys and values of the first `count` records of the block that
/// starts at `base`, in file order, or the error of the first record that
/// does not decode.
pub open spec fn stl_pairs(data: Seq<u8>, base: int, count: nat) -> Result<
    Seq<(Seq<char>, Seq<char>)>,
    DecodeError,
>
    decreases count,
{
    if count == 0 {
        Ok(Seq::empty())
    } else {
        match stl_pairs(data, base, (count - 1) as nat) {
            Err(e) => Err(e),
            Ok(pairs) => match stl_pair(data, base + STL_RECORD_LEN * (count - 1)) {
                Err(e) => Err(e),
                Ok(pair) => Ok(pairs.push(pair)),
            },
        }
    }
}

/// The map that results from inserting the pairs one after the other: of
/// two pairs with the same key, the later one stays.
pub open spec fn fields_of(pairs: Seq<(Seq<char>, Seq<char>)>) -> Map<Seq<char>, Seq<char>>
    decreases pairs.len(),
{
    if pairs.len() == 0 {
        Map::empty()
    } else {
        fields_of(pairs.drop_last()).insert(pairs.last().0, pairs.last().1)
    }
}

/// The record that the bytes of a string-table file stand for: the header,
/// then as many pairs as whole records fit into the declared length of the
/// block of records.
pub open spec fn stl_file(data: Seq<u8>) -> Result<StlFileView, DecodeError> {
    match stl_header(data, 0) {
        Err(e) => Err(e),
        Ok((info_len, hash_id)) => match stl_pairs(
            data,
            STL_HEADER_LEN as int,
            (info_len / STL_RECORD_LEN) as nat,
        ) {
            Err(e) => Err(e),
            Ok(pairs) => Ok(StlFileView { hash_id, fields: fields_of(pairs) }),
        },
    }
}

/// The string tables of a set of files, by file name.
#[derive(Debug)]
pub struct Stl {
    pub files: StrMap<StlFile>,
}

impl View for Stl {
    type V = Map<Seq<char>, StlFileView>;

    open spec fn view(&self) -> Map<Seq<char>, StlFileView> {
        self.files@
    }
}

impl Stl {
    /// A collection without files.
    pub fn new() -> (stl: Self)
        ensures
            stl@ == Map::<Seq<char>, StlFileView>::empty(),
    {
        Self { files: StrMap::new() }
    }

    /// Gives `file_name` an empty record with the id `hash_id`, in place of
    /// any record that it had.
    pub fn new_file(&mut self, file_name: &str, hash_id: u32)
        ensures
            final(self)@ == old(self)@.insert(
                file_name@,
                StlFileView { hash_id, fields: Map::empty() },
            ),
    {
        self.files.insert(file_name.to_owned(), StlFile::new(hash_id));
    }

    /// Stores `value` under `key` in the record of `file_name`, in place of
    /// any value that the key had there. A file without a record gets none.
    pub fn add_field(&mut self, file_name: &String, key: String, value: String)
        ensures
            final(self)@ == (if old(self)@.contains_key(file_name@) {
                old(self)@.insert(
                    file_name@,
                    StlFileView {
                        hash_id: old(self)@[file_name@].hash_id,
                        fields: old(self)@[file_name@].fields.insert(key@, value@),
                    },
                )
            } else {
                old(self)@
            }),
    {
        match self.files.remove(file_name.as_str()) {
            Some(file) => {
                let mut file = file;
                file.fields.insert(key, value);
                self.files.insert(file_name.clone(), file);
                assert(self@ =~= old(self)@.insert(file_name@, file@));
            },
            None => {
                assert(self@ =~= old(self)@);
            },
        }
    }

    /// Reads the header under the cursor and returns the length of the
    /// block of records and the id of the entity. On failure the cursor
    /// stays where it was; on success it stands behind the header.
    pub fn header(f: &mut Cursor) -> (r: Result<(u32, u32), DecodeError>)
        ensures
            final(f).bytes() == old(f).bytes(),
            match stl_header(old(f).bytes(), old(f).offset() as int) {
                Ok(h) => r == Ok::<(u32, u32), DecodeError>(h) && final(f).offset() == old(f).offset()
                    + STL_HEADER_LEN,
                Err(e) => r == Err::<(u32, u32), DecodeError>(e) && final(f).offset() == old(
                    f,
                ).offset(),
            },
    {
        if f.remaining() < STL_HEADER_LEN {
            return Err(DecodeError::TruncatedRecord);
        }
        let _deadbeef = read_u32(f)?;
        padding(f, 8)?;

        let hash_id = read_u32(f)?;
        padding(f, 20)?;

        let info_len = read_u32(f)?;
        padding(f, 8)?;

        Ok((info_len, hash_id))
    }

    fn read_info(f: &mut Cursor) -> (r: Result<(String, String), DecodeError>)
        requires
            old(f).offset() + STL_RECORD_LEN <= old(f).bytes().len(),
        ensures
            final(f).bytes() == old(f).bytes(),
            yields(r, stl_pair(old(f).bytes(), old(f).offset() as int)),
            r is Ok ==> final(f).offset() == old(f).offset() + STL_RECORD_LEN,
            final(f).offset() <= final(f).bytes().len(),
    {
        padding(f, 8)?;
        let key_offset = read_u32(f)?;
        let key_len = read_u32(f)?;
        let key_string = read_string(f, key_offset, key_len)?;
        padding(f, 8)?;

        let val_offset = read_u32(f)?;
        let val_len = read_u32(f)?;
        let val_string = read_string(f, val_offset, val_len)?;
        padding(f, 8)?;

        Ok((key_string, val_string))
    }

    /// Reads the record under the cursor and returns its key and its value.
    /// On failure the cursor stays where it was; on success it stands
    /// behind the record.
    pub fn info(f: &mut Cursor) -> (r: Result<(String, String), DecodeError>)
        ensures
            final(f).bytes() == old(f).bytes(),
            yields(r, stl_pair(old(f).bytes(), old(f).offset() as int)),
            r is Ok ==> final(f).offset() == old(f).offset() + STL_RECORD_LEN,
            r is Err ==> final(f).offset() == old(f).offset(),
    {
        if f.remaining() < STL_RECORD_LEN as usize {
            return Err(DecodeError::TruncatedRecord);
        }
        let start = f.position();
        let r = Stl::read_info(f);
        if r.is_err() {
            let back = go_to(f, start);
        }
        r
    }

    /// Decodes a batch of files and adds the record of each to the
    /// collection, under the file's name. If a file fails to decode, the
    /// collection stays as it was.
    pub fn run(&mut self, files: &Vec<SourceFile>) -> (r: Result<(), DecodeError>)
        ensures
            match batch::<StlFile>(files@) {
                Ok(records) => r is Ok && final(self)@ == old(self)@.union_prefer_right(records),
                Err(e) => r == Err::<(), DecodeError>(e) && final(self)@ == old(self)@,
            },
    {
        let records = decode_all::<StlFile>(files)?;
        self.files.absorb(records);
        Ok(())
    }
}

/// Reads `count` records from the cursor and returns the map that holds
/// the pair of each, inserted in file order. On failure the cursor stays
/// where it was; on success it stands behind the last of the records.
pub fn read_fields(f: &mut Cursor, count: u32) -> (r: Result<StrMap<String>, DecodeError>)
    ensures
        final(f).bytes() == old(f).bytes(),
        match stl_pairs(old(f).bytes(), old(f).offset() as int, count as nat) {
            Ok(pairs) => r matches Ok(fields) && fields@ == fields_of(pairs) && final(f).offset()
                == old(f).offset() + STL_RECORD_LEN * count,
            Err(e) => r matches Err(found) && found == e && final(f).offset() == old(f).offset(),
        },
{
    let start = f.position();
    let mut fields: StrMap<String> = StrMap::new();
    let ghost pairs: Seq<(Seq<char>, Seq<char>)> = Seq::empty();
    let mut i: u32 = 0;
    while i < count
        invariant
            i <= count,
            f.bytes() == old(f).bytes(),
            start == old(f).offset(),
            start <= f.bytes().len(),
            f.offset() == start + STL_RECORD_LEN * i,
            stl_pairs(f.bytes(), start as int, i as nat) == Ok::<
                Seq<(Seq<char>, Seq<char>)>,
                DecodeError,
            >(pairs),
            fields@ == fields_of(pairs),
        decreases count - i,
    {
        match Stl::info(f) {
            Ok((key, value)) => {
                proof {
                    let longer = pairs.push((key@, value@));
                    assert(longer.drop_last() =~= pairs);
                    pairs = longer;
                }
                fields.insert(key, value);
            },
            Err(e) => {
                proof {
                    lemma_stl_pairs_fail_fast(f.bytes(), start as int, i as nat + 1, count as nat);
                }
                let back = go_to(f, start);
                return Err(e);
            },
        }
        i = i + 1;
    }
    Ok(fields)
}

impl Record for StlFile {
    open spec fn parse(data: Seq<u8>) -> Result<StlFileView, DecodeError> {
        stl_file(data)
    }

    fn decode(data: &[u8]) -> (r: Result<Self, DecodeError>) {
        let mut f = Cursor::new(data);
        let (info_len, hash_id) = Stl::header(&mut f)?;
        let num_pairs = info_len / STL_RECORD_LEN;
        let fields = read_fields(&mut f, num_pairs)?;
        Ok(StlFile { hash_id, fields })
    }
}

/// When the first `n` records of a block do not decode, no greater number
/// of records of the block does, and the error is the same.
pub proof fn lemma_stl_pairs_fail_fast(data: Seq<u8>, base: int, n: nat, count: nat)
    requires
        n <= count,
        stl_pairs(data, base, n) is Err,
    ensures
        stl_pairs(data, base, count) == stl_pairs(data, base, n),
    decreases count - n,
{
    if n < count {
        lemma_stl_pairs_fail_fast(data, base, n, (count - 1) as nat);
    }
}

/// The records of a block decode to one pair each, in file order: the pair
/// with the index `i` is that of the record that starts `i` strides behind
/// the start of the block.
pub proof fn lemma_stl_pairs_in_order(data: Seq<u8>, base: int, count: nat)
    requires
        stl_pairs(data, base, count) is Ok,
    ensures
        stl_pairs(data, base, count)->Ok_0.len() == count,
        forall|i: int|
            0 <= i < count ==> stl_pair(data, base + STL_RECORD_LEN * i) == Ok::<
                (Seq<char>, Seq<char>),
                DecodeError,
            >(#[trigger] stl_pairs(data, base, count)->Ok_0[i]),
    decreases count,
{
    if count > 0 {
        lemma_stl_pairs_in_order(data, base, (count - 1) as nat);
    }
}

/// Insertion in order lets the last pair of a key win: the map holds the
/// keys of the pairs and no others, and under each key the value of the
/// last pair that has the key.
pub proof fn lemma_fields_of_last_wins(pairs: Seq<(Seq<char>, Seq<char>)>)
    ensures
        forall|k: Seq<char>|
            fields_of(pairs).contains_key(k) <==> exists|i: int|
                0 <= i < pairs.len() && (#[trigger] pairs[i]).0 == k,
        forall|i: int|
            0 <= i < pairs.len() && (forall|j: int| i < j < pairs.len() ==> (#[trigger] pairs[j]).0
                != pairs[i].0) ==> fields_of(pairs)[(#[trigger] pairs[i]).0] == pairs[i].1,
    decreases pairs.len(),
{
    if pairs.len() > 0 {
        let front = pairs.drop_last();
        lemma_fields_of_last_wins(front);
        assert forall|k: Seq<char>|
            fields_of(pairs).contains_key(k) <==> exists|i: int|
                0 <= i < pairs.len() && (#[trigger] pairs[i]).0 == k by {
            if fields_of(pairs).contains_key(k) {
                if k == pairs.last().0 {
                    assert(pairs[pairs.len() - 1].0 == k);
                } else {
                    assert(fields_of(front).contains_key(k));
                    let i = choose|i: int| 0 <= i < front.len() && (#[trigger] front[i]).0 == k;
                    assert(pairs[i] == front[i]);
                }
            }
            if exists|i: int| 0 <= i < pairs.len() && (#[trigger] pairs[i]).0 == k {
                let i = choose|i: int| 0 <= i < pairs.len() && (#[trigger] pairs[i]).0 == k;
                if i < pairs.len() - 1 {
                    assert(front[i] == pairs[i]);
                    assert(fields_of(front).contains_key(k));
                }
            }
        }
        assert forall|i: int|
            0 <= i < pairs.len() && (forall|j: int|
                i < j < pairs.len() ==> (#[trigger] pairs[j]).0 != pairs[i].0) implies fields_of(
            pairs,
        )[(#[trigger] pairs[i]).0] == pairs[i].1 by {
            if i < pairs.len() - 1 {
                assert(front[i] == pairs[i]);
                assert(pairs[pairs.len() - 1].0 != pairs[i].0);
                assert forall|j: int| i < j < front.len() implies (#[trigger] front[j]).0
                    != front[i].0 by {
                    assert(front[j] == pairs[j]);
                }
            }
        }
    }
}

/// A file whose header declares a block of `40 * n` bytes decodes by
/// exactly `n` insertions: the pairs of its `n` records, in file order, a
/// later pair taking the place of an earlier one with the same key.
pub proof fn lemma_stl_insertion_count(data: Seq<u8>, n: nat)
    requires
        stl_file(data) is Ok,
        stl_header(data, 0) matches Ok(h) && h.0 == STL_RECORD_LEN * n,
    ensures
        stl_pairs(data, STL_HEADER_LEN as int, n) matches Ok(pairs) && pairs.len() == n
            && stl_file(data)->Ok_0.fields == fields_of(pairs),
{
    lemma_stl_pairs_in_order(data, STL_HEADER_LEN as int, n);
}

} // verus!
