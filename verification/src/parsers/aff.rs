use vstd::prelude::*;
use crate::error::yields;
use crate::error::DecodeError;
use crate::parsers::batch;
use crate::parsers::decode_all;
use crate::parsers::Record;
use crate::parsers::SourceFile;
use crate::pool::pool_position;
use crate::pool::pool_text;
use crate::pool::read_string;
use crate::pool::texts;
use crate::pool::POOL_BASE;
use crate::strmap::StrMap;
use crate::utils::go_to;
use crate::utils::padding;
use crate::utils::read_u32;
use crate::utils::u32_at;
use crate::utils::Cursor;

verus! {

/// The number of bytes of the header of a value-list file.
pub const AFF_HEADER_LEN: usize = 256;

/// The stride of the records: two records, one of each kind, take twice
/// this many bytes.
pub const AFF_RECORD_LEN: u32 = 44;

/// The number of bytes of a record behind its padding: the reference to the
/// value, eight unused bytes, and a second reference that is read and
/// dropped.
pub const AFF_INFO_LEN: usize = 24;

/// The record of one value-list file: the id of the entity that the file
/// describes, and its values in file order.
#[derive(Debug)]
pub struct AffFile {
    pub hash_id: u32,
    pub values: Vec<String>,
}

/// The record of a value-list file as a mathematical value.
pub struct AffFileView {
    pub hash_id: u32,
    pub values: Seq<Seq<char>>,
}

impl View for AffFile {
    type V = AffFileView;

    open spec fn view(&self) -> AffFileView {
        AffFileView { hash_id: self.hash_id, values: texts(self.values@) }
    }
}

impl AffFile {
    /// A record without values.
    pub fn new(hash_id: u32) -> (file: Self)
        ensures
            file@ == (AffFileView { hash_id, values: Seq::empty() }),
    {
        let file = Self { hash_id, values: Vec::new() };
        assert(texts(file.values@) =~= Seq::empty());
        file
    }
}

/// The header that starts at `at`: the absolute position of the block of
/// records, the block's length in bytes, and the id of the entity.
pub open spec fn aff_header(data: Seq<u8>, at: int) -> Result<(u64, u32, u32), DecodeError> {
    if at + AFF_HEADER_LEN > data.len() {
        Err(DecodeError::TruncatedRecord)
    } else {
        Ok(
            (
                pool_position(u32_at(data, at + 144)) as u64,
                u32_at(data, at + 148),
                u32_at(data, at + 12),
            ),
        )
    }
}

/// The number of bytes that precede the value reference in the record with
/// the index `i`: 24 in a record with an even index, 16 in one with an odd
/// index.
pub open spec fn aff_padding(i: nat) -> int {
    if i % 2 == 0 {
        24
    } else {
        16
    }
}

/// The position at which the record with the index `i` starts, in a block
/// that starts at `base`.
pub open spec fn aff_record_start(base: int, i: nat) -> int
    decreases i,
{
    if i == 0 {
        base
    } else {
        aff_record_start(base, (i - 1) as nat) + aff_padding((i - 1) as nat) + AFF_INFO_LEN
    }
}

/// The value of the record whose part behind the padding starts at `at`.
pub open spec fn aff_info(data: Seq<u8>, at: int) -> Result<Seq<char>, DecodeError> {
    if at + AFF_INFO_LEN > data.len() {
        Err(DecodeError::TruncatedRecord)
    } else {
        pool_text(data, u32_at(data, at), u32_at(data, at + 4))
    }
}

/// The value of the record with the index `i`, which starts at `at`.
pub open spec fn aff_value(data: Seq<u8>, at: int, i: nat) -> Result<Seq<char>, DecodeError> {
    aff_info(data, at + aff_padding(i))
}

/// The values of the first `count` records of the block that starts at
/// `base`, in file order, or the error of the first record that does not
/// decode.
pub open spec fn aff_values(data: Seq<u8>, base: int, count: nat) -> Result<Seq<Seq<char>>, DecodeError>
    decreases count,
{
    if count == 0 {
        Ok(Seq::empty())
    } else {
        match aff_values(data, base, (count - 1) as nat) {
            Err(e) => Err(e),
            Ok(values) => match aff_value(
                data,
                aff_record_start(base, (count - 1) as nat),
                (count - 1) as nat,
            ) {
                Err(e) => Err(e),
                Ok(value) => Ok(values.push(value)),
            },
        }
    }
}

/// The record that the bytes of a value-list file stand for: the header,
/// then as many values as whole strides fit into the declared length of the
/// block of records.
pub open spec fn aff_file(data: Seq<u8>) -> Result<AffFileView, DecodeError> {
    match aff_header(data, 0) {
        Err(e) => Err(e),
        Ok((info_offset, info_len, hash_id)) => if info_offset > data.len() {
            Err(DecodeError::TruncatedRecord)
        } else {
            match aff_values(data, info_offset as int, (info_len / AFF_RECORD_LEN) as nat) {
                Err(e) => Err(e),
                Ok(values) => Ok(AffFileView { hash_id, values }),
            }
        },
    }
}

/// The value lists of a set of files, by file name.
#[derive(Debug)]
pub struct Aff {
    pub files: StrMap<AffFile>,
}

impl View for Aff {
    type V = Map<Seq<char>, AffFileView>;

    open spec fn view(&self) -> Map<Seq<char>, AffFileView> {
        self.files@
    }
}

impl Aff {
    /// A collection without files.
    pub fn new() -> (aff: Self)
        ensures
            aff@ == Map::<Seq<char>, AffFileView>::empty(),
    {
        Self { files: StrMap::new() }
    }

    /// Gives `file_name` an empty record with the id `hash_id`, in place of
    /// any record that it had.
    pub fn new_file(&mut self, file_name: &str, hash_id: u32)
        ensures
            final(self)@ == old(self)@.insert(
                file_name@,
                AffFileView { hash_id, values: Seq::empty() },
            ),
    {
        self.files.insert(file_name.to_owned(), AffFile::new(hash_id));
    }

    /// Appends `value` to the record of `file_name`. A file without a
    /// record gets none.
    pub fn add_field(&mut self, file_name: &str, value: String)
        ensures
            final(self)@ == (if old(self)@.contains_key(file_name@) {
                old(self)@.insert(
                    file_name@,
                    AffFileView {
                        hash_id: old(self)@[file_name@].hash_id,
                        values: old(self)@[file_name@].values.push(value@),
                    },
                )
            } else {
                old(self)@
            }),
    {
        match self.files.remove(file_name) {
            Some(file) => {
                let mut file = file;
                let ghost before = file.values@;
                file.values.push(value);
                assert(texts(file.values@) =~= texts(before).push(value@));
                self.files.insert(file_name.to_owned(), file);
                assert(self@ =~= old(self)@.insert(file_name@, file@));
            },
            None => {
                assert(self@ =~= old(self)@);
            },
        }
    }

    /// Reads the header under the cursor and returns the absolute position
    /// of the block of records, the block's length, and the id of the
    /// entity. On failure the cursor stays where it was; on success it
    /// stands behind the header.
    pub fn header(f: &mut Cursor) -> (r: Result<(u64, u32, u32), DecodeError>)
        ensures
            final(f).bytes() == old(f).bytes(),
            match aff_header(old(f).bytes(), old(f).offset() as int) {
                Ok(h) => r == Ok::<(u64, u32, u32), DecodeError>(h) && final(f).offset() == old(
                    f,
                ).offset() + AFF_HEADER_LEN,
                Err(e) => r == Err::<(u64, u32, u32), DecodeError>(e) && final(f).offset() == old(
                    f,
                ).offset(),
            },
    {
        if f.remaining() < AFF_HEADER_LEN {
            return Err(DecodeError::TruncatedRecord);
        }
        let _deadbeef = read_u32(f)?;
        let _file_type = read_u32(f)?;
        padding(f, 4)?;

        let hash_id = read_u32(f)?;
        padding(f, 128)?;

        let info_offset = read_u32(f)? as u64 + POOL_BASE;
        let info_len = read_u32(f)?;
        padding(f, 104)?;

        Ok((info_offset, info_len, hash_id))
    }

    fn read_info(f: &mut Cursor) -> (r: Result<String, DecodeError>)
        requires
            old(f).offset() + AFF_INFO_LEN <= old(f).bytes().len(),
        ensures
            final(f).bytes() == old(f).bytes(),
            yields(r, aff_info(old(f).bytes(), old(f).offset() as int)),
            r is Ok ==> final(f).offset() == old(f).offset() + AFF_INFO_LEN,
            final(f).offset() <= final(f).bytes().len(),
    {
        let key_offset = read_u32(f)?;
        let key_len = read_u32(f)?;
        let key_string = read_string(f, key_offset, key_len)?;

        padding(f, 8)?;

        let _something_offset = read_u32(f)?;
        let _something_len = read_u32(f)?;

        Ok(key_string)
    }

    /// Reads the part of a record that follows its padding and returns the
    /// record's value. On failure the cursor stays where it was; on success
    /// it stands behind the record.
    pub fn info(f: &mut Cursor) -> (r: Result<String, DecodeError>)
        ensures
            final(f).bytes() == old(f).bytes(),
            yields(r, aff_info(old(f).bytes(), old(f).offset() as int)),
            r is Ok ==> final(f).offset() == old(f).offset() + AFF_INFO_LEN,
            r is Err ==> final(f).offset() == old(f).offset(),
    {
        if f.remaining() < AFF_INFO_LEN {
            return Err(DecodeError::TruncatedRecord);
        }
        let start = f.position();
        let r = Aff::read_info(f);
        if r.is_err() {
            let back = go_to(f, start);
        }
        r
    }

    /// Decodes a batch of files and adds the record of each to the
    /// collection, under the file's name. If a file fails to decode, the
    /// collection stays as it was.
    pub fn run(&mut self, files: &Vec<SourceFile>) -> (r: Result<(), DecodeError>)
        ensures
            match batch::<AffFile>(files@) {
                Ok(records) => r is Ok && final(self)@ == old(self)@.union_prefer_right(records),
                Err(e) => r == Err::<(), DecodeError>(e) && final(self)@ == old(self)@,
            },
    {
        let records = decode_all::<AffFile>(files)?;
        self.files.absorb(records);
        Ok(())
    }
}

/// Reads `count` records from the cursor, the first of them with the index
/// zero, and returns their values in file order. On failure the cursor
/// stays where it was; on success it stands behind the last of the records.
pub fn read_values(f: &mut Cursor, count: u32) -> (r: Result<Vec<String>, DecodeError>)
    ensures
        final(f).bytes() == old(f).bytes(),
        match aff_values(old(f).bytes(), old(f).offset() as int, count as nat) {
            Ok(values) => r matches Ok(found) && texts(found@) == values && final(f).offset()
                == aff_record_start(old(f).offset() as int, count as nat),
            Err(e) => r matches Err(found) && found == e && final(f).offset() == old(f).offset(),
        },
{
    let start = f.position();
    let mut values: Vec<String> = Vec::new();
    let mut i: u32 = 0;
    assert(texts(values@) =~= Seq::empty());
    while i < count
        invariant
            i <= count,
            f.bytes() == old(f).bytes(),
            start == old(f).offset(),
            start <= f.bytes().len(),
            f.offset() == aff_record_start(start as int, i as nat),
            aff_values(f.bytes(), start as int, i as nat) == Ok::<Seq<Seq<char>>, DecodeError>(
                texts(values@),
            ),
        decreases count - i,
    {
        let ghost before = values@;
        let skipped = match i % 2 {
            0 => padding(f, 24),
            _ => padding(f, 16),
        };
        let read = match skipped {
            Ok(()) => Aff::info(f),
            Err(e) => Err(e),
        };
        match read {
            Ok(value) => {
                values.push(value);
                proof {
                    assert(texts(values@) =~= texts(before).push(value@));
                }
            },
            Err(e) => {
                proof {
                    lemma_aff_values_fail_fast(f.bytes(), start as int, i as nat + 1, count as nat);
                }
                let back = go_to(f, start);
                return Err(e);
            },
        }
        i = i + 1;
    }
    Ok(values)
}

impl Record for AffFile {
    open spec fn parse(data: Seq<u8>) -> Result<AffFileView, DecodeError> {
        aff_file(data)
    }

    fn decode(data: &[u8]) -> (r: Result<Self, DecodeError>) {
        let mut f = Cursor::new(data);
        let (info_offset, info_len, hash_id) = Aff::header(&mut f)?;
        go_to(&mut f, info_offset)?;
        let num_pairs = info_len / AFF_RECORD_LEN;
        let values = read_values(&mut f, num_pairs)?;
        Ok(AffFile { hash_id, values })
    }
}

/// When the first `n` records of a block do not decode, no greater number
/// of records of the block does, and the error is the same.
pub proof fn lemma_aff_values_fail_fast(data: Seq<u8>, base: int, n: nat, count: nat)
    requires
        n <= count,
        aff_values(data, base, n) is Err,
    ensures
        aff_values(data, base, count) == aff_values(data, base, n),
    decreases count - n,
{
    if n < count {
        lemma_aff_values_fail_fast(data, base, n, (count - 1) as nat);
    }
}

/// Two records, one of each kind, take two strides: the record with the
/// index `i` starts `44 * i` bytes behind the start of the block if `i` is
/// even, and four bytes further if `i` is odd.
pub proof fn lemma_aff_record_start(base: int, i: nat)
    ensures
        aff_record_start(base, i) == base + AFF_RECORD_LEN * i + (if i % 2 == 0 {
            0int
        } else {
            4int
        }),
    decreases i,
{
    if i > 0 {
        lemma_aff_record_start(base, (i - 1) as nat);
    }
}

/// The records of a block decode to one value each, in file order: the
/// value with the index `i` is that of the record with the index `i`, whose
/// value reference follows 24 bytes of padding if `i` is even and 16 if `i`
/// is odd.
pub proof fn lemma_aff_values_in_order(data: Seq<u8>, base: int, count: nat)
    requires
        aff_values(data, base, count) is Ok,
    ensures
        aff_values(data, base, count)->Ok_0.len() == count,
        forall|i: int|
            0 <= i < count ==> aff_info(
                data,
                aff_record_start(base, i as nat) + (if i % 2 == 0 {
                    24int
                } else {
                    16int
                }),
            ) == Ok::<Seq<char>, DecodeError>(#[trigger] aff_values(data, base, count)->Ok_0[i]),
    decreases count,
{
    if count > 0 {
        lemma_aff_values_in_order(data, base, (count - 1) as nat);
    }
}

/// A file whose header declares a block of `44 * n` bytes decodes to
/// exactly `n` values, in file order.
pub proof fn lemma_aff_value_count(data: Seq<u8>, n: nat)
    requires
        aff_file(data) is Ok,
        aff_header(data, 0) matches Ok(h) && h.1 == AFF_RECORD_LEN * n,
    ensures
        aff_file(data)->Ok_0.values.len() == n,
        aff_values(data, aff_header(data, 0)->Ok_0.0 as int, n) == Ok::<
            Seq<Seq<char>>,
            DecodeError,
        >(aff_file(data)->Ok_0.values),
{
    lemma_aff_values_in_order(data, aff_header(data, 0)->Ok_0.0 as int, n);
}

} // verus!
