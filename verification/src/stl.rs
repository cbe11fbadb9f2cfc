//! String tables without entity ids: the records keep the strings of a
//! file only, the header is read with a different split of its unused
//! bytes, and a run returns a collection of its own.

use vstd::prelude::*;
use crate::error::yields;
use crate::error::DecodeError;
use crate::parsers::batch;
use crate::parsers::decode_all;
use crate::parsers::stl::fields_of;
use crate::parsers::stl::read_fields;
use crate::parsers::stl::stl_pairs;
use crate::parsers::Record;
use crate::parsers::SourceFile;
use crate::strmap::StrMap;
use crate::utils::padding;
use crate::utils::read_u32;
use crate::utils::u32_at;
use crate::utils::Cursor;

verus! {

/// The number of bytes of the header of a string-table file.
pub const HEADER_LEN: usize = 48;

/// The number of bytes of one key and value record.
pub const RECORD_LEN: u32 = 40;

/// The record of one string-table file: its strings by key.
#[derive(Debug)]
pub struct StlFile {
    pub fields: StrMap<String>,
}

impl View for StlFile {
    type V = Map<Seq<char>, Seq<char>>;

    open spec fn view(&self) -> Map<Seq<char>, Seq<char>> {
        self.fields@
    }
}

impl StlFile {
    /// A record without strings.
    pub fn new() -> (file: Self)
        ensures
            file@ == Map::<Seq<char>, Seq<char>>::empty(),
    {
        Self { fields: StrMap::new() }
    }
}

/// The header that starts at `at`: the length in bytes of the block of
/// records.
pub open spec fn header_info_len(data: Seq<u8>, at: int) -> Result<u32, DecodeError> {
    if at + HEADER_LEN > data.len() {
        Err(DecodeError::TruncatedRecord)
    } else {
        Ok(u32_at(data, at + 36))
    }
}

/// The strings that the bytes of a string-table file stand for: the header,
/// then as many pairs as whole records fit into the declared length of the
/// block of records, a later pair taking the place of an earlier one with
/// the same key.
pub open spec fn file_fields(data: Seq<u8>) -> Result<Map<Seq<char>, Seq<char>>, DecodeError> {
    match header_info_len(data, 0) {
        Err(e) => Err(e),
        Ok(info_len) => match stl_pairs(data, HEADER_LEN as int, (info_len / RECORD_LEN) as nat) {
            Err(e) => Err(e),
            Ok(pairs) => Ok(fields_of(pairs)),
        },
    }
}

/// The string tables of a set of files, by file name.
#[derive(Debug)]
pub struct Stl {
    pub files: StrMap<StlFile>,
}

impl View for Stl {
    type V = Map<Seq<char>, Map<Seq<char>, Seq<char>>>;

    open spec fn view(&self) -> Map<Seq<char>, Map<Seq<char>, Seq<char>>> {
        self.files@
    }
}

impl Stl {
    /// A collection without files.
    pub fn new() -> (stl: Self)
        ensures
            stl@ == Map::<Seq<char>, Map<Seq<char>, Seq<char>>>::empty(),
    {
        Self { files: StrMap::new() }
    }

    /// Gives `file_name` an empty record, in place of any record that it
    /// had.
    pub fn new_file(&mut self, file_name: &str)
        ensures
            final(self)@ == old(self)@.insert(file_name@, Map::empty()),
    {
        self.files.insert(file_name.to_owned(), StlFile::new());
    }

    /// Stores `value` under `key` in the record of `file_name`, in place of
    /// any value that the key had there. A file without a record gets none.
    pub fn add_field(&mut self, file_name: String, key: String, value: String)
        ensures
            final(self)@ == (if old(self)@.contains_key(file_name@) {
                old(self)@.insert(file_name@, old(self)@[file_name@].insert(key@, value@))
            } else {
                old(self)@
            }),
    {
        match self.files.remove(file_name.as_str()) {
            Some(file) => {
                let mut file = file;
                file.fields.insert(key, value);
                self.files.insert(file_name, file);
                assert(self@ =~= old(self)@.insert(file_name@, file@));
            },
            None => {
                assert(self@ =~= old(self)@);
            },
        }
    }

    /// Reads the header under the cursor and returns the length of the
    /// block of records. On failure the cursor stays where it was; on
    /// success it stands behind the header.
    pub fn header(f: &mut Cursor) -> (r: Result<u32, DecodeError>)
        ensures
            final(f).bytes() == old(f).bytes(),
            match header_info_len(old(f).bytes(), old(f).offset() as int) {
                Ok(info_len) => r == Ok::<u32, DecodeError>(info_len) && final(f).offset() == old(
                    f,
                ).offset() + HEADER_LEN,
                Err(e) => r == Err::<u32, DecodeError>(e) && final(f).offset() == old(f).offset(),
            },
    {
        if f.remaining() < HEADER_LEN {
            return Err(DecodeError::TruncatedRecord);
        }
        let _deadbeef = read_u32(f)?;
        padding(f, 12)?;

        let _hash_id = read_u32(f)?;
        padding(f, 16)?;

        let info_len = read_u32(f)?;
        padding(f, 8)?;

        Ok(info_len)
    }

    /// Reads the record under the cursor and returns its key and its value.
    /// On failure the cursor stays where it was; on success it stands
    /// behind the record.
    pub fn info(f: &mut Cursor) -> (r: Result<(String, String), DecodeError>)
        ensures
            final(f).bytes() == old(f).bytes(),
            yields(r, crate::parsers::stl::stl_pair(old(f).bytes(), old(f).offset() as int)),
            r is Ok ==> final(f).offset() == old(f).offset() + RECORD_LEN,
            r is Err ==> final(f).offset() == old(f).offset(),
    {
        crate::parsers::stl::Stl::info(f)
    }

    /// Decodes a batch of files into a collection that holds the record of
    /// each under the file's name.
    pub fn run(files: &Vec<SourceFile>) -> (r: Result<Stl, DecodeError>)
        ensures
            yields(r, batch::<StlFile>(files@)),
    {
        let files = decode_all::<StlFile>(files)?;
        Ok(Stl { files })
    }
}

impl Record for StlFile {
    open spec fn parse(data: Seq<u8>) -> Result<Map<Seq<char>, Seq<char>>, DecodeError> {
        file_fields(data)
    }

    fn decode(data: &[u8]) -> (r: Result<Self, DecodeError>) {
        let mut f = Cursor::new(data);
        let info_len = Stl::header(&mut f)?;
        let num_pairs = info_len / RECORD_LEN;
        let fields = read_fields(&mut f, num_pairs)?;
        Ok(StlFile { fields })
    }
}

} // verus!
