//! The decoders of the three record families, and what they share: the
//! decoding of a batch of files into a map from file names to records.

pub mod aff;
pub mod skl;
pub mod stl;

use vstd::prelude::*;
use crate::error::yields;
use crate::error::DecodeError;
use crate::strmap::StrMap;

verus! {

/// One file of a batch: its name and its bytes.
#[derive(Debug)]
pub struct SourceFile {
    pub name: String,
    pub data: Vec<u8>,
}

/// A record that the bytes of one file decode to.
pub trait Record: View + Sized {
    /// The record that the bytes `data` of a whole file stand for, or the
    /// reason why they stand for none.
    spec fn parse(data: Seq<u8>) -> Result<Self::V, DecodeError>;

    /// Decodes the bytes of a whole file.
    fn decode(data: &[u8]) -> (r: Result<Self, DecodeError>)
        ensures
            yields(r, Self::parse(data@)),
    ;
}

/// What a batch of files decodes to: the record of each file under the
/// file's name, a later file taking the place of an earlier one of the same
/// name; or the error of the first file that does not decode.
pub open spec fn batch<R: Record>(files: Seq<SourceFile>) -> Result<Map<Seq<char>, R::V>, DecodeError>
    decreases files.len(),
{
    if files.len() == 0 {
        Ok(Map::empty())
    } else {
        match batch::<R>(files.drop_last()) {
            Err(e) => Err(e),
            Ok(records) => match R::parse(files.last().data@) {
                Err(e) => Err(e),
                Ok(record) => Ok(records.insert(files.last().name@, record)),
            },
        }
    }
}

/// A batch whose first files fail to decode fails with the same error,
/// whatever files follow.
pub proof fn lemma_batch_fails_fast<R: Record>(files: Seq<SourceFile>, n: int)
    requires
        0 <= n <= files.len(),
        batch::<R>(files.take(n)) is Err,
    ensures
        batch::<R>(files) == batch::<R>(files.take(n)),
    decreases files.len() - n,
{
    if n == files.len() {
        assert(files.take(n) =~= files);
    } else {
        assert(files.take(n + 1).drop_last() =~= files.take(n));
        lemma_batch_fails_fast::<R>(files, n + 1);
    }
}

/// Decodes every file of a batch, in order, and stops at the first that fails.
pub fn decode_all<R: Record>(files: &Vec<SourceFile>) -> (r: Result<StrMap<R>, DecodeError>)
    ensures
        yields(r, batch::<R>(files@)),
{
    let mut records: StrMap<R> = StrMap::new();
    let mut i: usize = 0;
    while i < files.len()
        invariant
            i <= files.len(),
            batch::<R>(files@.take(i as int)) == Ok::<Map<Seq<char>, R::V>, DecodeError>(records@),
        decreases files.len() - i,
    {
        proof {
            assert(files@.take(i + 1).drop_last() =~= files@.take(i as int));
            assert(files@.take(i + 1).last() == files@[i as int]);
        }
        match R::decode(files[i].data.as_slice()) {
            Ok(record) => {
                records.insert(files[i].name.clone(), record);
            },
            Err(e) => {
                proof {
                    lemma_batch_fails_fast::<R>(files@, i + 1);
                }
                return Err(e);
            },
        }
        i = i + 1;
    }
    proof {
        assert(files@.take(i as int) =~= files@);
    }
    Ok(records)
}

} // verus!
