//! How caches, trees and states of workflows are kept in a database.

use crate::compression::{compress, decompress, decompressed};
use crate::text::{begins_with, cat2, cat4, owned, starts_with};
use vstd::prelude::*;

verus! {

/// The address of a database: one that is no `sqlite:` address is made one.
pub open spec fn sqlite_address(url: Seq<char>) -> Seq<char> {
    if begins_with(url, "sqlite:"@) {
        url
    } else {
        "sqlite:"@ + url
    }
}

/// The address under which a database is opened.
pub fn database_url(url: &str) -> (r: String)
    ensures
        r@ == sqlite_address(url@),
{
    if starts_with(url, "sqlite:") {
        owned(url)
    } else {
        cat2("sqlite:", url)
    }
}

/// What a database keeps in compressed form.
#[derive(Debug, Clone, Copy, PartialEq, Eq, Structural)]
pub enum Stored {
    ExecutionTree,
    Snapshot,
    ExecutionState,
}

impl Stored {
    /// What it is called.
    pub open spec fn title(self) -> Seq<char> {
        match self {
            Stored::ExecutionTree => "execution tree"@,
            Stored::Snapshot => "snapshot"@,
            Stored::ExecutionState => "execution state"@,
        }
    }

    fn name(self) -> (r: &'static str)
        ensures
            r@ == self.title(),
    {
        match self {
            Stored::ExecutionTree => "execution tree",
            Stored::Snapshot => "snapshot",
            Stored::ExecutionState => "execution state",
        }
    }
}

/// The bytes to keep.
pub fn pack(what: Stored, bytes: &[u8]) -> (r: Result<Vec<u8>, String>)
    ensures
        r is Ok,
        r matches Ok(v) ==> decompressed(v@) == Some(bytes@),
{
    match compress(bytes) {
        Ok(v) => Ok(v),
        Err(e) => Err(cat4("Failed to compress ", what.name(), ": ", e.as_str())),
    }
}

/// The bytes that were kept, where they can be read.
pub fn unpack(stored: &[u8]) -> (r: Result<Vec<u8>, String>)
    ensures
        r is Ok <==> decompressed(stored@) is Some,
        r matches Ok(v) ==> decompressed(stored@) == Some(v@),
{
    decompress(stored)
}

/// What was packed can be unpacked, and what comes out is what went in.
pub proof fn packed_bytes_are_unpacked(
    what: Stored,
    bytes: &[u8],
    packed: Result<Vec<u8>, String>,
    stored: &[u8],
    read: Result<Vec<u8>, String>,
)
    requires
        call_ensures(pack, (what, bytes), packed),
        packed matches Ok(v) ==> stored@ == v@,
        call_ensures(unpack, (stored,), read),
    ensures
        packed is Ok,
        read is Ok,
        read matches Ok(v) ==> v@ == bytes@,
{
}

/// An address that is one of the database stays as it is, and any other becomes one.
pub proof fn address_is_of_the_database(url: &str, r: String, rest: Seq<char>)
    requires
        call_ensures(database_url, (url,), r),
    ensures
        url@ == "sqlite:"@ + rest ==> r@ == url@,
        !(exists|x: Seq<char>| url@ == #[trigger] ("sqlite:"@ + x)) ==> r@ == "sqlite:"@ + url@,
{
    let p = "sqlite:"@;
    if url@ == p + rest {
        assert(url@.take(p.len() as int) =~= p);
    }
    if begins_with(url@, p) {
        assert(url@ =~= p + url@.skip(p.len() as int));
    }
}

} // verus!
