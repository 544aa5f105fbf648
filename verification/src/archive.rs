//! Trusted interface to the zip reader. An open archive is opaque; what the
//! contracts speak of is the entry table `zip_contents` — each entry's
//! declared name with its decompressed content where the entry can be read
//! at all — and, for a byte buffer, the named results `zip_wf` and
//! `zip_entry_seq`, both functions of the bytes alone.

use vstd::prelude::*;

use std::io::Cursor;

verus! {

#[verifier::external_type_specification]
#[verifier::external_body]
#[verifier::reject_recursive_types(T)]
pub struct ExCursor<T>(Cursor<T>);

#[verifier::external_type_specification]
#[verifier::external_body]
#[verifier::reject_recursive_types(R)]
pub struct ExZipArchive<R>(zip::ZipArchive<R>);

/// Whether the zip reader accepts these bytes as an archive; a fixed
/// property of the bytes alone.
pub uninterp spec fn zip_wf(bytes: Seq<u8>) -> bool;

/// The entry table the zip reader finds in these bytes: the declared name
/// of each entry in index order, with its decompressed content where the
/// entry can be read — an encrypted, unsupported or corrupt entry yields
/// no content. Both are fixed functions of the bytes alone.
pub uninterp spec fn zip_entry_seq(bytes: Seq<u8>) -> Seq<(Seq<char>, Option<Seq<u8>>)>;

/// What an open archive holds: the declared name of each entry in index
/// order, with its decompressed content where the entry can be read.
pub uninterp spec fn zip_contents(a: zip::ZipArchive<Cursor<Vec<u8>>>) -> Seq<
    (Seq<char>, Option<Seq<u8>>),
>;

/// Relies on zip::ZipArchive::new over an in-memory cursor: whether the
/// bytes are accepted, and which entry table results, are functions of the
/// bytes alone (the reader walks the central directory).
#[verifier::external_body]
pub(crate) fn zip_open(bytes: Vec<u8>) -> (r: Option<zip::ZipArchive<Cursor<Vec<u8>>>>)
    ensures
        r is Some <==> zip_wf(bytes@),
        r matches Some(a) ==> zip_contents(a) == zip_entry_seq(bytes@),
{
    match zip::ZipArchive::new(Cursor::new(bytes)) {
        Ok(a) => Some(a),
        Err(_) => None,
    }
}

/// Relies on zip::ZipArchive::len: the number of entries in the table.
#[verifier::external_body]
pub(crate) fn zip_len(a: &zip::ZipArchive<Cursor<Vec<u8>>>) -> (n: usize)
    ensures
        n == zip_contents(*a).len(),
{
    a.len()
}

/// Relies on zip::ZipArchive::by_index and Read::read_to_end: hands out the
/// declared name and decompressed content of one entry and leaves the entry
/// table unchanged. Reading succeeds exactly when the table carries a
/// content for the entry: whether entry data is encrypted, unsupported or
/// corrupt is fixed by the archive bytes.
#[verifier::external_body]
pub(crate) fn zip_entry(a: &mut zip::ZipArchive<Cursor<Vec<u8>>>, i: usize) -> (r: Option<
    (String, Vec<u8>),
>)
    requires
        i < zip_contents(*old(a)).len(),
    ensures
        zip_contents(*final(a)) == zip_contents(*old(a)),
        r is Some <==> zip_contents(*old(a))[i as int].1 is Some,
        r matches Some(e) ==> e.0@ == zip_contents(*old(a))[i as int].0 && Some(e.1@)
            == zip_contents(*old(a))[i as int].1,
{
    match a.by_index(i) {
        Ok(mut f) => {
            let name = f.name().to_string();
            let mut buf = Vec::new();
            match std::io::Read::read_to_end(&mut f, &mut buf) {
                Ok(_) => Some((name, buf)),
                Err(_) => None,
            }
        }
        Err(_) => None,
    }
}

} // verus!
