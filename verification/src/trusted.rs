//! The calls into outside crates. Verus takes each contract here on trust;
//! everything else in the library is proved from them.

use vstd::prelude::*;
use base64::Engine;
use ndarray::ShapeBuilder;
use std::io::Read;
use crate::npy::header_is_modest;

verus! {

/// One entry of an archive, as it was read: its path, the size that the
/// archive declares for it, and its contents where they could be read.
pub struct ArchiveEntry {
    pub path: Vec<u8>,
    pub size: u64,
    pub contents: Option<Vec<u8>>,
}

impl ArchiveEntry {
    /// The entry as plain values.
    pub open spec fn model(self) -> (Seq<u8>, u64, Option<Seq<u8>>) {
        (
            self.path@,
            self.size,
            match self.contents {
                Some(c) => Some(c@),
                None => None,
            },
        )
    }
}

/// A list of items as plain values, in archive order; an item that could
/// not be parsed stays absent.
pub open spec fn entries_model(entries: Seq<Option<ArchiveEntry>>) -> Seq<
    Option<(Seq<u8>, u64, Option<Seq<u8>>)>,
> {
    Seq::new(
        entries.len(),
        |i: int|
            match entries[i] {
                Some(e) => Some(e.model()),
                None => None,
            },
    )
}

/// What `zstd::decode_all` yields for a byte stream: the decompressed bytes,
/// or nothing where the stream is not well-formed zstd.
pub uninterp spec fn zstd_decoded(stream: Seq<u8>) -> Option<Seq<u8>>;

/// What walking the raw entries of an archive (`tar::Archive::entries` with
/// `Entries::raw`) yields, item by item: for an entry the path
/// (`Entry::path_bytes`) and the size (`Entry::size`) that its header
/// declares and its contents (`read_to_end`, absent where the read failed);
/// for an item that the walk hands out as an error, nothing. Members that
/// describe another member are items of their own. The whole is absent
/// where the walk cannot start.
pub uninterp spec fn tar_entries(archive: Seq<u8>) -> Option<
    Seq<Option<(Seq<u8>, u64, Option<Seq<u8>>)>>,
>;

/// What the standard padded base64 engine decodes a text to, or nothing
/// where the text is not valid base64.
pub uninterp spec fn base64_decoded(text: Seq<char>) -> Option<Seq<u8>>;

/// The shape and the Fortran-order flag that `npyz::NpyFile::new` reads from
/// the header of a NumPy file, or nothing where the header is rejected.
pub uninterp spec fn npy_layout(file: Seq<u8>) -> Option<(Seq<u64>, bool)>;

/// Calls `zstd::decode_all` on the whole input. Claimed: the outcome is a
/// function of the input bytes alone, named `zstd_decoded`.
#[verifier::external_body]
pub(crate) fn zstd_decode(stream: &[u8]) -> (r: Option<Vec<u8>>)
    ensures
        match r {
            Some(v) => zstd_decoded(stream@) == Some(v@),
            None => zstd_decoded(stream@) is None,
        },
{
    zstd::decode_all(stream).ok()
}

/// Walks `tar::Archive::entries` over the archive to its end, raw
/// (`Entries::raw`), and hands out every item: an entry with
/// `Entry::path_bytes`, `Entry::size` and what `read_to_end` gave, an error
/// as an absent item. Claimed: the items are a function of the archive
/// bytes alone, named `tar_entries`. The walk is raw because the other one
/// follows sparse-file members with an addition that can overflow.
#[verifier::external_body]
pub(crate) fn tar_read(archive: &[u8]) -> (r: Option<Vec<Option<ArchiveEntry>>>)
    ensures
        match r {
            Some(v) => tar_entries(archive@) == Some(entries_model(v@)),
            None => tar_entries(archive@) is None,
        },
{
    let mut arc = tar::Archive::new(archive);
    let mut out = Vec::new();
    for item in arc.entries().ok()?.raw(true) {
        match item {
            Ok(mut entry) => {
                let mut buf = Vec::new();
                let contents = entry.read_to_end(&mut buf).ok().map(|_| buf);
                out.push(Some(ArchiveEntry { path: entry.path_bytes().into_owned(), size: entry.size(), contents }));
            },
            Err(_) => out.push(None),
        }
    }
    Some(out)
}

/// Calls `decode` of `base64::prelude::BASE64_STANDARD`. Claimed: the outcome
/// is a function of the text alone, named `base64_decoded`.
#[verifier::external_body]
pub(crate) fn base64_decode(text: &str) -> (r: Option<Vec<u8>>)
    ensures
        match r {
            Some(v) => base64_decoded(text@) == Some(v@),
            None => base64_decoded(text@) is None,
        },
{
    base64::prelude::BASE64_STANDARD.decode(text).ok()
}

/// Calls `npyz::NpyFile::new` and hands out the header's `shape` and whether
/// its `order` is Fortran. Claimed: the outcome is a function of the file
/// bytes alone, named `npy_layout`. The reader multiplies the sides of the
/// shape without a check and descends into nested brackets, so it is only
/// called on a modest header: one whose numbers, however they are added
/// and multiplied, stay within 64 bits, and whose nesting is shallow.
#[verifier::external_body]
pub(crate) fn npy_header(file: &[u8]) -> (r: Option<(Vec<u64>, bool)>)
    requires
        header_is_modest(file@),
    ensures
        match r {
            Some((shape, fortran)) => npy_layout(file@) == Some((shape@, fortran)),
            None => npy_layout(file@) is None,
        },
{
    let npy = npyz::NpyFile::new(file).ok()?;
    Some((npy.shape().to_vec(), npy.order() == npyz::Order::Fortran))
}

/// Where element `(i, j)` of a `rows` by `cols` matrix lies in its flat
/// buffer: row by row, or column by column in Fortran order.
pub open spec fn cell_index(rows: int, cols: int, fortran: bool, i: int, j: int) -> int {
    if fortran {
        i + j * rows
    } else {
        i * cols + j
    }
}

/// A flat buffer of `len` elements can be read as a `rows` by `cols` matrix:
/// the lengths multiply to `len`, and the product of the non-zero ones does
/// not exceed `isize::MAX`.
pub open spec fn shape_fits(rows: int, cols: int, len: int) -> bool {
    &&& rows * cols == len
    &&& (if rows == 0 { 1 } else { rows }) * (if cols == 0 { 1 } else { cols }) <= isize::MAX
}

/// Calls `ndarray::Array2::from_shape_vec` with the shape `(rows, cols)` in
/// the given order, and copies the rows out through `outer_iter`. Claimed:
/// it succeeds exactly where the shape fits the buffer, and row `i` then
/// holds, at `j`, the element that the order places at `(i, j)`.
#[verifier::external_body]
pub(crate) fn matrix_rows<T: Copy>(rows: usize, cols: usize, fortran: bool, data: Vec<T>) -> (r: Option<Vec<Vec<T>>>)
    ensures
        r is Some <==> shape_fits(rows as int, cols as int, data@.len() as int),
        r matches Some(m) ==> {
            &&& m@.len() == rows
            &&& forall|i: int| 0 <= i < rows ==> (#[trigger] m@[i])@.len() == cols
            &&& forall|i: int, j: int|
                0 <= i < rows && 0 <= j < cols ==> #[trigger] m@[i]@[j] == data@[cell_index(
                    rows as int,
                    cols as int,
                    fortran,
                    i,
                    j,
                )]
        },
{
    let a = ndarray::Array2::from_shape_vec((rows, cols).set_f(fortran), data).ok()?;
    Some(a.outer_iter().map(|row| row.to_vec()).collect())
}

} // verus!
