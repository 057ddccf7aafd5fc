//! The package reader: both package formats are lowered to their style
//! vectors and the synthesizer bytes.

use vstd::prelude::*;
use vstd::slice::slice_to_vec;
use vstd::string::StringSliceAdditionalSpecFns;
use crate::error::Error;
use crate::npy::{check_header, header_is_modest};
use crate::trusted::{
    base64_decode, base64_decoded, entries_model, npy_header, npy_layout, tar_entries, tar_read,
    zstd_decode, zstd_decoded, ArchiveEntry,
};

verus! {

/// What reading a package comes to, over plain sequences.
pub enum Outcome<A> {
    /// A layer of the package could not be decoded.
    Corrupt,
    /// A required entry is absent; the name is the one reported.
    Missing(Seq<char>),
    /// The style tensor is not two-dimensional.
    Mismatch,
    /// The package holds this pair.
    Found(A, Seq<u8>),
}

/// The archive path of the style vectors.
pub open spec fn style_path() -> Seq<u8> {
    "style_vectors.json".spec_bytes()
}

/// The archive path of the synthesizer.
pub open spec fn model_path() -> Seq<u8> {
    "model.onnx".spec_bytes()
}

/// The item is an entry that was parsed and read in full: its contents are
/// there and as long as the archive declares.
pub open spec fn entry_read(item: Option<(Seq<u8>, u64, Option<Seq<u8>>)>) -> bool {
    item matches Some(e) && e.2 matches Some(c) && c.len() == e.1
}

/// Every item of the archive is an entry that was read in full.
pub open spec fn all_read(items: Seq<Option<(Seq<u8>, u64, Option<Seq<u8>>)>>) -> bool {
    forall|i: int| 0 <= i < items.len() ==> entry_read(#[trigger] items[i])
}

/// The contents of the last entry stored under `path`, if there is one.
pub open spec fn last_under(
    items: Seq<Option<(Seq<u8>, u64, Option<Seq<u8>>)>>,
    path: Seq<u8>,
) -> Option<Seq<u8>>
    decreases items.len(),
{
    if items.len() == 0 {
        None
    } else {
        match items.last() {
            Some(e) if e.0 == path => e.2,
            _ => last_under(items.drop_last(), path),
        }
    }
}

/// What the items of an archive hold as a voice package. An item that could
/// not be parsed, or an entry that was not read to its declared size, makes
/// the package corrupt, wherever it stands. Otherwise the last entry under
/// each required path counts, and a missing style table is reported before
/// a missing synthesizer.
pub open spec fn selected(items: Seq<Option<(Seq<u8>, u64, Option<Seq<u8>>)>>) -> Outcome<
    Seq<u8>,
> {
    if !all_read(items) {
        Outcome::Corrupt
    } else {
        match (last_under(items, style_path()), last_under(items, model_path())) {
            (None, _) => Outcome::Missing("style_vectors"@),
            (Some(_), None) => Outcome::Missing("vits2"@),
            (Some(style), Some(model)) => Outcome::Found(style, model),
        }
    }
}

/// What a compressed archive holds as a voice package.
pub open spec fn sbv2_contents(bytes: Seq<u8>) -> Outcome<Seq<u8>> {
    match zstd_decoded(bytes) {
        None => Outcome::Corrupt,
        Some(archive) => match tar_entries(archive) {
            None => Outcome::Corrupt,
            Some(entries) => selected(entries),
        },
    }
}

/// The result `r` reports exactly the outcome `o`.
pub open spec fn reports(r: Result<(Vec<u8>, Vec<u8>), Error>, o: Outcome<Seq<u8>>) -> bool {
    match o {
        Outcome::Corrupt => r == Err::<(Vec<u8>, Vec<u8>), Error>(Error::PackageCorrupt),
        Outcome::Missing(name) => r matches Err(e) && e.is_missing(name),
        Outcome::Mismatch => r == Err::<(Vec<u8>, Vec<u8>), Error>(Error::ShapeMismatch),
        Outcome::Found(style, model) => r matches Ok(pair) && pair.0@ == style && pair.1@ == model,
    }
}

/// Whether two byte strings are equal.
pub fn same_bytes(a: &[u8], b: &[u8]) -> (r: bool)
    ensures
        r == (a@ == b@),
{
    if a.len() != b.len() {
        return false;
    }
    let mut i: usize = 0;
    while i < a.len()
        invariant
            a@.len() == b@.len(),
            i <= a@.len(),
            forall|k: int| 0 <= k < i ==> a@[k] == b@[k],
        decreases a@.len() - i,
    {
        if a[i] != b[i] {
            return false;
        }
        i += 1;
    }
    assert(a@ =~= b@);
    true
}

/// The two required paths are different byte strings.
pub proof fn lemma_paths_differ()
    ensures
        style_path() != model_path(),
{
    reveal_strlit("style_vectors.json");
    reveal_strlit("model.onnx");
    assert(vstd::string::is_ascii("style_vectors.json"));
    assert(vstd::string::is_ascii("model.onnx"));
    vstd::string::is_ascii_spec_bytes("style_vectors.json");
    vstd::string::is_ascii_spec_bytes("model.onnx");
    assert(style_path().len() == 18);
    assert(model_path().len() == 10);
}

proof fn lemma_model_drop_last(entries: Seq<Option<ArchiveEntry>>)
    requires
        entries.len() > 0,
    ensures
        entries_model(entries.drop_last()) == entries_model(entries).drop_last(),
        entries_model(entries).last() == (match entries.last() {
            Some(e) => Some(e.model()),
            None => None,
        }),
{
    assert(entries_model(entries.drop_last()) =~= entries_model(entries).drop_last());
}

proof fn lemma_all_read_split(items: Seq<Option<(Seq<u8>, u64, Option<Seq<u8>>)>>)
    requires
        items.len() > 0,
    ensures
        all_read(items) <==> entry_read(items.last()) && all_read(items.drop_last()),
{
    if entry_read(items.last()) && all_read(items.drop_last()) {
        assert forall|i: int| 0 <= i < items.len() implies entry_read(#[trigger] items[i]) by {
            if i < items.len() - 1 {
                assert(items.drop_last()[i] == items[i]);
            }
        }
    }
    if all_read(items) {
        assert forall|i: int| 0 <= i < items.drop_last().len() implies entry_read(
            #[trigger] items.drop_last()[i],
        ) by {
            assert(items.drop_last()[i] == items[i]);
        }
    }
}

/// Picks the style vectors and the synthesizer out of the items of an
/// archive. Every item must be an entry that was read to its declared size;
/// of several entries under one path the last counts; other entries are
/// ignored.
pub fn select_entries(entries: Vec<Option<ArchiveEntry>>) -> (r: Result<(Vec<u8>, Vec<u8>), Error>)
    ensures
        reports(r, selected(entries_model(entries@))),
{
    let ghost all = entries_model(entries@);
    let mut rest = entries;
    let mut style: Option<Vec<u8>> = None;
    let mut model: Option<Vec<u8>> = None;
    let mut corrupt = false;
    while rest.len() > 0
        invariant
            all_read(all) <==> !corrupt && all_read(entries_model(rest@)),
            !corrupt ==> last_under(all, style_path()) == (match style {
                Some(s) => Some(s@),
                None => last_under(entries_model(rest@), style_path()),
            }),
            !corrupt ==> last_under(all, model_path()) == (match model {
                Some(m) => Some(m@),
                None => last_under(entries_model(rest@), model_path()),
            }),
        decreases rest@.len(),
    {
        proof {
            lemma_paths_differ();
            lemma_model_drop_last(rest@);
            lemma_all_read_split(entries_model(rest@));
            assert(rest@.subrange(0, rest@.len() - 1) =~= rest@.drop_last());
        }
        match rest.pop().unwrap() {
            None => {
                corrupt = true;
            },
            Some(entry) => match entry.contents {
                None => {
                    corrupt = true;
                },
                Some(contents) => {
                    if contents.len() as u64 != entry.size {
                        corrupt = true;
                    } else if same_bytes(entry.path.as_slice(), "style_vectors.json".as_bytes()) {
                        if style.is_none() {
                            style = Some(contents);
                        }
                    } else if same_bytes(entry.path.as_slice(), "model.onnx".as_bytes()) {
                        if model.is_none() {
                            model = Some(contents);
                        }
                    }
                },
            },
        }
    }
    if corrupt {
        return Err(Error::PackageCorrupt);
    }
    match (style, model) {
        (None, _) => Err(Error::MissingEntry("style_vectors".to_owned())),
        (Some(_), None) => Err(Error::MissingEntry("vits2".to_owned())),
        (Some(style), Some(model)) => Ok((style, model)),
    }
}

/// Reads a voice package in the compressed-archive format: a zstd stream
/// holding a tar archive with the entries `style_vectors.json` and
/// `model.onnx`. Returns the style vectors and the synthesizer, in that
/// order.
pub fn parse_sbv2file(sbv2_bytes: &[u8]) -> (r: Result<(Vec<u8>, Vec<u8>), Error>)
    ensures
        reports(r, sbv2_contents(sbv2_bytes@)),
{
    let archive = match zstd_decode(sbv2_bytes) {
        Some(archive) => archive,
        None => { return Err(Error::PackageCorrupt); },
    };
    match tar_read(archive.as_slice()) {
        Some(entries) => select_entries(entries),
        None => Err(Error::PackageCorrupt),
    }
}

/// The style tensor of a single-file voice package, still in NumPy file
/// form, with what its header declares.
pub struct StyleTensor {
    /// The declared shape.
    pub shape: Vec<u64>,
    /// Whether the elements are stored column by column.
    pub fortran: bool,
    /// The NumPy file.
    pub file: Vec<u8>,
}

/// What the metadata value of a single-file package holds: the decoded
/// NumPy file with its declared shape and order, beside the package bytes.
/// A file whose header is cut short, or is not modest, counts as corrupt; a
/// declared shape that is not two-dimensional is a mismatch.
pub open spec fn aivmx_contents(bytes: Seq<u8>, style_vectors: Option<Seq<char>>) -> Outcome<
    (Seq<u64>, bool, Seq<u8>),
> {
    match style_vectors {
        None => Outcome::Missing("aivm_style_vectors"@),
        Some(text) => match base64_decoded(text) {
            None => Outcome::Corrupt,
            Some(file) => if !header_is_modest(file) {
                Outcome::Corrupt
            } else {
                match npy_layout(file) {
                    None => Outcome::Corrupt,
                    Some((shape, fortran)) => if shape.len() != 2 {
                        Outcome::Mismatch
                    } else {
                        Outcome::Found((shape, fortran, file), bytes)
                    },
                }
            },
        },
    }
}

/// The result `r` reports exactly the outcome `o`.
pub open spec fn reports_tensor(
    r: Result<(StyleTensor, Vec<u8>), Error>,
    o: Outcome<(Seq<u64>, bool, Seq<u8>)>,
) -> bool {
    match o {
        Outcome::Corrupt => r == Err::<(StyleTensor, Vec<u8>), Error>(Error::PackageCorrupt),
        Outcome::Missing(name) => r matches Err(e) && e.is_missing(name),
        Outcome::Mismatch => r == Err::<(StyleTensor, Vec<u8>), Error>(Error::ShapeMismatch),
        Outcome::Found(tensor, model) => r matches Ok(pair) && pair.0.shape@ == tensor.0
            && pair.0.fortran == tensor.1 && pair.0.file@ == tensor.2 && pair.1@ == model,
    }
}

/// Reads a voice package in the single-file format. `style_vectors` is the
/// value stored in the model's metadata under the key `aivm_style_vectors`,
/// if the key is there: the base64 text of a NumPy file, whose declared
/// shape must be two-dimensional. Returns the decoded tensor file, with its
/// declared shape and order, and the package bytes unchanged as the
/// synthesizer.
pub fn parse_aivmx(aivmx_bytes: &[u8], style_vectors: Option<&str>) -> (r: Result<
    (StyleTensor, Vec<u8>),
    Error,
>)
    ensures
        reports_tensor(
            r,
            aivmx_contents(
                aivmx_bytes@,
                match style_vectors {
                    Some(text) => Some(text@),
                    None => None,
                },
            ),
        ),
{
    let text = match style_vectors {
        Some(text) => text,
        None => { return Err(Error::MissingEntry("aivm_style_vectors".to_owned())); },
    };
    let file = match base64_decode(text) {
        Some(file) => file,
        None => { return Err(Error::PackageCorrupt); },
    };
    if !check_header(file.as_slice()) {
        return Err(Error::PackageCorrupt);
    }
    match npy_header(file.as_slice()) {
        Some((shape, fortran)) => {
            if shape.len() != 2 {
                return Err(Error::ShapeMismatch);
            }
            Ok((StyleTensor { shape, fortran, file }, slice_to_vec(aivmx_bytes)))
        },
        None => Err(Error::PackageCorrupt),
    }
}

} // verus!
