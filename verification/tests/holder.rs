use base64::Engine;
use sbv2_core::error::Error;
use sbv2_core::holder::TTSModel;
use sbv2_core::sbv2file::StyleTensor;
use sbv2_core::style::StyleTable;

/// Stands for an inference session: it remembers the bytes it was opened on.
struct Session {
    model: Vec<u8>,
}

type Holder = TTSModel<Session, f32>;

fn table(n_styles: usize) -> StyleTable<f32> {
    let rows: Vec<Vec<f32>> = (0..n_styles).map(|i| vec![i as f32, i as f32 + 0.5]).collect();
    StyleTable::new(n_styles, 2, rows).ok().unwrap()
}

fn put(holder: &mut Holder, ident: &str) {
    holder.insert(ident.to_string(), table(3), Session { model: ident.as_bytes().to_vec() });
}

fn sbv2_package(style_json: &str, model: &[u8]) -> Vec<u8> {
    let mut builder = tar::Builder::new(Vec::new());
    for (path, data) in [("style_vectors.json", style_json.as_bytes()), ("model.onnx", model)] {
        let mut header = tar::Header::new_gnu();
        header.set_size(data.len() as u64);
        header.set_mode(0o644);
        header.set_cksum();
        builder.append_data(&mut header, path, data).unwrap();
    }
    zstd::encode_all(&builder.into_inner().unwrap()[..], 0).unwrap()
}

fn aivmx_text(fortran: bool, shape: &[u64], values: &[f32]) -> String {
    let dims: Vec<String> = shape.iter().map(|d| format!("{},", d)).collect();
    let mut dict = format!(
        "{{'descr': '<f4', 'fortran_order': {}, 'shape': ({}), }}",
        if fortran { "True" } else { "False" },
        dims.join(" ")
    );
    while (10 + dict.len() + 1) % 64 != 0 {
        dict.push(' ');
    }
    dict.push('\n');
    let mut file = b"\x93NUMPY\x01\x00".to_vec();
    file.extend_from_slice(&(dict.len() as u16).to_le_bytes());
    file.extend_from_slice(dict.as_bytes());
    for v in values {
        file.extend_from_slice(&v.to_le_bytes());
    }
    base64::prelude::BASE64_STANDARD.encode(&file)
}

/// Builds the style table from the style JSON and opens a session on the
/// synthesizer bytes; bytes that start with `!` are rejected.
fn build_from_json(style_json: Vec<u8>, model: Vec<u8>) -> Result<(StyleTable<f32>, Session), Error> {
    let value: serde_json::Value = serde_json::from_slice(&style_json).map_err(|_| Error::PackageCorrupt)?;
    let shape: Vec<usize> = serde_json::from_value(value["shape"].clone()).map_err(|_| Error::PackageCorrupt)?;
    let data: Vec<Vec<f32>> = serde_json::from_value(value["data"].clone()).map_err(|_| Error::PackageCorrupt)?;
    if shape.len() != 2 {
        return Err(Error::ShapeMismatch);
    }
    let style_table = StyleTable::new(shape[0], shape[1], data)?;
    if model.first() == Some(&b'!') {
        return Err(Error::ModelLoadFailed);
    }
    Ok((style_table, Session { model }))
}

fn decode_tensor(tensor: &StyleTensor) -> Result<Vec<f32>, Error> {
    npyz::NpyFile::new(&tensor.file[..])
        .and_then(|file| file.into_vec::<f32>())
        .map_err(|_| Error::PackageCorrupt)
}

/// Opens a session; bytes that start with `!` are rejected.
fn open_session(model: Vec<u8>) -> Result<Session, Error> {
    if model.first() == Some(&b'!') {
        return Err(Error::ModelLoadFailed);
    }
    Ok(Session { model })
}

/// Stands for the text pipeline and the inference: the waveform holds all
/// that was handed over.
fn run(session: &Session, vector: &Vec<f32>, text: &str, speaker_id: i64, options: (f32, f32)) -> Result<Vec<u8>, Error> {
    let mut out = session.model.clone();
    out.extend_from_slice(text.as_bytes());
    for v in vector {
        out.extend_from_slice(&v.to_le_bytes());
    }
    out.extend_from_slice(&speaker_id.to_le_bytes());
    out.extend_from_slice(&options.0.to_le_bytes());
    out.extend_from_slice(&options.1.to_le_bytes());
    Ok(out)
}

fn speak(holder: &mut Holder, ident: &str, style_id: i32) -> Result<Vec<u8>, Error> {
    holder.synthesize(ident, "hi", style_id, 0, (0.0f32, 1.0f32), run)
}

const STYLE_JSON: &str = "{\"shape\":[3,2],\"data\":[[0.0,0.5],[1.0,1.5],[2.0,2.5]]}";

#[test]
fn new_holder_is_empty() {
    let holder = Holder::new(Some(2));
    assert_eq!(holder.len(), 0);
    assert_eq!(holder.max_loaded_models(), Some(2));
    assert!(!holder.contains("v1"));
    assert!(holder.can_stamp());
    assert_eq!(Holder::new(None).max_loaded_models(), None);
}

#[test]
fn registry_never_exceeds_its_capacity() {
    let mut holder = Holder::new(Some(3));
    for (step, ident) in ["a", "b", "c", "d", "b", "e", "f", "a", "g"].iter().enumerate() {
        put(&mut holder, ident);
        assert!(holder.len() <= 3);
        assert!(holder.contains(ident));
        if step % 4 == 3 {
            holder.unload(ident);
            assert!(holder.len() <= 3);
        }
    }
    assert_eq!(holder.len(), 3);
}

#[test]
fn without_a_maximum_the_registry_is_unbounded() {
    let mut holder = Holder::new(None);
    for i in 0..50 {
        put(&mut holder, &format!("voice-{}", i));
    }
    assert_eq!(holder.len(), 50);
    assert!(holder.contains("voice-0"));
}

#[test]
fn a_maximum_of_zero_is_unbounded() {
    let mut holder = Holder::new(Some(0));
    for i in 0..10 {
        put(&mut holder, &format!("voice-{}", i));
    }
    assert_eq!(holder.len(), 10);
    assert!(holder.contains("voice-0"));
}

#[test]
fn loading_stamps_with_fresh_ticks() {
    let mut holder = Holder::new(None);
    put(&mut holder, "a");
    put(&mut holder, "b");
    assert_eq!(holder.last_used("a"), Some(1));
    assert_eq!(holder.last_used("b"), Some(2));
    assert_eq!(holder.last_used("c"), None);
    speak(&mut holder, "a", 0).unwrap();
    assert_eq!(holder.last_used("a"), Some(3));
    assert_eq!(holder.last_used("b"), Some(2));
}

#[test]
fn loading_a_present_identity_replaces_it() {
    let mut holder = Holder::new(Some(2));
    put(&mut holder, "a");
    put(&mut holder, "b");
    holder.insert("a".to_string(), table(1), Session { model: b"new".to_vec() });
    assert_eq!(holder.len(), 2);
    assert!(holder.contains("a") && holder.contains("b"));
    assert_eq!(holder.last_used("a"), Some(3));
    assert_eq!(speak(&mut holder, "a", 1), Err(Error::StyleOutOfRange));
    let wave = speak(&mut holder, "a", 0).unwrap();
    assert!(wave.starts_with(b"newhi"));
}

#[test]
fn unload_reports_presence() {
    let mut holder = Holder::new(None);
    put(&mut holder, "a");
    put(&mut holder, "b");
    assert!(holder.unload("a"));
    assert!(!holder.unload("a"));
    assert!(!holder.unload("never"));
    assert_eq!(holder.len(), 1);
    assert!(holder.contains("b"));
    assert_eq!(speak(&mut holder, "a", 0), Err(Error::UnknownIdentity("a".to_string())));
}

#[test]
fn lru_keeps_the_voice_that_was_used() {
    let mut holder = Holder::new(Some(2));
    put(&mut holder, "A");
    put(&mut holder, "B");
    speak(&mut holder, "A", 0).unwrap();
    put(&mut holder, "C");
    assert!(!holder.contains("B"));
    assert!(holder.contains("A"));
    assert!(holder.contains("C"));
    assert_eq!(holder.len(), 2);
}

#[test]
fn capacity_bump_evicts_the_oldest() {
    let mut holder = Holder::new(Some(2));
    put(&mut holder, "A");
    put(&mut holder, "B");
    put(&mut holder, "C");
    assert!(!holder.contains("A"));
    assert!(holder.contains("B"));
    assert!(holder.contains("C"));
}

#[test]
fn inspecting_does_not_promote() {
    let mut holder = Holder::new(Some(2));
    put(&mut holder, "A");
    put(&mut holder, "B");
    assert!(holder.contains("A"));
    assert_eq!(holder.last_used("A"), Some(1));
    assert_eq!(holder.len(), 2);
    put(&mut holder, "C");
    assert!(!holder.contains("A"));
}

#[test]
fn synthesis_after_a_load_evicts_nothing() {
    let mut holder = Holder::new(Some(2));
    put(&mut holder, "A");
    put(&mut holder, "B");
    put(&mut holder, "C");
    let before = (holder.contains("A"), holder.contains("B"), holder.contains("C"), holder.len());
    speak(&mut holder, "C", 1).unwrap();
    let after = (holder.contains("A"), holder.contains("B"), holder.contains("C"), holder.len());
    assert_eq!(before, (false, true, true, 2));
    assert_eq!(after, before);
}

#[test]
fn load_unload_reload() {
    let bytes1 = sbv2_package(STYLE_JSON, b"model-one");
    let bytes2 = sbv2_package(STYLE_JSON, b"model-two");
    let mut holder = Holder::new(Some(1));
    assert_eq!(holder.load_sbv2file("v1".to_string(), &bytes1, build_from_json), Ok(()));
    let wave = holder.synthesize("v1", "hi", 0, 0, (0.0f32, 1.0f32), run).unwrap();
    assert!(wave.starts_with(b"model-onehi"));
    assert_eq!(holder.load_sbv2file("v2".to_string(), &bytes2, build_from_json), Ok(()));
    assert!(!holder.contains("v1"));
    assert!(holder.contains("v2"));
    assert_eq!(
        holder.synthesize("v1", "hi", 0, 0, (0.0f32, 1.0f32), run),
        Err(Error::UnknownIdentity("v1".to_string()))
    );
}

#[test]
fn corrupt_package_leaves_the_registry_unchanged() {
    let good = sbv2_package(STYLE_JSON, b"model");
    let mut holder = Holder::new(Some(1));
    holder.load_sbv2file("v1".to_string(), &good, build_from_json).unwrap();
    let stamp = holder.last_used("v1");
    let cut = &good[..good.len() - 7];
    assert_eq!(holder.load_sbv2file("v2".to_string(), cut, build_from_json), Err(Error::PackageCorrupt));
    assert_eq!(holder.len(), 1);
    assert!(holder.contains("v1"));
    assert!(!holder.contains("v2"));
    assert_eq!(holder.last_used("v1"), stamp);
    put(&mut holder, "v3");
    assert_eq!(holder.last_used("v3"), Some(2));
}

#[test]
fn failed_load_of_a_present_identity_keeps_the_old_entry() {
    let mut holder = Holder::new(Some(2));
    put(&mut holder, "v1");
    put(&mut holder, "v2");
    let rejected = sbv2_package(STYLE_JSON, b"!rejected by the runtime");
    assert_eq!(holder.load_sbv2file("v1".to_string(), &rejected, build_from_json), Err(Error::ModelLoadFailed));
    let misshapen = sbv2_package("{\"shape\":[2,2],\"data\":[[0.0,0.5]]}", b"model");
    assert_eq!(holder.load_sbv2file("v3".to_string(), &misshapen, build_from_json), Err(Error::ShapeMismatch));
    let no_json = sbv2_package("not json", b"model");
    assert_eq!(holder.load_sbv2file("v3".to_string(), &no_json, build_from_json), Err(Error::PackageCorrupt));
    assert_eq!(holder.len(), 2);
    assert_eq!(holder.last_used("v1"), Some(1));
    assert_eq!(holder.last_used("v2"), Some(2));
    let wave = speak(&mut holder, "v1", 0).unwrap();
    assert!(wave.starts_with(b"v1hi"));
}

#[test]
fn missing_entry_is_reported_by_load() {
    let mut builder = tar::Builder::new(Vec::new());
    let mut header = tar::Header::new_gnu();
    header.set_size(5);
    header.set_mode(0o644);
    header.set_cksum();
    builder.append_data(&mut header, "model.onnx", &b"model"[..]).unwrap();
    let bytes = zstd::encode_all(&builder.into_inner().unwrap()[..], 0).unwrap();
    let mut holder = Holder::new(None);
    assert_eq!(
        holder.load_sbv2file("v1".to_string(), &bytes, build_from_json),
        Err(Error::MissingEntry("style_vectors".to_string()))
    );
    assert_eq!(holder.len(), 0);
}

#[test]
fn style_bounds_are_checked_by_synthesize() {
    let mut holder = Holder::new(None);
    put(&mut holder, "v1");
    assert_eq!(holder.synthesize("v1", "text", 3, 0, (0.0f32, 1.0f32), run), Err(Error::StyleOutOfRange));
    assert_eq!(holder.synthesize("v1", "text", -1, 0, (0.0f32, 1.0f32), run), Err(Error::StyleOutOfRange));
    assert!(holder.synthesize("v1", "text", 2, 0, (0.0f32, 1.0f32), run).is_ok());
    assert!(holder.contains("v1"));
}

#[test]
fn synthesize_hands_everything_to_the_pipeline() {
    let mut holder = Holder::new(None);
    put(&mut holder, "v1");
    let wave = holder.synthesize("v1", "hello", 1, 42, (0.25f32, 1.5f32), run).unwrap();
    let mut expected = b"v1hello".to_vec();
    expected.extend_from_slice(&1.0f32.to_le_bytes());
    expected.extend_from_slice(&1.5f32.to_le_bytes());
    expected.extend_from_slice(&42i64.to_le_bytes());
    expected.extend_from_slice(&0.25f32.to_le_bytes());
    expected.extend_from_slice(&1.5f32.to_le_bytes());
    assert_eq!(wave, expected);
}

#[test]
fn synthesize_is_deterministic() {
    let mut holder = Holder::new(Some(2));
    put(&mut holder, "v1");
    put(&mut holder, "v2");
    let first = holder.synthesize("v1", "same text", 2, 7, (0.0f32, 1.0f32), run).unwrap();
    let second = holder.synthesize("v1", "same text", 2, 7, (0.0f32, 1.0f32), run).unwrap();
    assert_eq!(first, second);
}

#[test]
fn pipeline_errors_pass_through() {
    let mut holder = Holder::new(None);
    put(&mut holder, "v1");
    let tokenize = |_: &Session, _: &Vec<f32>, _: &str, _: i64, _: ()| -> Result<Vec<u8>, Error> { Err(Error::TokenizeFailed) };
    assert_eq!(holder.synthesize("v1", "x", 0, 0, (), tokenize), Err(Error::TokenizeFailed));
    let infer = |_: &Session, _: &Vec<f32>, _: &str, _: i64, _: ()| -> Result<Vec<u8>, Error> { Err(Error::InferenceFailed) };
    assert_eq!(holder.synthesize("v1", "x", 0, 0, (), infer), Err(Error::InferenceFailed));
    assert_eq!(holder.last_used("v1"), Some(3));
}

#[test]
fn unknown_identity_changes_nothing() {
    let mut holder = Holder::new(Some(2));
    put(&mut holder, "v1");
    assert_eq!(speak(&mut holder, "v2", 0), Err(Error::UnknownIdentity("v2".to_string())));
    assert_eq!(speak(&mut holder, "", 0), Err(Error::UnknownIdentity(String::new())));
    assert_eq!(holder.last_used("v1"), Some(1));
    put(&mut holder, "v3");
    assert_eq!(holder.last_used("v3"), Some(2));
}

#[test]
fn load_from_decoded_parts() {
    let mut holder = Holder::new(Some(1));
    let r = holder.load("v1".to_string(), STYLE_JSON.as_bytes().to_vec(), b"m1".to_vec(), build_from_json);
    assert_eq!(r, Ok(()));
    let r = holder.load("v2".to_string(), STYLE_JSON.as_bytes().to_vec(), b"!m2".to_vec(), build_from_json);
    assert_eq!(r, Err(Error::ModelLoadFailed));
    assert!(holder.contains("v1"));
    assert!(!holder.contains("v2"));
}

#[test]
fn aivmx_loads_through_the_tensor() {
    let text = aivmx_text(false, &[2, 3], &[1.0, 2.0, 3.0, 4.0, 5.0, 6.0]);
    let mut holder = Holder::new(Some(1));
    assert_eq!(holder.load_aivmx("v1".to_string(), b"aivmx-model", Some(&text), decode_tensor, open_session), Ok(()));
    let wave = holder.synthesize("v1", "", 1, 0, (0.0f32, 1.0f32), run).unwrap();
    let mut expected = b"aivmx-model".to_vec();
    for v in [4.0f32, 5.0, 6.0] {
        expected.extend_from_slice(&v.to_le_bytes());
    }
    assert!(wave.starts_with(&expected));
    assert_eq!(holder.synthesize("v1", "", 2, 0, (0.0f32, 1.0f32), run), Err(Error::StyleOutOfRange));
}

#[test]
fn aivmx_fortran_order_is_transposed() {
    let text = aivmx_text(true, &[2, 3], &[1.0, 2.0, 3.0, 4.0, 5.0, 6.0]);
    let mut holder = Holder::new(None);
    holder.load_aivmx("v1".to_string(), b"m", Some(&text), decode_tensor, open_session).unwrap();
    let wave = holder.synthesize("v1", "", 0, 0, (0.0f32, 1.0f32), run).unwrap();
    let mut expected = b"m".to_vec();
    for v in [1.0f32, 3.0, 5.0] {
        expected.extend_from_slice(&v.to_le_bytes());
    }
    assert!(wave.starts_with(&expected));
}

#[test]
fn aivmx_failures_leave_the_registry_unchanged() {
    let mut holder = Holder::new(Some(1));
    put(&mut holder, "v1");
    assert_eq!(
        holder.load_aivmx("v2".to_string(), b"m", None, decode_tensor, open_session),
        Err(Error::MissingEntry("aivm_style_vectors".to_string()))
    );
    assert_eq!(holder.load_aivmx("v2".to_string(), b"m", Some("%%%"), decode_tensor, open_session), Err(Error::PackageCorrupt));
    let short = aivmx_text(false, &[2, 3], &[0.0; 4]);
    assert_eq!(holder.load_aivmx("v2".to_string(), b"m", Some(&short), decode_tensor, open_session), Err(Error::PackageCorrupt));
    let good = aivmx_text(false, &[2, 3], &[0.0; 6]);
    assert_eq!(holder.load_aivmx("v2".to_string(), b"!m", Some(&good), decode_tensor, open_session), Err(Error::ModelLoadFailed));
    assert_eq!(holder.load_aivmx("v1".to_string(), b"!m", Some(&good), decode_tensor, open_session), Err(Error::ModelLoadFailed));
    assert_eq!(holder.len(), 1);
    assert!(holder.contains("v1"));
    assert!(!holder.contains("v2"));
    assert_eq!(holder.last_used("v1"), Some(1));
    assert!(speak(&mut holder, "v1", 2).unwrap().starts_with(b"v1hi"));
}

#[test]
fn aivmx_tensor_of_another_rank_fails_at_capacity_without_eviction() {
    let mut holder = Holder::new(Some(2));
    put(&mut holder, "v1");
    put(&mut holder, "v2");
    for shape in [&[6u64][..], &[1, 2, 3], &[]] {
        let text = aivmx_text(false, shape, &[0.0; 6]);
        assert_eq!(holder.load_aivmx("v3".to_string(), b"m", Some(&text), decode_tensor, open_session), Err(Error::ShapeMismatch));
        // The kind does not depend on what the element reader would say.
        let failing = |_: &StyleTensor| -> Result<Vec<f32>, Error> { Err(Error::PackageCorrupt) };
        assert_eq!(holder.load_aivmx("v3".to_string(), b"m", Some(&text), failing, open_session), Err(Error::ShapeMismatch));
    }
    assert_eq!(holder.len(), 2);
    assert_eq!((holder.last_used("v1"), holder.last_used("v2"), holder.last_used("v3")), (Some(1), Some(2), None));
}

#[test]
fn aivmx_elements_must_fit_the_declared_shape() {
    let text = aivmx_text(false, &[2, 3], &[0.0; 6]);
    let mut holder = Holder::new(Some(1));
    put(&mut holder, "v1");
    let fewer = |_: &StyleTensor| -> Result<Vec<f32>, Error> { Ok(vec![0.0; 5]) };
    assert_eq!(holder.load_aivmx("v2".to_string(), b"m", Some(&text), fewer, open_session), Err(Error::ShapeMismatch));
    let more = |_: &StyleTensor| -> Result<Vec<f32>, Error> { Ok(vec![0.0; 7]) };
    assert_eq!(holder.load_aivmx("v2".to_string(), b"m", Some(&text), more, open_session), Err(Error::ShapeMismatch));
    assert!(holder.contains("v1"));
    assert_eq!(holder.len(), 1);
}

#[test]
fn broken_archive_leaves_the_registry_unchanged() {
    let good = sbv2_package(STYLE_JSON, b"model");
    let mut tar = zstd::decode_all(&good[..]).unwrap();
    let end = tar.len() - 1024;
    for b in &mut tar[end..end + 512] {
        *b = 0xff;
    }
    let broken = zstd::encode_all(&tar[..], 0).unwrap();
    let mut holder = Holder::new(Some(1));
    put(&mut holder, "v1");
    assert_eq!(holder.load_sbv2file("v2".to_string(), &broken, build_from_json), Err(Error::PackageCorrupt));
    assert_eq!(holder.load_sbv2file("v1".to_string(), &broken, build_from_json), Err(Error::PackageCorrupt));
    assert_eq!(holder.len(), 1);
    assert_eq!(holder.last_used("v1"), Some(1));
    assert_eq!(holder.load_sbv2file("v2".to_string(), &good, build_from_json), Ok(()));
    assert!(!holder.contains("v1"));
}
