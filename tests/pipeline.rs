use spotify_downloader::engine::{EngineState, ReadOutcome, RelayEngine, CHUNK_LEN, HEADER_LEN};
use spotify_downloader::framing::size_prefix;
use spotify_downloader::model::{DownloadError, Encoding, FileRef, PlayableVariant, TrackId, WANTED_ENCODING};
use spotify_downloader::resolver::{resolve_step, ResolveStep};
use spotify_downloader::select::select_file;

fn track(n: u128) -> TrackId {
    TrackId { id: n }
}

fn file(tag: u8) -> FileRef {
    FileRef { bytes: [tag; 20] }
}

fn variant(n: u128, available: bool, alternatives: Vec<TrackId>, files: Vec<(Encoding, FileRef)>) -> PlayableVariant {
    PlayableVariant { id: track(n), available, alternatives, files }
}

/// Runs the relay over the given reads; returns the chunks and the final state.
fn relay(outcomes: Vec<ReadOutcome>) -> (Vec<Vec<u8>>, EngineState, Option<DownloadError>) {
    let mut engine = RelayEngine::new();
    let mut chunks = Vec::new();
    let mut error = None;
    for outcome in outcomes {
        if engine.is_finished() {
            break;
        }
        match engine.on_read(outcome) {
            Ok(Some(c)) => chunks.push(c),
            Ok(None) => {}
            Err(e) => error = Some(e),
        }
    }
    (chunks, engine.state(), error)
}

fn filled(bytes: &[u8]) -> ReadOutcome {
    let mut buf = vec![0u8; CHUNK_LEN.max(bytes.len())];
    buf[..bytes.len()].copy_from_slice(bytes);
    ReadOutcome::Filled { buf, n: bytes.len() }
}

fn header() -> ReadOutcome {
    ReadOutcome::Filled { buf: vec![0xAA; HEADER_LEN], n: HEADER_LEN }
}

/// Drives the resolver against a fixed catalog, recording every lookup.
fn resolve(catalog: &dyn Fn(TrackId) -> PlayableVariant, id: TrackId) -> (Vec<TrackId>, Result<PlayableVariant, DownloadError>) {
    let mut lookups = vec![id];
    let requested = catalog(id);
    let mut looked: Vec<PlayableVariant> = Vec::new();
    loop {
        match resolve_step(&requested, &looked) {
            ResolveStep::Lookup(t) => {
                lookups.push(t);
                looked.push(catalog(t));
            }
            ResolveStep::UseRequested => return (lookups, Ok(requested)),
            ResolveStep::UseAlternative(i) => return (lookups, Ok(looked.swap_remove(i))),
            ResolveStep::NoPlayableVariant => return (lookups, Err(DownloadError::NoPlayableVariant)),
        }
    }
}

fn catalog_b(t: TrackId) -> PlayableVariant {
    match t.id {
        1 => variant(1, false, vec![track(2), track(3)], vec![]),
        2 => variant(2, false, vec![], vec![(WANTED_ENCODING, file(2))]),
        3 => variant(3, true, vec![], vec![(Encoding::Mp3_96, file(9)), (WANTED_ENCODING, file(3))]),
        _ => variant(t.id, true, vec![], vec![]),
    }
}

#[test]
fn available_track_is_used_without_alternatives() {
    let catalog = |t: TrackId| variant(t.id, true, vec![track(7), track(8)], vec![]);
    let (lookups, r) = resolve(&catalog, track(1));
    assert_eq!(lookups, vec![track(1)]);
    assert_eq!(r.unwrap().id, track(1));
}

#[test]
fn first_available_alternative_is_used() {
    let (lookups, r) = resolve(&catalog_b, track(1));
    assert_eq!(lookups, vec![track(1), track(2), track(3)]);
    let chosen = r.unwrap();
    assert_eq!(chosen.id, track(3));
    assert_eq!(select_file(&chosen, WANTED_ENCODING), Ok(file(3)));
}

#[test]
fn later_alternatives_are_not_looked_up() {
    let catalog = |t: TrackId| match t.id {
        1 => variant(1, false, vec![track(2), track(3), track(4)], vec![]),
        2 => variant(2, true, vec![], vec![]),
        n => variant(n, true, vec![], vec![]),
    };
    let (lookups, r) = resolve(&catalog, track(1));
    assert_eq!(lookups, vec![track(1), track(2)]);
    assert_eq!(r.unwrap().id, track(2));
}

#[test]
fn nothing_available_fails() {
    let catalog = |t: TrackId| match t.id {
        1 => variant(1, false, vec![track(2), track(3)], vec![]),
        n => variant(n, false, vec![], vec![]),
    };
    let (lookups, r) = resolve(&catalog, track(1));
    assert_eq!(lookups, vec![track(1), track(2), track(3)]);
    assert_eq!(r.unwrap_err(), DownloadError::NoPlayableVariant);
}

#[test]
fn unavailable_track_without_alternatives_fails() {
    let requested = variant(1, false, vec![], vec![]);
    assert_eq!(resolve_step(&requested, &Vec::new()), ResolveStep::NoPlayableVariant);
}

#[test]
fn resolving_twice_gives_the_same_variant() {
    let (l1, r1) = resolve(&catalog_b, track(1));
    let (l2, r2) = resolve(&catalog_b, track(1));
    assert_eq!(l1, l2);
    let (a, b) = (r1.unwrap(), r2.unwrap());
    assert_eq!(a.id, b.id);
    assert_eq!(a.files, b.files);
}

#[test]
fn selection_finds_the_wanted_encoding() {
    let v = variant(1, true, vec![], vec![(Encoding::OggVorbis160, file(1)), (Encoding::OggVorbis320, file(2))]);
    assert_eq!(select_file(&v, Encoding::OggVorbis320), Ok(file(2)));
    assert_eq!(select_file(&v, Encoding::OggVorbis160), Ok(file(1)));
    assert_eq!(select_file(&v, Encoding::OggVorbis320), select_file(&v, Encoding::OggVorbis320));
}

#[test]
fn missing_encoding_is_unavailable() {
    let v = variant(1, true, vec![], vec![(Encoding::Mp3_320, file(1))]);
    assert_eq!(select_file(&v, WANTED_ENCODING), Err(DownloadError::EncodingUnavailable(Encoding::OggVorbis320)));
    let empty = variant(1, true, vec![], vec![]);
    assert_eq!(select_file(&empty, Encoding::Aac160), Err(DownloadError::EncodingUnavailable(Encoding::Aac160)));
}

#[test]
fn read_buffers_have_header_then_chunk_size() {
    let mut engine = RelayEngine::new();
    let b = engine.read_buffer();
    assert_eq!(b.len(), 167);
    assert!(b.iter().all(|x| *x == 0));
    assert_eq!(engine.on_read(header()), Ok(None));
    assert_eq!(engine.state(), EngineState::Streaming);
    assert_eq!(engine.read_buffer().len(), 65536);
}

#[test]
fn header_and_ten_bytes_give_ten_bytes() {
    let payload: Vec<u8> = (1..=10).collect();
    let (chunks, state, error) = relay(vec![header(), filled(&payload), filled(&[])]);
    assert_eq!(chunks, vec![payload]);
    assert_eq!(state, EngineState::Done);
    assert_eq!(error, None);
}

#[test]
fn empty_payload_gives_no_chunk() {
    let (chunks, state, _) = relay(vec![header(), filled(&[])]);
    assert!(chunks.is_empty());
    assert_eq!(state, EngineState::Done);
}

#[test]
fn long_payload_is_relayed_in_order() {
    let payload: Vec<u8> = (0..70000u32).map(|i| (i % 251) as u8).collect();
    let (chunks, state, _) = relay(vec![
        header(),
        filled(&payload[..CHUNK_LEN]),
        filled(&payload[CHUNK_LEN..CHUNK_LEN + 100]),
        filled(&payload[CHUNK_LEN + 100..]),
        filled(&[]),
    ]);
    assert_eq!(chunks.len(), 3);
    assert!(chunks.iter().all(|c| !c.is_empty() && c.len() <= 65536));
    assert_eq!(chunks.concat(), payload);
    assert_eq!(state, EngineState::Done);
}

#[test]
fn short_source_is_a_truncated_header() {
    let (chunks, state, error) = relay(vec![ReadOutcome::UnexpectedEnd, filled(&[1, 2, 3])]);
    assert!(chunks.is_empty());
    assert_eq!(state, EngineState::Failed(DownloadError::TruncatedHeader));
    assert_eq!(error, Some(DownloadError::TruncatedHeader));

    let (chunks, _, error) = relay(vec![filled(&[9; 100]), filled(&[1, 2, 3])]);
    assert!(chunks.is_empty());
    assert_eq!(error, Some(DownloadError::TruncatedHeader));
}

#[test]
fn failed_header_read_is_a_stream_failure() {
    let (chunks, _, error) = relay(vec![ReadOutcome::Failed]);
    assert!(chunks.is_empty());
    assert_eq!(error, Some(DownloadError::StreamReadFailed));
}

#[test]
fn failure_at_chunk_two_keeps_two_chunks() {
    let (chunks, state, error) = relay(vec![
        header(),
        filled(&[1]),
        filled(&[2, 2]),
        ReadOutcome::Failed,
        filled(&[3, 3, 3]),
        filled(&[]),
    ]);
    assert_eq!(chunks, vec![vec![1], vec![2, 2]]);
    assert_eq!(state, EngineState::Failed(DownloadError::StreamReadFailed));
    assert_eq!(error, Some(DownloadError::StreamReadFailed));
}

#[test]
fn failure_at_first_chunk_emits_nothing() {
    let (chunks, _, error) = relay(vec![header(), ReadOutcome::UnexpectedEnd, filled(&[1])]);
    assert!(chunks.is_empty());
    assert_eq!(error, Some(DownloadError::StreamReadFailed));
}

#[test]
fn size_prefix_of_one_mebibyte() {
    let p = size_prefix(1_048_576);
    assert_eq!(p, 1_048_576u64.to_le_bytes().to_vec());
    assert_eq!(p, vec![0, 0, 16, 0, 0, 0, 0, 0]);
}

#[test]
fn size_prefix_is_little_endian() {
    assert_eq!(size_prefix(0x0102_0304_0506_0708), vec![8, 7, 6, 5, 4, 3, 2, 1]);
    assert_eq!(size_prefix(0), vec![0; 8]);
    assert_eq!(size_prefix(u64::MAX), vec![255; 8]);
}
