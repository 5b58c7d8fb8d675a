use vstd::prelude::*;

verus! {

/// Identifier of a catalog track: the 128-bit number behind its base62 form.
#[derive(Clone, Copy, Debug, PartialEq, Eq, Structural)]
pub struct TrackId {
    pub id: u128,
}

/// Identifier of one encoded rendition of a track (20 raw bytes).
#[derive(Clone, Copy, Debug, PartialEq, Eq)]
pub struct FileRef {
    pub bytes: [u8; 20],
}

/// Container and bitrate of an encoded rendition.
#[derive(Clone, Copy, Debug, PartialEq, Eq, Structural)]
pub enum Encoding {
    OggVorbis96,
    OggVorbis160,
    OggVorbis320,
    Mp3_256,
    Mp3_320,
    Mp3_160,
    Mp3_96,
    Mp3_160Enc,
    Mp4_128Dual,
    Other3,
    Aac160,
    Aac320,
    Mp4_128,
    Other5,
}

/// The one encoding that a download asks for.
pub const WANTED_ENCODING: Encoding = Encoding::OggVorbis320;

/// What the catalog says of one track.
#[derive(Debug)]
pub struct PlayableVariant {
    pub id: TrackId,
    pub available: bool,
    /// Other tracks that may stand in for this one, in order of preference.
    pub alternatives: Vec<TrackId>,
    /// The renditions of the track, one per encoding.
    pub files: Vec<(Encoding, FileRef)>,
}

impl PlayableVariant {
    /// No encoding occurs twice among the renditions.
    pub open spec fn wf(&self) -> bool {
        forall|i: int, j: int|
            0 <= i < j < self.files@.len() ==> #[trigger] self.files@[i].0 != #[trigger] self.files@[j].0
    }
}

/// The ways a download can fail.
#[derive(Clone, Copy, Debug, PartialEq, Eq, Structural)]
pub enum DownloadError {
    /// A malformed identifier or locator.
    InvalidInput,
    /// No session could be established.
    SessionError,
    /// The catalog could not be asked about a track.
    MetadataLookupFailed,
    /// Neither the track nor any of its alternatives is available.
    NoPlayableVariant,
    /// The track has no rendition in the wanted encoding.
    EncodingUnavailable(Encoding),
    /// The decryption key could not be obtained.
    KeyExchangeFailed,
    /// The encrypted file could not be opened.
    FileOpenFailed,
    /// The source ended inside the header.
    TruncatedHeader,
    /// A read failed while streaming.
    StreamReadFailed,
    /// Writing the output failed.
    OutputWriteFailed,
}

} // verus!
