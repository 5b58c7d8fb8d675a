use vstd::prelude::*;
use crate::model::{DownloadError, Encoding, FileRef, PlayableVariant};

verus! {

/// `i` is the first position of `files` that holds `wanted`.
pub open spec fn is_first_match(files: Seq<(Encoding, FileRef)>, wanted: Encoding, i: int) -> bool {
    &&& 0 <= i < files.len()
    &&& files[i].0 == wanted
    &&& forall|j: int| 0 <= j < i ==> #[trigger] files[j].0 != wanted
}

/// The rendition of `files` in encoding `wanted`, if there is one.
pub open spec fn selected(files: Seq<(Encoding, FileRef)>, wanted: Encoding) -> Option<FileRef> {
    if exists|i: int| is_first_match(files, wanted, i) {
        Some(files[choose|i: int| is_first_match(files, wanted, i)].1)
    } else {
        None
    }
}

/// What selecting `wanted` among `files` gives.
pub open spec fn selection_result(files: Seq<(Encoding, FileRef)>, wanted: Encoding) -> Result<FileRef, DownloadError> {
    match selected(files, wanted) {
        Some(f) => Ok(f),
        None => Err(DownloadError::EncodingUnavailable(wanted)),
    }
}

proof fn lemma_first_match_unique(files: Seq<(Encoding, FileRef)>, wanted: Encoding, i: int, k: int)
    requires
        is_first_match(files, wanted, i),
        is_first_match(files, wanted, k),
    ensures
        i == k,
{
    if i < k {
        assert(files[i].0 != wanted);
    } else if k < i {
        assert(files[k].0 != wanted);
    }
}

/// The file of `variant` in encoding `wanted`; there is no fallback to
/// another encoding.
pub fn select_file(variant: &PlayableVariant, wanted: Encoding) -> (r: Result<FileRef, DownloadError>)
    ensures
        r == selection_result(variant.files@, wanted),
        r is Err <==> forall|i: int| 0 <= i < variant.files@.len() ==> #[trigger] variant.files@[i].0 != wanted,
{
    let n = variant.files.len();
    let mut i: usize = 0;
    while i < n
        invariant
            n == variant.files@.len(),
            i <= n,
            forall|j: int| 0 <= j < i ==> #[trigger] variant.files@[j].0 != wanted,
        decreases n - i,
    {
        if variant.files[i].0 == wanted {
            let f = variant.files[i].1;
            proof {
                let ii = i as int;
                assert(is_first_match(variant.files@, wanted, ii));
                let c = choose|k: int| is_first_match(variant.files@, wanted, k);
                lemma_first_match_unique(variant.files@, wanted, ii, c);
            }
            return Ok(f);
        }
        i = i + 1;
    }
    Err(DownloadError::EncodingUnavailable(wanted))
}

/// Selection depends on the renditions and the wanted encoding alone: two
/// variants with the same renditions give the same file or the same failure.
pub proof fn lemma_selection_is_pure(a: PlayableVariant, b: PlayableVariant, wanted: Encoding)
    requires
        a.files@ == b.files@,
    ensures
        selection_result(a.files@, wanted) == selection_result(b.files@, wanted),
{
}

/// A variant without a rendition in the wanted encoding gives
/// `EncodingUnavailable` for that encoding.
pub proof fn lemma_absent_encoding_unavailable(v: PlayableVariant, wanted: Encoding)
    requires
        forall|i: int| 0 <= i < v.files@.len() ==> #[trigger] v.files@[i].0 != wanted,
    ensures
        selection_result(v.files@, wanted) == Err::<FileRef, DownloadError>(DownloadError::EncodingUnavailable(wanted)),
{
}

} // verus!
