use vstd::prelude::*;
use vstd::string::StringSliceAdditionalSpecFns;
use crate::model::{DownloadError, TrackId};

verus! {

/// Why a locator could not be turned into a catalog reference.
#[derive(Debug)]
pub enum WebClientError {
    /// The text is neither a `spotify:` URI nor a web player URL.
    InvalidUri(String),
    /// The URI names a kind of item that cannot be fetched.
    UnsupportedUri(String),
}

/// The kinds of catalog item that a URI can name.
#[derive(Clone, Copy, Debug, PartialEq, Eq, Structural)]
pub enum ItemKind {
    Track,
    Playlist,
    Album,
    Artist,
}

/// The parts of a parsed URL that locators are read from.
#[derive(Debug)]
pub struct UrlParts {
    /// The host, when the URL has one.
    pub host: Option<String>,
    /// The path split at `/`, when the URL can have a path.
    pub segments: Option<Vec<String>>,
}

/// `UrlParts` as plain sequences of characters.
pub type UrlView = (Option<Seq<char>>, Option<Seq<Seq<char>>>);

impl UrlParts {
    pub open spec fn view_parts(&self) -> UrlView {
        (
            match self.host {
                Some(h) => Some(h@),
                None => None,
            },
            match self.segments {
                Some(v) => Some(v@.map_values(|s: String| s@)),
                None => None,
            },
        )
    }
}

/// What parsing `s` as a URL gives: `None` when it is no URL, else its host
/// and its path segments.
pub uninterp spec fn url_parts_of(s: Seq<char>) -> Option<UrlView>;

/// Relies on url::Url::parse, and on Url::host_str and Url::path_segments of
/// its result: the result depends on the text alone.
#[verifier::external_body]
fn parse_url(s: &str) -> (r: Option<UrlParts>)
    ensures
        match r {
            Some(p) => url_parts_of(s@) == Some(p.view_parts()),
            None => url_parts_of(s@) is None,
        },
{
    url::Url::parse(s).ok().map(|u| UrlParts {
        host: u.host_str().map(|h| h.to_string()),
        segments: u.path_segments().map(|p| p.map(|x| x.to_string()).collect()),
    })
}

/// `s` begins with `p`.
pub open spec fn has_prefix(s: Seq<char>, p: Seq<char>) -> bool {
    s.len() >= p.len() && s.subrange(0, p.len() as int) == p
}

/// Relies on str::starts_with with a string pattern.
#[verifier::external_body]
fn starts_with(s: &str, p: &str) -> (r: bool)
    ensures
        r == has_prefix(s@, p@),
{
    s.starts_with(p)
}

/// The pieces of `s` between its `:` characters, in order; there is one more
/// piece than there are colons.
pub open spec fn colon_pieces(s: Seq<char>) -> Seq<Seq<char>>
    decreases s.len(),
{
    if s.len() == 0 {
        seq![Seq::empty()]
    } else {
        let prev = colon_pieces(s.drop_last());
        if s.last() == ':' {
            prev.push(Seq::empty())
        } else {
            prev.update(prev.len() - 1, prev.last().push(s.last()))
        }
    }
}

/// Relies on str::split with the pattern `:`, each piece copied out.
#[verifier::external_body]
fn split_colon(s: &str) -> (r: Vec<String>)
    ensures
        r@.map_values(|p: String| p@) == colon_pieces(s@),
{
    s.split(':').map(|p| p.to_string()).collect()
}

/// The URI that a web player URL with parts `url` names, if it names one.
pub open spec fn uri_of_url(url: Option<UrlView>) -> Option<Seq<char>> {
    match url {
        Some((Some(host), Some(segs))) => if host == "open.spotify.com"@ && segs.len() >= 2 {
            Some("spotify:"@ + segs[0] + ":"@ + segs[1])
        } else {
            None
        },
        _ => None,
    }
}

/// The URI that `uri` stands for: itself when it is already a URI with at
/// least a kind and an id, else what its URL form names.
pub open spec fn uri_of_locator(uri: Seq<char>, url: Option<UrlView>) -> Option<Seq<char>> {
    if has_prefix(uri, "spotify:"@) {
        if colon_pieces(uri).len() >= 3 {
            Some(uri)
        } else {
            None
        }
    } else {
        uri_of_url(url)
    }
}

/// Builds the URI that the parsed web player URL `url` names: `spotify:`,
/// the first path segment, `:`, the second one.
pub fn uri_from_url(uri: &str, url: Option<UrlParts>) -> (r: Result<String, WebClientError>)
    ensures
        match r {
            Ok(s) => uri_of_url(match url { Some(p) => Some(p.view_parts()), None => None }) == Some(s@),
            Err(WebClientError::InvalidUri(m)) => m@ == uri@
                && uri_of_url(match url { Some(p) => Some(p.view_parts()), None => None }) is None,
            Err(WebClientError::UnsupportedUri(_)) => false,
        },
{
    let invalid = WebClientError::InvalidUri(uri.to_owned());
    match url {
        Some(UrlParts { host: Some(host), segments: Some(segs) }) => {
            let web_host = "open.spotify.com".to_owned();
            if host == web_host && segs.len() >= 2 {
                let ghost sv = segs@.map_values(|s: String| s@);
                assert(sv[0] == segs@[0]@ && sv[1] == segs@[1]@);
                let mut out = "spotify:".to_owned();
                out.append(segs[0].as_str());
                out.append(":");
                out.append(segs[1].as_str());
                Ok(out)
            } else {
                Err(invalid)
            }
        },
        _ => Err(invalid),
    }
}

/// Turns a locator (a `spotify:` URI or a web player URL) into a URI.
pub fn parse_uri(uri: &str) -> (r: Result<String, WebClientError>)
    ensures
        match r {
            Ok(s) => uri_of_locator(uri@, url_parts_of(uri@)) == Some(s@),
            Err(WebClientError::InvalidUri(m)) => m@ == uri@ && uri_of_locator(uri@, url_parts_of(uri@)) is None,
            Err(WebClientError::UnsupportedUri(_)) => false,
        },
{
    if starts_with(uri, "spotify:") {
        let pieces = split_colon(uri);
        assert(pieces@.map_values(|p: String| p@).len() == pieces@.len());
        if pieces.len() < 3 {
            return Err(WebClientError::InvalidUri(uri.to_owned()));
        }
        return Ok(uri.to_owned());
    }
    let url = parse_url(uri);
    uri_from_url(uri, url)
}

/// The kind of item that the kind field `k` of a URI names.
pub open spec fn item_kind_of(k: Seq<char>) -> Option<ItemKind> {
    if k == "track"@ {
        Some(ItemKind::Track)
    } else if k == "playlist"@ {
        Some(ItemKind::Playlist)
    } else if k == "album"@ {
        Some(ItemKind::Album)
    } else if k == "artist"@ {
        Some(ItemKind::Artist)
    } else {
        None
    }
}

/// Reads the kind and the id out of a URI `scheme:kind:id`. The scheme is
/// not looked at.
pub fn classify_uri(uri: &str) -> (r: Result<(ItemKind, String), WebClientError>)
    ensures
        match r {
            Ok((kind, id)) => colon_pieces(uri@).len() >= 3
                && item_kind_of(colon_pieces(uri@)[1]) == Some(kind)
                && id@ == colon_pieces(uri@)[2],
            Err(WebClientError::InvalidUri(m)) => m@ == uri@ && colon_pieces(uri@).len() < 3,
            Err(WebClientError::UnsupportedUri(m)) => m@ == uri@ && colon_pieces(uri@).len() >= 3
                && item_kind_of(colon_pieces(uri@)[1]) is None,
        },
{
    let pieces = split_colon(uri);
    let ghost pv = pieces@.map_values(|p: String| p@);
    assert(pv.len() == pieces@.len());
    if pieces.len() < 3 {
        return Err(WebClientError::InvalidUri(uri.to_owned()));
    }
    assert(pv[1] == pieces@[1]@ && pv[2] == pieces@[2]@);
    let kind_text = &pieces[1];
    let kind = if *kind_text == "track".to_owned() {
        ItemKind::Track
    } else if *kind_text == "playlist".to_owned() {
        ItemKind::Playlist
    } else if *kind_text == "album".to_owned() {
        ItemKind::Album
    } else if *kind_text == "artist".to_owned() {
        ItemKind::Artist
    } else {
        return Err(WebClientError::UnsupportedUri(uri.to_owned()));
    };
    Ok((kind, pieces[2].clone()))
}

/// The value of a base62 digit: `0`-`9`, then `a`-`z`, then `A`-`Z`.
pub open spec fn base62_digit(b: u8) -> Option<int> {
    if 48 <= b <= 57 {
        Some(b - 48)
    } else if 97 <= b <= 122 {
        Some(b - 97 + 10)
    } else if 65 <= b <= 90 {
        Some(b - 65 + 36)
    } else {
        None
    }
}

/// Every byte of `bs` is a base62 digit.
pub open spec fn all_base62(bs: Seq<u8>) -> bool {
    forall|i: int| 0 <= i < bs.len() ==> #[trigger] base62_digit(bs[i]) is Some
}

/// The number that the digits `bs` write in base 62, most significant first.
pub open spec fn base62_value(bs: Seq<u8>) -> int
    decreases bs.len(),
{
    if bs.len() == 0 {
        0
    } else {
        base62_value(bs.drop_last()) * 62 + match base62_digit(bs.last()) {
            Some(d) => d,
            None => 0,
        }
    }
}

/// The largest track identifier plus one.
pub open spec fn id_bound() -> int {
    u128::MAX as int + 1
}

proof fn lemma_base62_prefix_le(bs: Seq<u8>, k: int)
    requires
        0 <= k <= bs.len(),
    ensures
        0 <= base62_value(bs.take(k)) <= base62_value(bs),
    decreases bs.len(),
{
    if k == bs.len() {
        assert(bs.take(k) =~= bs);
        if bs.len() > 0 {
            lemma_base62_prefix_le(bs.drop_last(), 0);
        } else {
            assert(bs.take(k).len() == 0);
        }
    } else {
        lemma_base62_prefix_le(bs.drop_last(), k);
        assert(bs.drop_last().take(k) =~= bs.take(k));
        let v = base62_value(bs.drop_last());
        let d = match base62_digit(bs.last()) {
            Some(d) => d,
            None => 0,
        };
        assert(d >= 0);
        assert(v <= v * 62 + d) by (nonlinear_arith)
            requires v >= 0, d >= 0;
    }
}

/// Reads a track identifier written as base62 digits. Fails with
/// `InvalidInput` on any other byte, and on a number that does not fit in
/// 128 bits.
pub fn parse_track_id(s: &str) -> (r: Result<TrackId, DownloadError>)
    ensures
        match r {
            Ok(t) => all_base62(s.spec_bytes()) && t.id == base62_value(s.spec_bytes()),
            Err(e) => e == DownloadError::InvalidInput
                && !(all_base62(s.spec_bytes()) && base62_value(s.spec_bytes()) < id_bound()),
        },
{
    let bytes = s.as_bytes();
    let ghost bs = s.spec_bytes();
    let mut acc: u128 = 0;
    let mut i: usize = 0;
    assert(bs.take(0).len() == 0);
    while i < bytes.len()
        invariant
            bytes@ == bs,
            bs == s.spec_bytes(),
            i <= bs.len(),
            all_base62(bs.take(i as int)),
            acc == base62_value(bs.take(i as int)),
        decreases bs.len() - i,
    {
        let c = bytes[i];
        let d: u128 = if 48 <= c && c <= 57 {
            (c - 48) as u128
        } else if 97 <= c && c <= 122 {
            (c - 97 + 10) as u128
        } else if 65 <= c && c <= 90 {
            (c - 65 + 36) as u128
        } else {
            return Err(DownloadError::InvalidInput);
        };
        let ghost next = bs.take(i + 1);
        proof {
            assert(next.drop_last() =~= bs.take(i as int));
            assert(next.last() == c);
        }
        let m = match acc.checked_mul(62) {
            Some(m) => m,
            None => {
                proof {
                    lemma_base62_prefix_le(bs, i + 1);
                }
                return Err(DownloadError::InvalidInput);
            },
        };
        let v = match m.checked_add(d) {
            Some(v) => v,
            None => {
                proof {
                    lemma_base62_prefix_le(bs, i + 1);
                }
                return Err(DownloadError::InvalidInput);
            },
        };
        proof {
            assert forall|j: int| 0 <= j < next.len() implies #[trigger] base62_digit(next[j]) is Some by {
                if j < i {
                    assert(next[j] == bs.take(i as int)[j]);
                }
            }
        }
        acc = v;
        i = i + 1;
    }
    assert(bs.take(i as int) =~= bs);
    Ok(TrackId { id: acc })
}

} // verus!
