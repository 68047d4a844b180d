//! Validation and normalization of reference video URLs.
//!
//! A video URL is accepted only when it is well formed and points at a
//! recognized video host. On success the URL is returned in a canonical
//! form: the short YouTube host is rewritten to the full watch URL, every
//! other recognized form is kept as given.

use vstd::prelude::*;

use crate::error::ListError;
use crate::text::starts_with;

verus! {

/// The canonical YouTube watch prefix.
pub open spec fn yt_watch_prefix() -> Seq<char> {
    "https://www.youtube.com/watch?v="@
}

/// The short YouTube host prefix.
pub open spec fn yt_short_prefix() -> Seq<char> {
    "https://youtu.be/"@
}

/// The Twitch video prefix.
pub open spec fn twitch_prefix() -> Seq<char> {
    "https://www.twitch.tv/videos/"@
}

/// The Vimeo video prefix.
pub open spec fn vimeo_prefix() -> Seq<char> {
    "https://vimeo.com/"@
}

/// Whether `url` is a well-formed URL of a recognized video host: one of the
/// recognized prefixes followed by a nonempty video identifier.
pub open spec fn is_recognized_video(url: Seq<char>) -> bool {
    ||| starts_with(url, yt_watch_prefix()) && url.len() > yt_watch_prefix().len()
    ||| starts_with(url, yt_short_prefix()) && url.len() > yt_short_prefix().len()
    ||| starts_with(url, twitch_prefix()) && url.len() > twitch_prefix().len()
    ||| starts_with(url, vimeo_prefix()) && url.len() > vimeo_prefix().len()
}

/// The canonical form of a recognized video URL: a short YouTube URL becomes
/// the full watch URL for the same video identifier; every other form is
/// already canonical.
pub open spec fn canonical_video(url: Seq<char>) -> Seq<char> {
    if starts_with(url, yt_short_prefix()) {
        yt_watch_prefix() + url.skip(yt_short_prefix().len() as int)
    } else {
        url
    }
}

/// A URL that starts with some other recognized prefix cannot also start
/// with the short YouTube prefix: the two disagree on the character after
/// `https://`.
proof fn lemma_other_prefix_not_short(url: Seq<char>, p: Seq<char>)
    requires
        p == yt_watch_prefix() || p == twitch_prefix() || p == vimeo_prefix(),
        starts_with(url, p),
    ensures
        !starts_with(url, yt_short_prefix()),
{
    reveal_strlit("https://youtu.be/");
    reveal_strlit("https://www.youtube.com/watch?v=");
    reveal_strlit("https://www.twitch.tv/videos/");
    reveal_strlit("https://vimeo.com/");
    assert(url.subrange(0, p.len() as int)[8] == url[8]);
    if starts_with(url, yt_short_prefix()) {
        assert(url.subrange(0, yt_short_prefix().len() as int)[8] == url[8]);
        assert(false);
    }
}

/// Validates a proposed video URL and returns its canonical form, or
/// `InvalidFormat` when the URL is not a well-formed, recognized video-host
/// URL.
pub fn validate(url: &str) -> (r: Result<String, ListError>)
    ensures
        r is Ok <==> is_recognized_video(url@),
        (r matches Ok(v) ==> v@ == canonical_video(url@)),
        (r matches Err(e) ==> e == ListError::InvalidFormat),
{
    let len = url.unicode_len();
    let short = "https://youtu.be/";
    if crate::text::str_starts_with(url, short) && len > short.unicode_len() {
        let id = url.substring_char(short.unicode_len(), len);
        let mut out = String::from_str("https://www.youtube.com/watch?v=");
        out.append(id);
        proof {
            assert(out@ =~= canonical_video(url@));
        }
        return Ok(out);
    }
    let watch = "https://www.youtube.com/watch?v=";
    if crate::text::str_starts_with(url, watch) && len > watch.unicode_len() {
        proof {
            lemma_other_prefix_not_short(url@, yt_watch_prefix());
        }
        return Ok(String::from_str(url));
    }
    let twitch = "https://www.twitch.tv/videos/";
    if crate::text::str_starts_with(url, twitch) && len > twitch.unicode_len() {
        proof {
            lemma_other_prefix_not_short(url@, twitch_prefix());
        }
        return Ok(String::from_str(url));
    }
    let vimeo = "https://vimeo.com/";
    if crate::text::str_starts_with(url, vimeo) && len > vimeo.unicode_len() {
        proof {
            lemma_other_prefix_not_short(url@, vimeo_prefix());
        }
        return Ok(String::from_str(url));
    }
    Err(ListError::InvalidFormat)
}

} // verus!
