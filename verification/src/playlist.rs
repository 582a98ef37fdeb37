//! Playlist indirection: extracting the first playable URL from a playlist body.
//!
//! A station URL ending in `.m3u`, `.m3u8` or `.pls` points at a playlist
//! whose body must be fetched and scanned line by line: blank lines and
//! comment lines starting with `#` are skipped, and the first trimmed line
//! that starts with `http` is the stream URL.

use vstd::prelude::*;

use crate::error::AlastorError;
use crate::text::{is_prefix, is_suffix, str_ends_with};

verus! {

/// The Unicode whitespace characters that trimming removes, as
/// `str::trim` defines them (the White_Space property).
pub open spec fn is_space(c: char) -> bool {
    ||| c == ' '
    ||| c == '\t'
    ||| c == '\n'
    ||| c == '\u{0B}'
    ||| c == '\u{0C}'
    ||| c == '\r'
    ||| c == '\u{85}'
    ||| c == '\u{A0}'
    ||| c == '\u{1680}'
    ||| c == '\u{2000}'
    ||| c == '\u{2001}'
    ||| c == '\u{2002}'
    ||| c == '\u{2003}'
    ||| c == '\u{2004}'
    ||| c == '\u{2005}'
    ||| c == '\u{2006}'
    ||| c == '\u{2007}'
    ||| c == '\u{2008}'
    ||| c == '\u{2009}'
    ||| c == '\u{200A}'
    ||| c == '\u{2028}'
    ||| c == '\u{2029}'
    ||| c == '\u{202F}'
    ||| c == '\u{205F}'
    ||| c == '\u{3000}'
}

/// Whether trimming removes this character.
pub fn char_is_space(c: char) -> (r: bool)
    ensures
        r == is_space(c),
{
    match c {
        ' ' | '\t' | '\n' | '\u{0B}' | '\u{0C}' | '\r' | '\u{85}' | '\u{A0}' | '\u{1680}'
            | '\u{2000}' | '\u{2001}' | '\u{2002}' | '\u{2003}' | '\u{2004}' | '\u{2005}'
            | '\u{2006}' | '\u{2007}' | '\u{2008}' | '\u{2009}' | '\u{200A}' | '\u{2028}'
            | '\u{2029}' | '\u{202F}' | '\u{205F}' | '\u{3000}' => true,
        _ => false,
    }
}

/// The first position at or after `i` holding a line break, or the length.
pub open spec fn line_break(s: Seq<char>, i: int) -> int
    decreases s.len() - i,
{
    if i >= s.len() {
        s.len() as int
    } else if s[i] == '\n' {
        i
    } else {
        line_break(s, i + 1)
    }
}

/// `line_break` stays between its start and the length.
proof fn lemma_line_break_bounds(s: Seq<char>, i: int)
    requires
        0 <= i <= s.len(),
    ensures
        i <= line_break(s, i) <= s.len(),
    decreases s.len() - i,
{
    if i < s.len() && s[i] != '\n' {
        lemma_line_break_bounds(s, i + 1);
    }
}

/// `line_break` is the first break: nothing before `end` is one, and `end`
/// is one or the length.
proof fn lemma_line_break_exact(s: Seq<char>, start: int, end: int)
    requires
        0 <= start <= end <= s.len(),
        forall|k: int| start <= k < end ==> s[k] != '\n',
        end == s.len() || s[end] == '\n',
    ensures
        line_break(s, start) == end,
    decreases end - start,
{
    if start < end {
        lemma_line_break_exact(s, start + 1, end);
    }
}

/// The first position in `[i, end)` holding a non-space, or `end`.
pub open spec fn skip_spaces(s: Seq<char>, i: int, end: int) -> int
    decreases end - i,
{
    if i >= end {
        end
    } else if is_space(s[i]) {
        skip_spaces(s, i + 1, end)
    } else {
        i
    }
}

/// `skip_spaces` lands exactly where the scan stops.
proof fn lemma_skip_spaces_exact(s: Seq<char>, start: int, b: int, end: int)
    requires
        0 <= start <= b <= end,
        forall|k: int| start <= k < b ==> is_space(s[k]),
        b == end || !is_space(s[b]),
    ensures
        skip_spaces(s, start, end) == b,
    decreases b - start,
{
    if start < b {
        lemma_skip_spaces_exact(s, start + 1, b, end);
    }
}

/// The end of the slice `[from, j)` with trailing spaces dropped.
pub open spec fn drop_trailing_spaces(s: Seq<char>, from: int, j: int) -> int
    decreases j - from,
{
    if j <= from {
        from
    } else if is_space(s[j - 1]) {
        drop_trailing_spaces(s, from, j - 1)
    } else {
        j
    }
}

/// `drop_trailing_spaces` lands exactly where the scan stops.
proof fn lemma_drop_trailing_exact(s: Seq<char>, from: int, e: int, j: int)
    requires
        from <= e <= j,
        forall|k: int| e <= k < j ==> is_space(s[k]),
        e == from || !is_space(s[e - 1]),
    ensures
        drop_trailing_spaces(s, from, j) == e,
    decreases j - e,
{
    if e < j {
        lemma_drop_trailing_exact(s, from, e, j - 1);
    }
}

/// The slice `[start, end)` of `s` with leading and trailing whitespace removed.
pub open spec fn trim_range(s: Seq<char>, start: int, end: int) -> Seq<char> {
    let b = skip_spaces(s, start, end);
    let e = drop_trailing_spaces(s, b, end);
    s.subrange(b, e)
}

/// The four characters every playable line starts with.
pub open spec fn http_prefix() -> Seq<char> {
    seq!['h', 't', 't', 'p']
}

/// A trimmed line that names a stream: non-blank, no `#` comment marker,
/// and starting with `http`.
pub open spec fn is_stream_line(t: Seq<char>) -> bool {
    t.len() > 0 && t[0] != '#' && is_prefix(http_prefix(), t)
}

/// The first stream line of the body at or after `start`, trimmed.
pub open spec fn extract_from(s: Seq<char>, start: int) -> Option<Seq<char>>
    decreases s.len() - start + 1,
    via extract_from_decreases
{
    if start < 0 || start > s.len() {
        None
    } else {
        let end = line_break(s, start);
        let t = trim_range(s, start, end);
        if is_stream_line(t) {
            Some(t)
        } else {
            extract_from(s, end + 1)
        }
    }
}

#[via_fn]
proof fn extract_from_decreases(s: Seq<char>, start: int) {
    if 0 <= start <= s.len() {
        lemma_line_break_bounds(s, start);
    }
}

/// Scans a playlist body for the first trimmed line that is not blank, is
/// no `#` comment, and starts with `http`.
pub fn extract_stream_url(body: &str) -> (r: Option<String>)
    ensures
        (r is Some <==> extract_from(body@, 0) is Some),
        r matches Some(u) ==> extract_from(body@, 0) matches Some(t) && u@ == t,
{
    proof {
        reveal_strlit("http");
        assert("http"@ =~= http_prefix());
    }
    let n = body.unicode_len();
    let mut start: usize = 0;
    while start < n
        invariant
            n == body@.len(),
            0 <= start <= n,
            extract_from(body@, 0) == extract_from(body@, start as int),
            "http"@ == http_prefix(),
        decreases n - start,
    {
        let ghost s = body@;
        // The end of the current line.
        let mut end: usize = start;
        while end < n && body.get_char(end) != '\n'
            invariant
                n == s.len(),
                s == body@,
                start <= end <= n,
                forall|k: int| start <= k < end ==> s[k] != '\n',
            decreases n - end,
        {
            end += 1;
        }
        proof {
            lemma_line_break_exact(s, start as int, end as int);
        }
        // Trim the line.
        let mut b: usize = start;
        while b < end && char_is_space(body.get_char(b))
            invariant
                n == s.len(),
                s == body@,
                start <= b <= end <= n,
                forall|k: int| start <= k < b ==> is_space(s[k]),
            decreases end - b,
        {
            b += 1;
        }
        proof {
            lemma_skip_spaces_exact(s, start as int, b as int, end as int);
        }
        let mut e: usize = end;
        while e > b && char_is_space(body.get_char(e - 1))
            invariant
                n == s.len(),
                s == body@,
                b <= e <= end <= n,
                forall|k: int| e <= k < end ==> is_space(s[k]),
            decreases e,
        {
            e -= 1;
        }
        proof {
            lemma_drop_trailing_exact(s, b as int, e as int, end as int);
            assert(trim_range(s, start as int, end as int) == s.subrange(b as int, e as int));
        }
        let ghost t = trim_range(s, start as int, end as int);
        // Does the trimmed line name a stream?
        if e - b >= 4 && body.get_char(b) != '#' && body.get_char(b) == 'h' && body.get_char(b + 1)
            == 't' && body.get_char(b + 2) == 't' && body.get_char(b + 3) == 'p' {
            proof {
                assert(t[0] == s[b as int]);
                assert(t.subrange(0, 4) =~= http_prefix());
                assert(is_stream_line(t));
            }
            let line = body.substring_char(b, e);
            return Some(line.to_owned());
        }
        proof {
            if t.len() > 0 && t[0] != '#' && t.len() >= 4 {
                assert(t[0] == s[b as int]);
                assert(t[1] == s[b + 1]);
                assert(t[2] == s[b + 2]);
                assert(t[3] == s[b + 3]);
                if is_prefix(http_prefix(), t) {
                    assert(t.subrange(0, 4) == http_prefix());
                    assert(t.subrange(0, 4)[0] == 'h' && t.subrange(0, 4)[1] == 't' && t.subrange(
                        0,
                        4,
                    )[2] == 't' && t.subrange(0, 4)[3] == 'p');
                }
            }
            assert(!is_stream_line(t));
        }
        if end >= n {
            proof {
                assert(extract_from(s, start as int) == extract_from(s, end + 1));
                assert(extract_from(s, end + 1) is None);
            }
            return None;
        }
        start = end + 1;
    }
    proof {
        let s = body@;
        assert(line_break(s, start as int) == s.len());
        assert(skip_spaces(s, start as int, s.len() as int) == s.len());
        assert(drop_trailing_spaces(s, s.len() as int, s.len() as int) == s.len());
        assert(trim_range(s, start as int, s.len() as int).len() == 0);
        assert(extract_from(s, s.len() as int + 1) is None);
        assert(extract_from(s, start as int) is None);
    }
    None
}

/// Whether a station URL points at a playlist that must be resolved first:
/// it ends in `.m3u`, `.m3u8` or `.pls` (case-sensitive).
pub open spec fn is_playlist_url(u: Seq<char>) -> bool {
    ||| is_suffix(seq!['.', 'm', '3', 'u'], u)
    ||| is_suffix(seq!['.', 'm', '3', 'u', '8'], u)
    ||| is_suffix(seq!['.', 'p', 'l', 's'], u)
}

/// Whether the URL needs playlist resolution before playback.
pub fn needs_playlist_resolution(url: &str) -> (r: bool)
    ensures
        r == is_playlist_url(url@),
{
    proof {
        reveal_strlit(".m3u");
        reveal_strlit(".m3u8");
        reveal_strlit(".pls");
        assert(".m3u"@ =~= seq!['.', 'm', '3', 'u']);
        assert(".m3u8"@ =~= seq!['.', 'm', '3', 'u', '8']);
        assert(".pls"@ =~= seq!['.', 'p', 'l', 's']);
    }
    let a = str_ends_with(url, ".m3u");
    let b = str_ends_with(url, ".m3u8");
    let c = str_ends_with(url, ".pls");
    a || b || c
}

/// The outcome of playlist resolution once the body (or the fetch failure)
/// is in hand: the first stream line of the body, or `StreamUnavailable`
/// naming the playlist URL when the fetch failed or no line qualifies.
pub fn resolve_playlist_body(playlist_url: &str, body: Option<&str>) -> (r: Result<
    String,
    AlastorError,
>)
    ensures
        body matches Some(s) ==> {
            &&& (r is Ok <==> extract_from(s@, 0) is Some)
            &&& (r matches Ok(u) ==> extract_from(s@, 0) matches Some(t) && u@ == t)
        },
        body is None ==> r is Err,
        r matches Err(e) ==> e matches AlastorError::StreamUnavailable { url } && url@
            == playlist_url@,
{
    match body {
        Some(s) => match extract_stream_url(s) {
            Some(u) => Ok(u),
            None => Err(AlastorError::StreamUnavailable { url: playlist_url.to_owned() }),
        },
        None => Err(AlastorError::StreamUnavailable { url: playlist_url.to_owned() }),
    }
}

} // verus!
