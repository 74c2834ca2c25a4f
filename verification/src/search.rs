//! The search box of the file list: which files a filter text keeps.
use vstd::prelude::*;

use crate::model::is_infix;
use crate::scanner::{lowercase, lowercase_text};
use crate::text::{trim, trim_text};

verus! {

/// Whether `needle` occurs in `hay`.
pub fn text_contains(hay: &str, needle: &str) -> (r: bool)
    ensures
        r == is_infix(needle@, hay@),
{
    let n = hay.unicode_len();
    let m = needle.unicode_len();
    if m > n {
        return false;
    }
    let mut i: usize = 0;
    while i <= n - m
        invariant
            n == hay@.len(),
            m == needle@.len(),
            m <= n,
            i <= n - m + 1,
            forall|j: int| 0 <= j < i ==> #[trigger] hay@.subrange(j, j + m) != needle@,
        decreases n - m + 1 - i,
    {
        let mut k: usize = 0;
        while k < m && hay.get_char(i + k) == needle.get_char(k)
            invariant
                n == hay@.len(),
                m == needle@.len(),
                i + m <= n,
                k <= m,
                forall|q: int| 0 <= q < k ==> hay@[i + q] == needle@[q],
            decreases m - k,
        {
            k = k + 1;
        }
        if k == m {
            assert(hay@.subrange(i as int, i + m) =~= needle@);
            return true;
        }
        assert(hay@.subrange(i as int, i + m)[k as int] != needle@[k as int]);
        i = i + 1;
    }
    assert forall|j: int| 0 <= j && j + needle@.len() <= hay@.len() implies #[trigger] hay@.subrange(
        j,
        j + needle@.len(),
    ) != needle@ by {
        assert(j < i);
    }
    false
}

/// Whether the search text `filter` keeps a file: the filter, trimmed and in
/// lower case, is empty or occurs in the lower-case form of the file's
/// title, artist, album and name joined by spaces.
pub open spec fn filter_keeps(
    title: Seq<char>,
    artist: Seq<char>,
    album: Seq<char>,
    name: Seq<char>,
    filter: Seq<char>,
) -> bool {
    let f = lowercase(trim(filter));
    f.len() == 0 || is_infix(
        f,
        lowercase(title + " "@ + artist + " "@ + album + " "@ + name),
    )
}

/// Whether the search text `filter` keeps a file with this title, artist,
/// album and name.
pub fn matches_filter(title: &str, artist: &str, album: &str, name: &str, filter: &str) -> (r: bool)
    ensures
        r == filter_keeps(title@, artist@, album@, name@, filter@),
{
    let trimmed = trim_text(filter);
    let f = lowercase_text(trimmed.as_str());
    if f.unicode_len() == 0 {
        return true;
    }
    proof {
        reveal_strlit(" ");
    }
    let mut hay = String::from_str(title);
    hay.append(" ");
    hay.append(artist);
    hay.append(" ");
    hay.append(album);
    hay.append(" ");
    hay.append(name);
    assert(hay@ =~= title@ + " "@ + artist@ + " "@ + album@ + " "@ + name@);
    let h = lowercase_text(hay.as_str());
    text_contains(h.as_str(), f.as_str())
}

} // verus!

verus! {

/// The search box searches the lower-case form of the title, artist, album
/// and name joined by single spaces: a blank filter keeps every file, and
/// otherwise a file is kept exactly when the trimmed lower-case filter
/// occurs in that text; in particular a filter that is that whole text
/// keeps the file.
pub proof fn lemma_filter_searches_joined_fields(
    title: Seq<char>,
    artist: Seq<char>,
    album: Seq<char>,
    name: Seq<char>,
    filter: Seq<char>,
)
    ensures
        lowercase(trim(filter)).len() == 0 ==> filter_keeps(title, artist, album, name, filter),
        lowercase(trim(filter)).len() != 0 ==> (filter_keeps(title, artist, album, name, filter)
            <==> is_infix(
            lowercase(trim(filter)),
            lowercase(title + seq![' '] + artist + seq![' '] + album + seq![' '] + name),
        )),
        lowercase(trim(filter)) == lowercase(
            title + seq![' '] + artist + seq![' '] + album + seq![' '] + name,
        ) ==> filter_keeps(title, artist, album, name, filter),
{
    reveal_strlit(" ");
    let joined = title + seq![' '] + artist + seq![' '] + album + seq![' '] + name;
    assert(title + " "@ + artist + " "@ + album + " "@ + name =~= joined);
    let l = lowercase(joined);
    assert(l.subrange(0, 0 + l.len() as int) =~= l);
    assert(is_infix(l, l));
}

} // verus!
