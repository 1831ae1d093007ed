//! Reading songs out of what the providers return: the title of a Spotify
//! track page, the links to try for a Spotify playlist, the search queries
//! built from its tracks, the links `yt-dlp` lists for a playlist, and how a
//! requested song is looked up.

use vstd::prelude::*;
use vstd::string::*;
use crate::text::{
    chars_eq, chars_of, contains_seq, contains_str, find_chars, find_spec, is_whitespace, is_ws,
    occurs_at, push_all, push_str, replace_spec, replace_str, starts_with, starts_with_str,
    string_of, sub_chars, trim_chars, trim_seq,
};
use crate::timestamp::{split_chars, split_on};
use crate::handlers::{SongMetadata, TrackLength};

verus! {

broadcast use vstd::string::group_string_axioms;

/// The title of a Spotify track page `html`: the text between the first
/// `<title>` and the first `</title>` after it, without the decorations
/// " - song and lyrics by" and " | Spotify".
pub open spec fn spotify_title_spec(html: Seq<char>) -> Option<Seq<char>> {
    match find_spec(html, "<title>"@) {
        None => None,
        Some(start) => {
            let rest = html.skip(start + 7int);
            match find_spec(rest, "</title>"@) {
                None => None,
                Some(end) => Some(
                    replace_spec(
                        replace_spec(rest.take(end as int), " - song and lyrics by"@, Seq::empty()),
                        " | Spotify"@,
                        Seq::empty(),
                    ),
                ),
            }
        },
    }
}

/// The text between the first `<title>` of `cs` and the first `</title>`
/// after it.
fn title_text(cs: &[char]) -> (r: Option<Vec<char>>)
    ensures
        match r {
            Some(t) => find_spec(cs@, "<title>"@) matches Some(start) && find_spec(
                cs@.skip(start + 7int),
                "</title>"@,
            ) matches Some(end) && t@ == cs@.skip(start + 7int).take(end as int),
            None => find_spec(cs@, "<title>"@) is None || (find_spec(cs@, "<title>"@) matches Some(
                start,
            ) && find_spec(cs@.skip(start + 7int), "</title>"@) is None),
        },
{
    assert("<title>"@.len() == 7) by {
        reveal_strlit("<title>");
    }
    let open = chars_of("<title>");
    let close = chars_of("</title>");
    let n = cs.len();
    let start = match find_chars(cs, open.as_slice()) {
        Some(s) => s,
        None => return None,
    };
    let rest = sub_chars(cs, start + 7, cs.len());
    assert(rest@ == cs@.skip(start + 7int));
    let end = match find_chars(rest.as_slice(), close.as_slice()) {
        Some(e) => e,
        None => return None,
    };
    let title = sub_chars(rest.as_slice(), 0, end);
    assert(title@ == rest@.take(end as int));
    Some(title)
}

/// The title of a Spotify track page, or the error when it has none.
pub fn spotify_title(html: &str) -> (r: Result<String, String>)
    ensures
        match r {
            Ok(t) => spotify_title_spec(html@) == Some(t@),
            Err(e) => spotify_title_spec(html@) is None && e@
                == "failed to get extract the song title"@,
        },
{
    assert(" - song and lyrics by"@.len() > 0) by {
        reveal_strlit(" - song and lyrics by");
    }
    assert(" | Spotify"@.len() > 0) by {
        reveal_strlit(" | Spotify");
    }
    assert(""@ == Seq::<char>::empty()) by {
        reveal_strlit("");
    }
    let cs = chars_of(html);
    match title_text(cs.as_slice()) {
        None => Err(String::from_str("failed to get extract the song title")),
        Some(title) => {
            assert(cs@ == html@);
            let ghost start = find_spec(html@, "<title>"@)->Some_0;
            let ghost end = find_spec(html@.skip(start + 7int), "</title>"@)->Some_0;
            assert(title@ == html@.skip(start + 7int).take(end as int));
            let a = replace_str(title.as_slice(), " - song and lyrics by", "");
            let b = replace_str(a.as_slice(), " | Spotify", "");
            Ok(string_of(b.as_slice()))
        },
    }
}

/// The part of `s` before its first `c` (all of it when there is none).
pub open spec fn before_char(s: Seq<char>, c: char) -> Seq<char> {
    split_on(s, c)[0]
}

/// `s` without its trailing `c`s.
pub open spec fn trim_end_char(s: Seq<char>, c: char) -> Seq<char>
    decreases s.len(),
{
    if s.len() > 0 && s.last() == c {
        trim_end_char(s.drop_last(), c)
    } else {
        s
    }
}

/// The cleaned link of a Spotify playlist: without its query and trailing
/// slashes.
pub open spec fn clean_spotify_url(url: Seq<char>) -> Seq<char> {
    trim_end_char(before_char(url, '?'), '/')
}

/// The embed page of a cleaned Spotify link: itself when it already is one.
pub open spec fn embed_spotify_url(clean: Seq<char>) -> Seq<char> {
    if contains_seq(clean, "/embed/"@) {
        clean
    } else {
        replace_spec(clean, "open.spotify.com/"@, "open.spotify.com/embed/"@)
    }
}

/// The pages to fetch for a Spotify playlist link, in the order to try
/// them: its embed page, then the cleaned link itself.
pub fn spotify_page_candidates(url: &str) -> (r: (String, String))
    ensures
        r.0@ == embed_spotify_url(clean_spotify_url(url@)),
        r.1@ == clean_spotify_url(url@),
{
    let cs = chars_of(url);
    let parts = split_chars(cs.as_slice(), '?');
    proof {
        crate::timestamp::lemma_split_on_nonempty(cs@, '?');
        assert(parts.deep_view().len() == parts@.len());
        assert(parts@[0]@ == parts.deep_view()[0]);
    }
    let first = &parts[0];
    let mut end = first.len();
    assert(first@.take(end as int) == first@);
    while end > 0 && first[end - 1] == '/'
        invariant
            end <= first@.len(),
            trim_end_char(first@, '/') == trim_end_char(first@.take(end as int), '/'),
        decreases end,
    {
        assert(first@.take(end as int).drop_last() == first@.take(end - 1));
        end -= 1;
    }
    let clean = sub_chars(first.as_slice(), 0, end);
    assert(clean@ == first@.take(end as int));
    let embed: Vec<char> = if contains_str(clean.as_slice(), "/embed/") {
        sub_chars(clean.as_slice(), 0, clean.len())
    } else {
        assert("open.spotify.com/"@.len() > 0) by {
            reveal_strlit("open.spotify.com/");
        }
        replace_str(clean.as_slice(), "open.spotify.com/", "open.spotify.com/embed/")
    };
    assert(clean@.subrange(0, clean@.len() as int) == clean@);
    (string_of(embed.as_slice()), string_of(clean.as_slice()))
}

/// The search query for a track with `title` by `artist` (both trimmed):
/// none when either is empty or the title is just "Spotify".
pub open spec fn query_for(title: Seq<char>, artist: Seq<char>) -> Option<Seq<char>> {
    let t = trim_seq(title);
    let a = trim_seq(artist);
    if t.len() == 0 || a.len() == 0 || t == "Spotify"@ {
        None
    } else {
        Some("spotifysearch:"@ + t + seq![' '] + a)
    }
}

/// Whether no two items of `s` are equal.
pub open spec fn no_duplicates(s: Seq<Seq<char>>) -> bool {
    forall|i: int, j: int| 0 <= i < j < s.len() ==> s[i] != s[j]
}

/// The search queries gathered from a Spotify playlist page, each once, in
/// the order first found.
pub struct SpotifyQueries {
    pub queries: Vec<String>,
}

impl SpotifyQueries {
    /// The gathered queries.
    pub open spec fn view_queries(&self) -> Seq<Seq<char>> {
        self.queries@.map_values(|q: String| q@)
    }

    /// No queries yet.
    pub fn new() -> (r: Self)
        ensures
            r.view_queries() == Seq::<Seq<char>>::empty(),
    {
        let r = SpotifyQueries { queries: Vec::new() };
        assert(r.view_queries() =~= Seq::<Seq<char>>::empty());
        r
    }

    /// Adds the query for the track `title` by `artist`, unless there is none
    /// for it or it was already gathered; the queries stay free of duplicates.
    pub fn push_query(&mut self, title: &str, artist: &str)
        requires
            no_duplicates(old(self).view_queries()),
        ensures
            no_duplicates(final(self).view_queries()),
            final(self).view_queries() == match query_for(title@, artist@) {
                Some(q) => if old(self).view_queries().contains(q) {
                    old(self).view_queries()
                } else {
                    old(self).view_queries().push(q)
                },
                None => old(self).view_queries(),
            },
    {
        let tc = chars_of(title);
        let ac = chars_of(artist);
        let t = trim_chars(tc.as_slice());
        let a = trim_chars(ac.as_slice());
        let spotify = chars_of("Spotify");
        if t.len() == 0 || a.len() == 0 || chars_eq(t.as_slice(), spotify.as_slice()) {
            return;
        }
        let mut q: Vec<char> = Vec::new();
        push_str(&mut q, "spotifysearch:");
        push_all(&mut q, t.as_slice());
        q.push(' ');
        push_all(&mut q, a.as_slice());
        assert(q@ =~= "spotifysearch:"@ + t@ + seq![' '] + a@);
        let ghost qs = self.view_queries();
        let mut i: usize = 0;
        while i < self.queries.len()
            invariant
                i <= self.queries@.len(),
                qs == self.view_queries(),
                qs == old(self).view_queries(),
                *self == *old(self),
                no_duplicates(qs),
                query_for(title@, artist@) == Some(q@),
                forall|k: int| 0 <= k < i ==> qs[k] != q@,
            decreases self.queries@.len() - i,
        {
            let e = chars_of(self.queries[i].as_str());
            if chars_eq(e.as_slice(), q.as_slice()) {
                assert(qs[i as int] == q@);
                return;
            }
            i += 1;
        }
        assert(!qs.contains(q@));
        self.queries.push(string_of(q.as_slice()));
        assert(self.view_queries() =~= qs.push(q@));
    }
}

/// Of the lines of `text` (trimmed), those that are links (start with
/// `http`), in order.
pub open spec fn links_in(lines: Seq<Seq<char>>) -> Seq<Seq<char>>
    decreases lines.len(),
{
    if lines.len() == 0 {
        Seq::empty()
    } else {
        let rest = links_in(lines.drop_last());
        let l = trim_seq(lines.last());
        if starts_with(l, "http"@) {
            rest.push(l)
        } else {
            rest
        }
    }
}

/// The links that `yt-dlp --flat-playlist --print webpage_url` printed: its
/// output lines, trimmed, that start with `http`.
pub fn playlist_links(output: &str) -> (r: Vec<String>)
    ensures
        r@.map_values(|l: String| l@) == links_in(split_on(output@, '\n')),
{
    let cs = chars_of(output);
    let lines = split_chars(cs.as_slice(), '\n');
    let ghost ls = lines.deep_view();
    let mut r: Vec<String> = Vec::new();
    let mut i: usize = 0;
    while i < lines.len()
        invariant
            i <= lines@.len(),
            ls == lines.deep_view(),
            ls == split_on(output@, '\n'),
            r@.map_values(|l: String| l@) == links_in(ls.take(i as int)),
        decreases lines@.len() - i,
    {
        assert(ls.take(i + 1).drop_last() == ls.take(i as int));
        assert(ls.take(i + 1).last() == lines@[i as int]@);
        let l = trim_chars(lines[i].as_slice());
        if starts_with_str(l.as_slice(), "http") {
            let ghost before = r@.map_values(|l: String| l@);
            r.push(string_of(l.as_slice()));
            assert(r@.map_values(|l: String| l@) =~= before.push(l@));
        }
        i += 1;
    }
    assert(ls.take(ls.len() as int) == ls);
    r
}

/// Whether a requested song is a playlist link (`list=`, `/sets/` or
/// `/playlist/` in it).
pub open spec fn is_playlist_spec(song: Seq<char>) -> bool {
    contains_seq(song, "list="@) || contains_seq(song, "/sets/"@) || contains_seq(song, "/playlist/"@)
}

/// Whether a requested song is a playlist link.
pub fn is_playlist_link(song: &str) -> (r: bool)
    ensures
        r == is_playlist_spec(song@),
{
    let cs = chars_of(song);
    contains_str(cs.as_slice(), "list=") || contains_str(cs.as_slice(), "/sets/") || contains_str(
        cs.as_slice(),
        "/playlist/",
    )
}

/// Whether a playlist link is a Spotify playlist or album, whose tracks are
/// read from its page rather than listed by `yt-dlp`.
pub open spec fn is_spotify_collection_spec(url: Seq<char>) -> bool {
    contains_seq(url, "open.spotify.com/playlist/"@) || contains_seq(url, "open.spotify.com/album/"@)
}

/// Whether a playlist link is a Spotify playlist or album.
pub fn is_spotify_collection(url: &str) -> (r: bool)
    ensures
        r == is_spotify_collection_spec(url@),
{
    let cs = chars_of(url);
    contains_str(cs.as_slice(), "open.spotify.com/playlist/") || contains_str(
        cs.as_slice(),
        "open.spotify.com/album/",
    )
}

/// The entries of a playlist that are loaded as tracks: those that are not
/// themselves playlists (`/sets/` or `list=` in them), in order.
pub open spec fn playlist_tracks(urls: Seq<Seq<char>>) -> Seq<Seq<char>>
    decreases urls.len(),
{
    if urls.len() == 0 {
        Seq::empty()
    } else {
        let rest = playlist_tracks(urls.drop_last());
        let u = urls.last();
        if contains_seq(u, "/sets/"@) || contains_seq(u, "list="@) {
            rest
        } else {
            rest.push(u)
        }
    }
}

/// The entries of a playlist that are loaded as tracks, in order.
pub fn tracks_of_playlist(urls: &Vec<String>) -> (r: Vec<String>)
    ensures
        r@.map_values(|u: String| u@) == playlist_tracks(urls@.map_values(|u: String| u@)),
{
    let ghost us = urls@.map_values(|u: String| u@);
    let mut r: Vec<String> = Vec::new();
    let mut i: usize = 0;
    while i < urls.len()
        invariant
            i <= urls@.len(),
            us == urls@.map_values(|u: String| u@),
            r@.map_values(|u: String| u@) == playlist_tracks(us.take(i as int)),
        decreases urls@.len() - i,
    {
        assert(us.take(i + 1).drop_last() == us.take(i as int));
        assert(us.take(i + 1).last() == urls@[i as int]@);
        let cs = chars_of(urls[i].as_str());
        if !(contains_str(cs.as_slice(), "/sets/") || contains_str(cs.as_slice(), "list=")) {
            let ghost before = r@.map_values(|u: String| u@);
            r.push(urls[i].clone());
            assert(r@.map_values(|u: String| u@) =~= before.push(urls@[i as int]@));
        }
        i += 1;
    }
    assert(us.take(us.len() as int) == us);
    r
}

/// The items of `results` that loaded (`Ok`), in order.
pub open spec fn loaded<T, E>(results: Seq<Result<T, E>>) -> Seq<T>
    decreases results.len(),
{
    if results.len() == 0 {
        Seq::empty()
    } else {
        let rest = loaded(results.drop_last());
        match results.last() {
            Ok(t) => rest.push(t),
            Err(_) => rest,
        }
    }
}

/// What `play` queues of a playlist whose entries gave `results`: the
/// entries that loaded, in order, or `None` when none did (the requested
/// song itself is then loaded instead).
pub fn keep_loaded<T, E>(results: Vec<Result<T, E>>) -> (r: Option<Vec<T>>)
    ensures
        match r {
            None => loaded(results@).len() == 0,
            Some(v) => v@ == loaded(results@) && v@.len() > 0,
        },
{
    let ghost orig = results@;
    let mut rest = results;
    let mut rev: Vec<T> = Vec::new();
    while rest.len() > 0
        invariant
            loaded(orig) == loaded(rest@) + rev@.reverse(),
        decreases rest@.len(),
    {
        let ghost before_rest = rest@;
        let ghost before_rev = rev@;
        let x = rest.pop().unwrap();
        assert(before_rest.drop_last() == rest@);
        match x {
            Ok(t) => {
                rev.push(t);
                assert(rev@.reverse() =~= seq![t] + before_rev.reverse());
                assert(loaded(before_rest) == loaded(rest@).push(t));
                assert(loaded(rest@).push(t) + before_rev.reverse() =~= loaded(rest@) + rev@.reverse());
            },
            Err(_) => {},
        }
    }
    assert(loaded(rest@) == Seq::<T>::empty());
    assert(loaded(orig) =~= rev@.reverse());
    let mut out: Vec<T> = Vec::new();
    while rev.len() > 0
        invariant
            out@ + rev@.reverse() == loaded(orig),
        decreases rev@.len(),
    {
        let ghost before_rev = rev@;
        let ghost before_out = out@;
        let t = rev.pop().unwrap();
        assert(before_rev.reverse() =~= seq![t] + rev@.reverse());
        out.push(t);
        assert(out@ + rev@.reverse() =~= before_out + before_rev.reverse());
    }
    assert(rev@.reverse() =~= Seq::<T>::empty());
    assert(out@ + rev@.reverse() =~= out@);
    if out.len() == 0 {
        None
    } else {
        Some(out)
    }
}

/// How a requested song is looked up.
pub enum SongSource {
    /// A track gathered from a Spotify playlist: searched for by its query
    /// (the text after `spotifysearch:`).
    SpotifySearch { query: String },
    /// A Spotify track link: its page's title is searched for.
    SpotifyLink,
    /// Anything else: opened as a link when it starts with `http`, searched
    /// for otherwise.
    Direct { search: bool },
}

/// How the song `song` is looked up.
pub fn classify_song(song: &str) -> (r: SongSource)
    ensures
        starts_with(song@, "spotifysearch:"@) ==> (r matches SongSource::SpotifySearch { query }
            && query@ == replace_spec(song@, "spotifysearch:"@, Seq::empty())),
        !starts_with(song@, "spotifysearch:"@) && contains_seq(song@, "spotify.com/"@) ==> r
            is SpotifyLink,
        !starts_with(song@, "spotifysearch:"@) && !contains_seq(song@, "spotify.com/"@) ==> r
            == (SongSource::Direct { search: !starts_with(song@, "http"@) }),
{
    assert("spotifysearch:"@.len() > 0) by {
        reveal_strlit("spotifysearch:");
    }
    assert(""@ == Seq::<char>::empty()) by {
        reveal_strlit("");
    }
    let cs = chars_of(song);
    if starts_with_str(cs.as_slice(), "spotifysearch:") {
        let q = replace_str(cs.as_slice(), "spotifysearch:", "");
        SongSource::SpotifySearch { query: string_of(q.as_slice()) }
    } else if contains_str(cs.as_slice(), "spotify.com/") {
        SongSource::SpotifyLink
    } else {
        SongSource::Direct { search: !starts_with_str(cs.as_slice(), "http") }
    }
}

/// The link shown for a loaded song: the requested Spotify track link
/// itself, otherwise the link the lookup resolved (or YouTube when it
/// resolved none).
pub fn shown_url(source: &SongSource, requested: &str, resolved: Option<String>) -> (r: String)
    ensures
        r@ == match source {
            SongSource::SpotifyLink => requested@,
            _ => match resolved {
                Some(u) => u@,
                None => "https://youtube.com"@,
            },
        },
{
    match source {
        SongSource::SpotifyLink => string_of(chars_of(requested).as_slice()),
        _ => match resolved {
            Some(u) => u,
            None => String::from_str("https://youtube.com"),
        },
    }
}

/// The metadata kept with a loaded track: what the lookup found, with
/// "Unknown" for a missing title, no thumbnail for a missing one, and
/// "Unknown Author" for a missing channel; and who asked for it.
pub fn song_metadata(
    title: Option<String>,
    url: String,
    thumbnail: Option<String>,
    duration: Option<TrackLength>,
    channel: Option<String>,
    request_by: String,
    request_by_avatar: String,
) -> (r: SongMetadata)
    ensures
        r.title@ == match title {
            Some(t) => t@,
            None => "Unknown"@,
        },
        r.url == url,
        r.thumbnail@ == match thumbnail {
            Some(t) => t@,
            None => Seq::<char>::empty(),
        },
        r.duration == duration,
        r.author@ == match channel {
            Some(c) => c@,
            None => "Unknown Author"@,
        },
        r.request_by == request_by,
        r.request_by_avatar == request_by_avatar,
{
    SongMetadata {
        title: match title {
            Some(t) => t,
            None => String::from_str("Unknown"),
        },
        url,
        thumbnail: match thumbnail {
            Some(t) => t,
            None => String::new(),
        },
        duration,
        request_by,
        request_by_avatar,
        author: match channel {
            Some(c) => c,
            None => String::from_str("Unknown Author"),
        },
    }
}

} // verus!
