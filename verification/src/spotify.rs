//! Gathering the tracks of a Spotify playlist page: the page's
//! `__NEXT_DATA__` JSON is walked for objects that look like tracks, and
//! each becomes a search query.

use vstd::prelude::*;
use vstd::string::*;
use crate::extract::{no_duplicates, query_for, SpotifyQueries};
use crate::text::{
    chars_eq, chars_of, contains_seq, contains_str, starts_with, string_of, trim_chars, trim_seq,
};

verus! {

broadcast use vstd::string::group_string_axioms;

/// A JSON value, as the walk reads it. A string carries the value its
/// trimmed text parses to as JSON, if it parses.
pub enum JsonValue {
    /// `null`, a boolean or a number.
    Scalar,
    Text { text: String, embedded: Option<Box<JsonValue>> },
    Array(Vec<JsonValue>),
    /// The members in the order the parser lists them; keys are distinct.
    Object(Vec<(String, JsonValue)>),
}

/// The position of the first member named `key`.
pub open spec fn key_index(es: Seq<(String, JsonValue)>, key: Seq<char>) -> Option<int>
    decreases es.len(),
{
    if es.len() == 0 {
        None
    } else {
        match key_index(es.drop_last(), key) {
            Some(i) => Some(i),
            None => if es.last().0@ == key {
                Some(es.len() - 1)
            } else {
                None
            },
        }
    }
}

pub proof fn lemma_key_index(es: Seq<(String, JsonValue)>, key: Seq<char>)
    ensures
        key_index(es, key) matches Some(i) ==> 0 <= i < es.len() && es[i].0@ == key,
        key_index(es, key) is None ==> forall|j: int| 0 <= j < es.len() ==> es[j].0@ != key,
    decreases es.len(),
{
    if es.len() > 0 {
        lemma_key_index(es.drop_last(), key);
        if key_index(es, key) is None {
            assert forall|j: int| 0 <= j < es.len() implies es[j].0@ != key by {
                if j < es.len() - 1 {
                    assert(es.drop_last()[j] == es[j]);
                }
            }
        }
    }
}

/// The member `key` of an object (`None` for any other value).
pub open spec fn get_spec(v: JsonValue, key: Seq<char>) -> Option<JsonValue> {
    match v {
        JsonValue::Object(es) => match key_index(es@, key) {
            Some(i) => Some(es@[i].1),
            None => None,
        },
        _ => None,
    }
}

/// The text of a string value.
pub open spec fn as_str_spec(v: Option<JsonValue>) -> Option<Seq<char>> {
    match v {
        Some(JsonValue::Text { text, embedded }) => Some(text@),
        _ => None,
    }
}

/// The first of `keys` that names a string member with text besides
/// whitespace: that text, trimmed.
pub open spec fn string_from_keys(v: JsonValue, keys: Seq<Seq<char>>) -> Option<Seq<char>>
    decreases keys.len(),
{
    if keys.len() == 0 {
        None
    } else {
        match as_str_spec(get_spec(v, keys[0])) {
            Some(s) => if trim_seq(s).len() > 0 {
                Some(trim_seq(s))
            } else {
                string_from_keys(v, keys.drop_first())
            },
            None => string_from_keys(v, keys.drop_first()),
        }
    }
}

/// The keys a track's title is read from, in order.
pub open spec fn title_keys() -> Seq<Seq<char>> {
    seq!["name"@, "title"@, "trackName"@, "displayName"@]
}

/// The keys a track's artist is read from, after the `artists` list.
pub open spec fn artist_keys() -> Seq<Seq<char>> {
    seq!["artistName"@, "artist"@, "byline"@, "subtitle"@, "ownerName"@]
}

/// The first member present among `name`, `title`, `artistName`.
pub open spec fn first_named(v: JsonValue) -> Option<JsonValue> {
    match get_spec(v, "name"@) {
        Some(x) => Some(x),
        None => match get_spec(v, "title"@) {
            Some(x) => Some(x),
            None => get_spec(v, "artistName"@),
        },
    }
}

/// The name of the first entry of the `artists` list, trimmed.
pub open spec fn first_artist(v: JsonValue) -> Option<Seq<char>> {
    match get_spec(v, "artists"@) {
        Some(JsonValue::Array(items)) => if items@.len() > 0 {
            match as_str_spec(first_named(items@[0])) {
                Some(s) => Some(trim_seq(s)),
                None => None,
            }
        } else {
            None
        },
        _ => None,
    }
}

/// The title an object gives a track.
pub open spec fn title_of(v: JsonValue) -> Option<Seq<char>> {
    string_from_keys(v, title_keys())
}

/// The artist an object gives a track.
pub open spec fn artist_of(v: JsonValue) -> Option<Seq<char>> {
    match first_artist(v) {
        Some(a) => Some(a),
        None => string_from_keys(v, artist_keys()),
    }
}

/// Whether the object's `uri` is a track's.
pub open spec fn uri_is_track(v: JsonValue) -> bool {
    match as_str_spec(get_spec(v, "uri"@)) {
        Some(u) => contains_seq(u, "spotify:track:"@) || contains_seq(u, "/track/"@),
        None => false,
    }
}

/// Whether the object's `type` is `track`.
pub open spec fn type_is_track(v: JsonValue) -> bool {
    as_str_spec(get_spec(v, "type"@)) == Some("track"@)
}

/// Whether the object has a member `key`.
pub open spec fn has_key(v: JsonValue, key: Seq<char>) -> bool {
    get_spec(v, key) is Some
}

/// Whether an object is taken for a track when it names a title and an
/// artist itself.
pub open spec fn looks_like_track(v: JsonValue) -> bool {
    uri_is_track(v) || type_is_track(v) || has_key(v, "duration_ms"@) || has_key(v, "artists"@)
        || has_key(v, "album"@)
}

/// Whether an object is taken for a track when its title or artist comes
/// from an enclosing object.
pub open spec fn is_trackish(v: JsonValue) -> bool {
    uri_is_track(v) || type_is_track(v) || has_key(v, "duration_ms"@)
}

/// An optional value, or `alt` when there is none.
pub open spec fn or_else(a: Option<Seq<char>>, alt: Option<Seq<char>>) -> Option<Seq<char>> {
    match a {
        Some(x) => Some(x),
        None => alt,
    }
}

/// The track an object itself stands for, if any: `(title, artist)`.
pub open spec fn own_track(v: JsonValue, th: Option<Seq<char>>, ah: Option<Seq<char>>) -> Seq<
    (Seq<char>, Seq<char>),
> {
    if title_of(v) is Some && artist_of(v) is Some && looks_like_track(v) {
        seq![(title_of(v)->Some_0, artist_of(v)->Some_0)]
    } else {
        let lt = or_else(title_of(v), th);
        let la = or_else(artist_of(v), ah);
        if lt is Some && la is Some && is_trackish(v) {
            seq![(lt->Some_0, la->Some_0)]
        } else {
            Seq::empty()
        }
    }
}

/// Whether trimmed text looks like a JSON object or array.
pub open spec fn looks_like_json(s: Seq<char>) -> bool {
    (s.len() > 0 && s[0] == '{' && s.last() == '}') || (s.len() > 0 && s[0] == '[' && s.last()
        == ']')
}

/// The tracks found, in the order found, walking value `v` with the title
/// `th` and artist `ah` of the enclosing object: for an object, first its
/// `entity` (without those), then its `items`, `tracks` and `track`, then
/// the object itself, then all its members (with its own title and artist);
/// the items of an array; the value a JSON-looking string holds.
pub open spec fn walk_spec(v: JsonValue, th: Option<Seq<char>>, ah: Option<Seq<char>>) -> Seq<
    (Seq<char>, Seq<char>),
>
    decreases v, 1nat,
{
    match v {
        JsonValue::Object(es) => {
            let part = |key: Seq<char>, t: Option<Seq<char>>, a: Option<Seq<char>>|
                match key_index(es@, key) {
                    Some(i) => if 0 <= i < es@.len() {
                        walk_spec(es@[i].1, t, a)
                    } else {
                        Seq::empty()
                    },
                    None => Seq::empty(),
                };
            let lt = or_else(title_of(v), th);
            let la = or_else(artist_of(v), ah);
            part("entity"@, None, None) + part("items"@, th, ah) + part("tracks"@, th, ah) + part(
                "track"@,
                th,
                ah,
            ) + own_track(v, th, ah) + walk_members(es@, lt, la)
        },
        JsonValue::Array(items) => walk_items(items@, th, ah),
        JsonValue::Text { text, embedded } => match embedded {
            Some(b) => if looks_like_json(trim_seq(text@)) {
                walk_spec(*b, th, ah)
            } else {
                Seq::empty()
            },
            None => Seq::empty(),
        },
        JsonValue::Scalar => Seq::empty(),
    }
}

/// An object that names its artist only in `subtitle` (no `artists` list
/// and none of `artistName`, `artist`, `byline`) takes the trimmed subtitle
/// as its artist; with a title and a track `uri` it stands for that track,
/// which the walk of the object finds, whatever the enclosing hints.
pub proof fn lemma_subtitle_names_artist(
    v: JsonValue,
    a: Seq<char>,
    th: Option<Seq<char>>,
    ah: Option<Seq<char>>,
)
    requires
        v is Object,
        as_str_spec(get_spec(v, "subtitle"@)) == Some(a),
        trim_seq(a).len() > 0,
        get_spec(v, "artists"@) is None,
        get_spec(v, "artistName"@) is None,
        get_spec(v, "artist"@) is None,
        get_spec(v, "byline"@) is None,
    ensures
        artist_of(v) == Some(trim_seq(a)),
        title_of(v) is Some && uri_is_track(v) ==> own_track(v, th, ah) == seq![
            (title_of(v)->Some_0, trim_seq(a)),
        ],
        title_of(v) is Some && uri_is_track(v) ==> walk_spec(v, th, ah).contains(
            (title_of(v)->Some_0, trim_seq(a)),
        ),
{
    let ks = artist_keys();
    assert(ks[0] == "artistName"@);
    assert(ks.drop_first()[0] == "artist"@);
    assert(ks.drop_first().drop_first()[0] == "byline"@);
    assert(ks.drop_first().drop_first().drop_first()[0] == "subtitle"@);
    assert(ks.drop_first().drop_first().drop_first().len() > 0);
    assert(string_from_keys(v, ks.drop_first().drop_first().drop_first()) == Some(trim_seq(a)));
    assert(string_from_keys(v, ks.drop_first().drop_first()) == Some(trim_seq(a)));
    assert(string_from_keys(v, ks.drop_first()) == Some(trim_seq(a)));
    assert(string_from_keys(v, ks) == Some(trim_seq(a)));
    if title_of(v) is Some && uri_is_track(v) {
        match v {
            JsonValue::Object(es) => {
                let w = walk_spec(v, th, ah);
                let o = own_track(v, th, ah);
                let wm = walk_members(es@, or_else(title_of(v), th), or_else(artist_of(v), ah));
                let plen = w.len() - o.len() - wm.len();
                assert(o.len() == 1);
                assert(w[plen] == o[0]);
            },
            _ => {},
        }
    }
}

/// The tracks found walking the members `es` in order.
pub open spec fn walk_members(
    es: Seq<(String, JsonValue)>,
    th: Option<Seq<char>>,
    ah: Option<Seq<char>>,
) -> Seq<(Seq<char>, Seq<char>)>
    decreases es, 0nat,
{
    if es.len() == 0 {
        Seq::empty()
    } else {
        walk_members(es.drop_last(), th, ah) + walk_spec(es.last().1, th, ah)
    }
}

/// The tracks found walking the items `items` in order.
pub open spec fn walk_items(items: Seq<JsonValue>, th: Option<Seq<char>>, ah: Option<Seq<char>>) -> Seq<
    (Seq<char>, Seq<char>),
>
    decreases items, 0nat,
{
    if items.len() == 0 {
        Seq::empty()
    } else {
        walk_items(items.drop_last(), th, ah) + walk_spec(items.last(), th, ah)
    }
}

/// A key's first position is where it occurs first.
pub proof fn lemma_key_index_first(es: Seq<(String, JsonValue)>, key: Seq<char>, i: int)
    requires
        0 <= i < es.len(),
        es[i].0@ == key,
        forall|j: int| 0 <= j < i ==> es[j].0@ != key,
    ensures
        key_index(es, key) == Some(i),
    decreases es.len(),
{
    if i < es.len() - 1 {
        assert forall|j: int| 0 <= j < i implies es.drop_last()[j].0@ != key by {
            assert(es.drop_last()[j] == es[j]);
        }
        assert(es.drop_last()[i] == es[i]);
        lemma_key_index_first(es.drop_last(), key, i);
    } else {
        lemma_key_index(es.drop_last(), key);
        if key_index(es.drop_last(), key) is Some {
            let k = key_index(es.drop_last(), key)->Some_0;
            assert(es.drop_last()[k] == es[k]);
        }
    }
}

/// The position of the first member of `es` named `key`.
fn member_index(es: &Vec<(String, JsonValue)>, key: &str) -> (r: Option<usize>)
    ensures
        match r {
            Some(i) => key_index(es@, key@) == Some(i as int) && i < es@.len(),
            None => key_index(es@, key@) is None,
        },
{
    let k = chars_of(key);
    let mut i: usize = 0;
    while i < es.len()
        invariant
            i <= es@.len(),
            k@ == key@,
            forall|j: int| 0 <= j < i ==> es@[j].0@ != key@,
        decreases es@.len() - i,
    {
        let name = chars_of(es[i].0.as_str());
        if chars_eq(name.as_slice(), k.as_slice()) {
            proof {
                lemma_key_index_first(es@, key@, i as int);
            }
            return Some(i);
        }
        i += 1;
    }
    proof {
        lemma_key_index(es@, key@);
        if key_index(es@, key@) is Some {
            let q = key_index(es@, key@)->Some_0;
            assert(es@[q].0@ == key@);
        }
    }
    None
}

/// The member `key` of an object.
pub fn get<'a>(v: &'a JsonValue, key: &str) -> (r: Option<&'a JsonValue>)
    ensures
        match r {
            Some(x) => get_spec(*v, key@) == Some(*x),
            None => get_spec(*v, key@) is None,
        },
{
    match v {
        JsonValue::Object(es) => match member_index(es, key) {
            Some(i) => Some(&es[i].1),
            None => None,
        },
        _ => None,
    }
}

/// The text of a string value.
fn text_of(v: Option<&JsonValue>) -> (r: Option<&String>)
    ensures
        match r {
            Some(t) => as_str_spec(match v {
                Some(x) => Some(*x),
                None => None,
            }) == Some(t@),
            None => as_str_spec(match v {
                Some(x) => Some(*x),
                None => None,
            }) is None,
        },
{
    match v {
        Some(JsonValue::Text { text, embedded }) => Some(text),
        _ => None,
    }
}

/// The view of optional characters.
pub open spec fn opt_view(o: Option<Vec<char>>) -> Option<Seq<char>> {
    match o {
        Some(v) => Some(v@),
        None => None,
    }
}

fn keys_from(v: &JsonValue, keys: &Vec<&str>) -> (r: Option<Vec<char>>)
    ensures
        opt_view(r) == string_from_keys(*v, keys@.map_values(|k: &str| k@)),
{
    let ghost ks = keys@.map_values(|k: &str| k@);
    let mut i: usize = 0;
    assert(ks.skip(0) == ks);
    while i < keys.len()
        invariant
            i <= keys@.len(),
            ks == keys@.map_values(|k: &str| k@),
            string_from_keys(*v, ks) == string_from_keys(*v, ks.skip(i as int)),
        decreases keys@.len() - i,
    {
        let ghost rest = ks.skip(i as int);
        assert(rest[0] == keys@[i as int]@);
        assert(rest.drop_first() == ks.skip(i + 1));
        match text_of(get(v, keys[i])) {
            Some(s) => {
                let t = trim_chars(chars_of(s.as_str()).as_slice());
                if t.len() > 0 {
                    return Some(t);
                }
            },
            None => {},
        }
        i += 1;
    }
    None
}

fn title_exec(v: &JsonValue) -> (r: Option<Vec<char>>)
    ensures
        opt_view(r) == title_of(*v),
{
    let keys: Vec<&str> = vec!["name", "title", "trackName", "displayName"];
    assert(keys@.map_values(|k: &str| k@) =~= title_keys());
    keys_from(v, &keys)
}

fn first_artist_exec(v: &JsonValue) -> (r: Option<Vec<char>>)
    ensures
        opt_view(r) == first_artist(*v),
{
    match get(v, "artists") {
        Some(JsonValue::Array(items)) => {
            if items.len() == 0 {
                return None;
            }
            let first = &items[0];
            let named = match get(first, "name") {
                Some(x) => Some(x),
                None => match get(first, "title") {
                    Some(x) => Some(x),
                    None => get(first, "artistName"),
                },
            };
            match text_of(named) {
                Some(s) => Some(trim_chars(chars_of(s.as_str()).as_slice())),
                None => None,
            }
        },
        _ => None,
    }
}

fn artist_exec(v: &JsonValue) -> (r: Option<Vec<char>>)
    ensures
        opt_view(r) == artist_of(*v),
{
    match first_artist_exec(v) {
        Some(a) => Some(a),
        None => {
            let keys: Vec<&str> = vec!["artistName", "artist", "byline", "subtitle", "ownerName"];
            assert(keys@.map_values(|k: &str| k@) =~= artist_keys());
            keys_from(v, &keys)
        },
    }
}

fn uri_is_track_exec(v: &JsonValue) -> (r: bool)
    ensures
        r == uri_is_track(*v),
{
    match text_of(get(v, "uri")) {
        Some(u) => {
            let c = chars_of(u.as_str());
            contains_str(c.as_slice(), "spotify:track:") || contains_str(c.as_slice(), "/track/")
        },
        None => false,
    }
}

fn type_is_track_exec(v: &JsonValue) -> (r: bool)
    ensures
        r == type_is_track(*v),
{
    match text_of(get(v, "type")) {
        Some(t) => {
            let c = chars_of(t.as_str());
            let track = chars_of("track");
            chars_eq(c.as_slice(), track.as_slice())
        },
        None => false,
    }
}

fn is_trackish_exec(v: &JsonValue) -> (r: bool)
    ensures
        r == is_trackish(*v),
{
    uri_is_track_exec(v) || type_is_track_exec(v) || get(v, "duration_ms").is_some()
}

fn looks_like_track_exec(v: &JsonValue) -> (r: bool)
    ensures
        r == looks_like_track(*v),
{
    is_trackish_exec(v) || get(v, "artists").is_some() || get(v, "album").is_some()
}

/// The queries `qs` after offering the track `(title, artist)`.
pub open spec fn offer(qs: Seq<Seq<char>>, track: (Seq<char>, Seq<char>)) -> Seq<Seq<char>> {
    match query_for(track.0, track.1) {
        Some(q) => if qs.contains(q) {
            qs
        } else {
            qs.push(q)
        },
        None => qs,
    }
}

/// The queries `qs` after offering the tracks `ts` in order.
pub open spec fn gather(qs: Seq<Seq<char>>, ts: Seq<(Seq<char>, Seq<char>)>) -> Seq<Seq<char>>
    decreases ts.len(),
{
    if ts.len() == 0 {
        qs
    } else {
        offer(gather(qs, ts.drop_last()), ts.last())
    }
}

/// Offering two runs of tracks is offering the first, then the second.
pub proof fn lemma_gather_concat(qs: Seq<Seq<char>>, a: Seq<(Seq<char>, Seq<char>)>, b: Seq<
    (Seq<char>, Seq<char>),
>)
    ensures
        gather(qs, a + b) == gather(gather(qs, a), b),
    decreases b.len(),
{
    if b.len() == 0 {
        assert(a + b == a);
    } else {
        lemma_gather_concat(qs, a, b.drop_last());
        assert((a + b).drop_last() == a + b.drop_last());
        assert((a + b).last() == b.last());
    }
}

fn offer_exec(out: &mut SpotifyQueries, t: &Vec<char>, a: &Vec<char>)
    requires
        no_duplicates(old(out).view_queries()),
    ensures
        no_duplicates(final(out).view_queries()),
        final(out).view_queries() == offer(old(out).view_queries(), (t@, a@)),
{
    let ts = string_of(t.as_slice());
    let as_ = string_of(a.as_slice());
    out.push_query(ts.as_str(), as_.as_str());
}

fn opt_clone(o: &Option<Vec<char>>) -> (r: Option<Vec<char>>)
    ensures
        opt_view(r) == opt_view(*o),
{
    match o {
        Some(v) => Some(crate::text::sub_chars(v.as_slice(), 0, v.len())),
        None => None,
    }
}

fn pick(a: Option<Vec<char>>, alt: &Option<Vec<char>>) -> (r: Option<Vec<char>>)
    ensures
        opt_view(r) == or_else(opt_view(a), opt_view(*alt)),
{
    match a {
        Some(x) => Some(x),
        None => opt_clone(alt),
    }
}

fn looks_like_json_exec(s: &[char]) -> (r: bool)
    ensures
        r == looks_like_json(s@),
{
    let n = s.len();
    n > 0 && ((s[0] == '{' && s[n - 1] == '}') || (s[0] == '[' && s[n - 1] == ']'))
}

/// Walks the value `v` (with the title `th` and artist `ah` of the
/// enclosing object), offering every track found to `out`.
pub fn walk(v: &JsonValue, th: &Option<Vec<char>>, ah: &Option<Vec<char>>, out: &mut SpotifyQueries)
    requires
        no_duplicates(old(out).view_queries()),
    ensures
        no_duplicates(final(out).view_queries()),
        final(out).view_queries() == gather(old(out).view_queries(), walk_spec(*v, opt_view(*th), opt_view(*ah))),
    decreases *v, 1nat,
{
    let ghost q0 = out.view_queries();
    let ghost tv = opt_view(*th);
    let ghost av = opt_view(*ah);
    match v {
        JsonValue::Object(es) => {
            let ghost part = |key: Seq<char>, t: Option<Seq<char>>, a: Option<Seq<char>>|
                match key_index(es@, key) {
                    Some(i) => if 0 <= i < es@.len() {
                        walk_spec(es@[i].1, t, a)
                    } else {
                        Seq::empty()
                    },
                    None => Seq::empty(),
                };
            let none: Option<Vec<char>> = None;
            match member_index(es, "entity") {
                Some(i) => walk(&es[i].1, &none, &none, out),
                None => {},
            }
            assert(out.view_queries() == gather(q0, part("entity"@, None, None)));
            let ghost q1 = out.view_queries();
            match member_index(es, "items") {
                Some(i) => walk(&es[i].1, th, ah, out),
                None => {},
            }
            assert(out.view_queries() == gather(q1, part("items"@, tv, av)));
            let ghost q2 = out.view_queries();
            match member_index(es, "tracks") {
                Some(i) => walk(&es[i].1, th, ah, out),
                None => {},
            }
            let ghost q3 = out.view_queries();
            match member_index(es, "track") {
                Some(i) => walk(&es[i].1, th, ah, out),
                None => {},
            }
            let ghost q4 = out.view_queries();
            let t = title_exec(v);
            let a = artist_exec(v);
            let mut offered = false;
            match (&t, &a) {
                (Some(tt), Some(aa)) => if looks_like_track_exec(v) {
                    offer_exec(out, tt, aa);
                    offered = true;
                },
                _ => {},
            }
            let lt = pick(t, th);
            let la = pick(a, ah);
            if !offered {
                match (&lt, &la) {
                    (Some(tt), Some(aa)) => if is_trackish_exec(v) {
                        offer_exec(out, tt, aa);
                    },
                    _ => {},
                }
            }
            assert(out.view_queries() == gather(q4, own_track(*v, tv, av))) by {
                reveal_with_fuel(gather, 2);
            }
            let ghost q5 = out.view_queries();
            walk_members_exec(es, &lt, &la, out);
            proof {
                let p1 = part("entity"@, None, None);
                let p2 = part("items"@, tv, av);
                let p3 = part("tracks"@, tv, av);
                let p4 = part("track"@, tv, av);
                let p5 = own_track(*v, tv, av);
                let p6 = walk_members(es@, opt_view(lt), opt_view(la));
                lemma_gather_concat(q0, p1, p2);
                lemma_gather_concat(q0, p1 + p2, p3);
                lemma_gather_concat(q0, p1 + p2 + p3, p4);
                lemma_gather_concat(q0, p1 + p2 + p3 + p4, p5);
                lemma_gather_concat(q0, p1 + p2 + p3 + p4 + p5, p6);
            }
        },
        JsonValue::Array(items) => {
            walk_items_exec(items, th, ah, out);
        },
        JsonValue::Text { text, embedded } => match embedded {
            Some(b) => {
                let tt = trim_chars(chars_of(text.as_str()).as_slice());
                if looks_like_json_exec(tt.as_slice()) {
                    walk(&**b, th, ah, out);
                } else {
                    assert(gather(q0, Seq::empty()) == q0);
                }
            },
            None => {
                assert(gather(q0, Seq::empty()) == q0);
            },
        },
        JsonValue::Scalar => {
            assert(gather(q0, Seq::empty()) == q0);
        },
    }
}

/// Walks the members `es` in order.
fn walk_members_exec(
    es: &Vec<(String, JsonValue)>,
    th: &Option<Vec<char>>,
    ah: &Option<Vec<char>>,
    out: &mut SpotifyQueries,
)
    requires
        no_duplicates(old(out).view_queries()),
    ensures
        no_duplicates(final(out).view_queries()),
        final(out).view_queries() == gather(old(out).view_queries(), walk_members(es@, opt_view(*th), opt_view(*ah))),
    decreases es@, 0nat,
{
    let ghost q0 = out.view_queries();
    let mut i: usize = 0;
    assert(es@.take(0) == Seq::<(String, JsonValue)>::empty());
    while i < es.len()
        invariant
            i <= es@.len(),
            no_duplicates(out.view_queries()),
            out.view_queries() == gather(q0, walk_members(es@.take(i as int), opt_view(*th), opt_view(*ah))),
        decreases es@.len() - i,
    {
        let ghost before = out.view_queries();
        walk(&es[i].1, th, ah, out);
        proof {
            let pre = es@.take(i as int);
            assert(es@.take(i + 1).drop_last() == pre);
            assert(es@.take(i + 1).last() == es@[i as int]);
            lemma_gather_concat(q0, walk_members(pre, opt_view(*th), opt_view(*ah)), walk_spec(es@[i as int].1, opt_view(*th), opt_view(*ah)));
        }
        i += 1;
    }
    assert(es@.take(es@.len() as int) == es@);
}

/// Walks the items `items` in order.
fn walk_items_exec(
    items: &Vec<JsonValue>,
    th: &Option<Vec<char>>,
    ah: &Option<Vec<char>>,
    out: &mut SpotifyQueries,
)
    requires
        no_duplicates(old(out).view_queries()),
    ensures
        no_duplicates(final(out).view_queries()),
        final(out).view_queries() == gather(old(out).view_queries(), walk_items(items@, opt_view(*th), opt_view(*ah))),
    decreases items@, 0nat,
{
    let ghost q0 = out.view_queries();
    let mut i: usize = 0;
    assert(items@.take(0) == Seq::<JsonValue>::empty());
    while i < items.len()
        invariant
            i <= items@.len(),
            no_duplicates(out.view_queries()),
            out.view_queries() == gather(q0, walk_items(items@.take(i as int), opt_view(*th), opt_view(*ah))),
        decreases items@.len() - i,
    {
        walk(&items[i], th, ah, out);
        proof {
            let pre = items@.take(i as int);
            assert(items@.take(i + 1).drop_last() == pre);
            assert(items@.take(i + 1).last() == items@[i as int]);
            lemma_gather_concat(q0, walk_items(pre, opt_view(*th), opt_view(*ah)), walk_spec(items@[i as int], opt_view(*th), opt_view(*ah)));
        }
        i += 1;
    }
    assert(items@.take(items@.len() as int) == items@);
}

/// What `scraper` finds in the page `html` for the CSS selector `selector`:
/// `None` when the selector does not parse, otherwise the inner HTML of the
/// first matching element, if one matches.
pub uninterp spec fn selected_inner_html(html: Seq<char>, selector: Seq<char>) -> Option<
    Option<Seq<char>>,
>;

/// `Selector::parse`, `Html::parse_document`, `Html::select` and
/// `ElementRef::inner_html` of `scraper`, in that order. Claimed: the result
/// is `selected_inner_html(html@, selector@)`, a function of the two texts;
/// what the HTML parser and the selector engine find is not stated here.
#[verifier::external_body]
fn select_inner_html(html: &str, selector: &str) -> (r: Option<Option<String>>)
    ensures
        match r {
            None => selected_inner_html(html@, selector@) is None,
            Some(None) => selected_inner_html(html@, selector@) == Some(None::<Seq<char>>),
            Some(Some(s)) => selected_inner_html(html@, selector@) == Some(Some(s@)),
        },
{
    let sel = match scraper::Selector::parse(selector) {
        Ok(s) => s,
        Err(_) => return None,
    };
    let doc = scraper::Html::parse_document(html);
    match doc.select(&sel).next() {
        Some(e) => Some(Some(e.inner_html())),
        None => Some(None),
    }
}

/// The page's `__NEXT_DATA__` script, or why there is none.
pub open spec fn next_data_spec(html: Seq<char>) -> Result<Seq<char>, Seq<char>> {
    match selected_inner_html(html, "script#__NEXT_DATA__"@) {
        None => Err("Invalid CSS selector"@),
        Some(None) => Err("Could not find script#__NEXT_DATA__ in Spotify HTML"@),
        Some(Some(s)) => Ok(s),
    }
}

/// The text of the `__NEXT_DATA__` script of a Spotify page, which holds the
/// page's data as JSON.
pub fn next_data_json(html: &str) -> (r: Result<String, String>)
    ensures
        match r {
            Ok(s) => next_data_spec(html@) == Ok::<Seq<char>, Seq<char>>(s@),
            Err(e) => next_data_spec(html@) == Err::<Seq<char>, Seq<char>>(e@),
        },
{
    match select_inner_html(html, "script#__NEXT_DATA__") {
        None => Err(String::from_str("Invalid CSS selector")),
        Some(None) => Err(String::from_str("Could not find script#__NEXT_DATA__ in Spotify HTML")),
        Some(Some(s)) => Ok(s),
    }
}

/// The page's state data: `props.pageProps.state.data`.
pub open spec fn state_data_spec(root: JsonValue) -> Option<JsonValue> {
    match get_spec(root, "props"@) {
        None => None,
        Some(p) => match get_spec(p, "pageProps"@) {
            None => None,
            Some(pp) => match get_spec(pp, "state"@) {
                None => None,
                Some(st) => get_spec(st, "data"@),
            },
        },
    }
}

/// The tracks found on the page: walking first the state's `entity` (or
/// the state itself when it has none), then the whole state.
pub open spec fn page_tracks(state: JsonValue) -> Seq<(Seq<char>, Seq<char>)> {
    let start = match get_spec(state, "entity"@) {
        Some(e) => e,
        None => state,
    };
    walk_spec(start, None, None) + walk_spec(state, None, None)
}

/// The search queries of a Spotify playlist page whose data is `root`, or
/// why there are none.
pub open spec fn playlist_queries_spec(root: JsonValue) -> Result<Seq<Seq<char>>, Seq<char>> {
    match state_data_spec(root) {
        None => Err("Spotify state.data missing"@),
        Some(state) => {
            let qs = gather(Seq::empty(), page_tracks(state));
            if qs.len() == 0 {
                Err("Spotify page loaded, but no track objects were found in the HTML JSON."@)
            } else {
                Ok(qs)
            }
        },
    }
}

/// The search queries for the tracks of a Spotify playlist page, whose
/// `__NEXT_DATA__` JSON is `root`: each once, in the order found.
pub fn playlist_queries(root: &JsonValue) -> (r: Result<Vec<String>, String>)
    ensures
        match r {
            Ok(qs) => playlist_queries_spec(*root) == Ok::<Seq<Seq<char>>, Seq<char>>(
                qs@.map_values(|q: String| q@),
            ),
            Err(e) => playlist_queries_spec(*root) == Err::<Seq<Seq<char>>, Seq<char>>(e@),
        },
        r matches Ok(qs) ==> no_duplicates(qs@.map_values(|q: String| q@)),
{
    let state = match get(root, "props") {
        None => None,
        Some(p) => match get(p, "pageProps") {
            None => None,
            Some(pp) => match get(pp, "state") {
                None => None,
                Some(st) => get(st, "data"),
            },
        },
    };
    let state = match state {
        Some(s) => s,
        None => return Err(String::from_str("Spotify state.data missing")),
    };
    let start = match get(state, "entity") {
        Some(e) => e,
        None => state,
    };
    let mut out = SpotifyQueries::new();
    let none: Option<Vec<char>> = None;
    walk(start, &none, &none, &mut out);
    walk(state, &none, &none, &mut out);
    proof {
        lemma_gather_concat(Seq::empty(), walk_spec(*start, None, None), walk_spec(*state, None, None));
    }
    if out.queries.len() == 0 {
        return Err(
            String::from_str("Spotify page loaded, but no track objects were found in the HTML JSON."),
        );
    }
    Ok(out.queries)
}


/// `serde_json::Value`, held opaque: it only passes from the parser to the
/// conversion into `JsonValue`.
#[verifier::external_type_specification]
#[verifier::external_body]
pub struct ExParsedJson(serde_json::Value);

/// What `serde_json::from_str` makes of the text `text`, converted into a
/// `JsonValue` (each string with what its trimmed text parses to), or the
/// parser's error message.
pub uninterp spec fn parsed_json(text: Seq<char>) -> Result<JsonValue, Seq<char>>;

/// `serde_json::from_str::<serde_json::Value>` on `text`, its value converted
/// one for one by `json_value_of`, its error rendered by `Display`. Claimed:
/// the result is `parsed_json(text@)`, a function of the text alone; which
/// texts parse, to what, and the error's wording are not stated here.
#[verifier::external_body]
fn parse_json(text: &str) -> (r: Result<JsonValue, String>)
    ensures
        match r {
            Ok(v) => parsed_json(text@) == Ok::<JsonValue, Seq<char>>(v),
            Err(e) => parsed_json(text@) == Err::<JsonValue, Seq<char>>(e@),
        },
{
    match serde_json::from_str::<serde_json::Value>(text) {
        Ok(v) => Ok(json_value_of(v)),
        Err(e) => Err(e.to_string()),
    }
}

/// The conversion of a parsed `serde_json::Value` into `JsonValue`, variant
/// for variant: `null`, booleans and numbers become `Scalar`; a string keeps
/// its text and carries what `serde_json::from_str` makes of its trimmed
/// text; arrays and objects keep their items and members in order. It is
/// the conversion step of `parse_json`, and claims nothing itself.
#[verifier::external_body]
fn json_value_of(v: serde_json::Value) -> JsonValue {
    match v {
        serde_json::Value::String(s) => JsonValue::Text {
            embedded: serde_json::from_str::<serde_json::Value>(s.trim()).ok().map(|e| Box::new(json_value_of(e))),
            text: s,
        },
        serde_json::Value::Array(a) => JsonValue::Array(a.into_iter().map(json_value_of).collect()),
        serde_json::Value::Object(o) => JsonValue::Object(o.into_iter().map(|(k, c)| (k, json_value_of(c))).collect()),
        _ => JsonValue::Scalar,
    }
}

/// The search queries of a Spotify playlist page `html`: its
/// `__NEXT_DATA__` script, parsed as JSON, walked for tracks.
pub open spec fn page_queries_spec(html: Seq<char>) -> Result<Seq<Seq<char>>, Seq<char>> {
    match next_data_spec(html) {
        Err(e) => Err(e),
        Ok(j) => match parsed_json(j) {
            Err(e) => Err(e),
            Ok(root) => playlist_queries_spec(root),
        },
    }
}

/// The search queries for the tracks of the Spotify playlist page `html`,
/// each once, in the order found: an error when the page has no
/// `__NEXT_DATA__` script, when its text is not JSON, when the state data is
/// missing, or when no track is found.
pub fn spotify_page_queries(html: &str) -> (r: Result<Vec<String>, String>)
    ensures
        match r {
            Ok(qs) => page_queries_spec(html@) == Ok::<Seq<Seq<char>>, Seq<char>>(
                qs@.map_values(|q: String| q@),
            ),
            Err(e) => page_queries_spec(html@) == Err::<Seq<Seq<char>>, Seq<char>>(e@),
        },
        r matches Ok(qs) ==> no_duplicates(qs@.map_values(|q: String| q@)),
{
    let json = next_data_json(html)?;
    let root = parse_json(json.as_str())?;
    playlist_queries(&root)
}

} // verus!
