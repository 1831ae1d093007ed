use disaity::extract::{
    classify_song, is_playlist_link, keep_loaded, is_spotify_collection, playlist_links, shown_url, spotify_page_candidates,
    spotify_title, tracks_of_playlist, SongSource, SpotifyQueries,
};

#[test]
fn spotify_title_is_cleaned() {
    let html = "<html><head><title>Song - song and lyrics by Band | Spotify</title></head></html>";
    assert_eq!(spotify_title(html), Ok("Song Band".to_string()));
}

#[test]
fn spotify_title_missing() {
    assert_eq!(
        spotify_title("<html>no title</html>"),
        Err("failed to get extract the song title".to_string())
    );
    assert_eq!(
        spotify_title("<title>unclosed"),
        Err("failed to get extract the song title".to_string())
    );
}

#[test]
fn spotify_candidates() {
    let (embed, clean) =
        spotify_page_candidates("https://open.spotify.com/playlist/abc/?si=123");
    assert_eq!(clean, "https://open.spotify.com/playlist/abc");
    assert_eq!(embed, "https://open.spotify.com/embed/playlist/abc");
    let (embed, clean) = spotify_page_candidates("https://open.spotify.com/embed/album/x//");
    assert_eq!(clean, "https://open.spotify.com/embed/album/x");
    assert_eq!(embed, clean);
}

#[test]
fn queries_are_trimmed_filtered_and_unique() {
    let mut q = SpotifyQueries::new();
    q.push_query("  Song  ", " Artist ");
    q.push_query("Song", "Artist");
    q.push_query("Spotify", "Someone");
    q.push_query("", "Someone");
    q.push_query("Other", "   ");
    q.push_query("Two", "B");
    assert_eq!(
        q.queries,
        vec!["spotifysearch:Song Artist".to_string(), "spotifysearch:Two B".to_string()]
    );
}

#[test]
fn yt_dlp_links() {
    let out = "https://a\r\n  https://b  \nWARNING: x\n\nhttp://c";
    assert_eq!(
        playlist_links(out),
        vec!["https://a".to_string(), "https://b".to_string(), "http://c".to_string()]
    );
    assert!(playlist_links("").is_empty());
}

#[test]
fn playlist_detection() {
    assert!(is_playlist_link("https://youtube.com/watch?v=1&list=PL"));
    assert!(is_playlist_link("https://soundcloud.com/u/sets/s"));
    assert!(is_playlist_link("https://open.spotify.com/playlist/x"));
    assert!(!is_playlist_link("https://youtube.com/watch?v=1"));
    let urls = vec![
        "https://y/1".to_string(),
        "https://y/list=2".to_string(),
        "https://s/sets/3".to_string(),
        "https://y/4".to_string(),
    ];
    assert_eq!(
        tracks_of_playlist(&urls),
        vec!["https://y/1".to_string(), "https://y/4".to_string()]
    );
}

#[test]
fn song_sources() {
    match classify_song("spotifysearch:Song Artist") {
        SongSource::SpotifySearch { query } => assert_eq!(query, "Song Artist"),
        _ => panic!("expected a Spotify search"),
    }
    assert!(matches!(
        classify_song("https://open.spotify.com/track/1"),
        SongSource::SpotifyLink
    ));
    assert!(matches!(
        classify_song("https://youtube.com/watch?v=1"),
        SongSource::Direct { search: false }
    ));
    assert!(matches!(classify_song("never gonna"), SongSource::Direct { search: true }));
}

#[test]
fn shown_links() {
    let link = SongSource::SpotifyLink;
    assert_eq!(shown_url(&link, "https://open.spotify.com/track/1", None), "https://open.spotify.com/track/1");
    let other = SongSource::Direct { search: true };
    assert_eq!(shown_url(&other, "q", Some("https://y/1".to_string())), "https://y/1");
    assert_eq!(shown_url(&other, "q", None), "https://youtube.com");
}

#[test]
fn spotify_collections_are_read_from_their_page() {
    assert!(is_spotify_collection("https://open.spotify.com/playlist/37i9dQZF1DX"));
    assert!(is_spotify_collection("https://open.spotify.com/album/4aawyAB9vmqN3uQ7FjRGTy?si=x"));
    assert!(!is_spotify_collection("https://open.spotify.com/track/abc"));
    assert!(!is_spotify_collection("https://www.youtube.com/playlist?list=PL123"));
}

#[test]
fn loaded_playlist_entries_are_kept_in_order() {
    let results: Vec<Result<u32, String>> = vec![Ok(1), Err("x".to_string()), Ok(3)];
    assert_eq!(keep_loaded(results), Some(vec![1, 3]));
    let none: Vec<Result<u32, String>> = vec![Err("x".to_string()), Err("y".to_string())];
    assert_eq!(keep_loaded(none), None);
    assert_eq!(keep_loaded(Vec::<Result<u32, String>>::new()), None);
}
