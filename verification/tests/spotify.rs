use disaity::spotify::{next_data_json, playlist_queries, spotify_page_queries, JsonValue};

fn text(s: &str) -> JsonValue {
    JsonValue::Text { text: s.to_string(), embedded: None }
}

fn obj(members: Vec<(&str, JsonValue)>) -> JsonValue {
    JsonValue::Object(members.into_iter().map(|(k, v)| (k.to_string(), v)).collect())
}

fn page(data: JsonValue) -> JsonValue {
    obj(vec![("props", obj(vec![("pageProps", obj(vec![("state", obj(vec![("data", data)]))]))]))])
}

#[test]
fn tracks_of_a_playlist_entity() {
    let track = |t: &str, a: &str| {
        obj(vec![
            ("artists", JsonValue::Array(vec![obj(vec![("name", text(a))])])),
            ("title", text(t)),
            ("uri", text("spotify:track:1")),
        ])
    };
    let entity = obj(vec![
        ("name", text("My List")),
        ("trackList", JsonValue::Array(vec![track("One", "A"), track("Two", "B"), track("One", "A")])),
    ]);
    let root = page(obj(vec![("entity", entity)]));
    assert_eq!(
        playlist_queries(&root),
        Ok(vec!["spotifysearch:One A".to_string(), "spotifysearch:Two B".to_string()])
    );
}

#[test]
fn hints_from_enclosing_object() {
    // A trackish object without an artist takes the enclosing object's.
    let inner = obj(vec![("duration_ms", JsonValue::Scalar), ("name", text("Song"))]);
    let outer = obj(vec![("artist", text("Band")), ("song", inner)]);
    let root = page(outer);
    assert_eq!(playlist_queries(&root), Ok(vec!["spotifysearch:Song Band".to_string()]));
}

#[test]
fn embedded_json_strings_are_walked() {
    let inner = obj(vec![("name", text("Deep")), ("artist", text("X")), ("type", text("track"))]);
    let s = JsonValue::Text { text: " {...} ".to_string(), embedded: Some(Box::new(inner)) };
    let root = page(obj(vec![("blob", s)]));
    assert_eq!(playlist_queries(&root), Ok(vec!["spotifysearch:Deep X".to_string()]));
}

#[test]
fn missing_state_and_no_tracks() {
    assert_eq!(playlist_queries(&obj(vec![])), Err("Spotify state.data missing".to_string()));
    assert_eq!(
        playlist_queries(&page(obj(vec![("name", text("x"))]))),
        Err("Spotify page loaded, but no track objects were found in the HTML JSON.".to_string())
    );
}

#[test]
fn next_data_script() {
    let html = r#"<html><body><script id="__NEXT_DATA__" type="application/json">{"a":1}</script></body></html>"#;
    assert_eq!(next_data_json(html), Ok(r#"{"a":1}"#.to_string()));
    assert_eq!(
        next_data_json("<html></html>"),
        Err("Could not find script#__NEXT_DATA__ in Spotify HTML".to_string())
    );
}

fn next_data_page(json: &str) -> String {
    format!(
        r#"<html><body><script id="__NEXT_DATA__" type="application/json">{}</script></body></html>"#,
        json
    )
}

#[test]
fn page_text_to_queries() {
    let json = r#"{"props":{"pageProps":{"state":{"data":{"entity":{"trackList":[
        {"title":"One","uri":"spotify:track:1","artists":[{"name":"A"}]},
        {"title":"Two","uri":"spotify:track:2","artists":[{"name":"B"}]}]}}}}}}"#;
    assert_eq!(
        spotify_page_queries(&next_data_page(json)),
        Ok(vec!["spotifysearch:One A".to_string(), "spotifysearch:Two B".to_string()])
    );
}

#[test]
fn page_text_with_embedded_json_string() {
    let json = r#"{"props":{"pageProps":{"state":{"data":{"blob":" {\"name\":\"Deep\",\"artist\":\"X\",\"type\":\"track\"} "}}}}}"#;
    assert_eq!(spotify_page_queries(&next_data_page(json)), Ok(vec!["spotifysearch:Deep X".to_string()]));
}

#[test]
fn page_errors() {
    assert_eq!(
        spotify_page_queries("<html></html>"),
        Err("Could not find script#__NEXT_DATA__ in Spotify HTML".to_string())
    );
    let not_json = spotify_page_queries(&next_data_page("not json"));
    assert!(not_json.is_err());
    assert_ne!(not_json, Err("Spotify state.data missing".to_string()));
    assert_eq!(
        spotify_page_queries(&next_data_page(r#"{"props":{}}"#)),
        Err("Spotify state.data missing".to_string())
    );
}
