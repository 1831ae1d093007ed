use disaity::binaries::{exe_name, exec_mode, extend_search_path, BinariesExt};
use disaity::checks::{join_plan, JoinPlan};
use disaity::extract::song_metadata;

#[test]
fn bundled_binaries() {
    let b = BinariesExt::bundled();
    assert_eq!(b.binaries[0], ("engines", "media", "ffmpeg"));
    assert_eq!(b.binaries[1], ("providers", "youtube", "yt-dlp"));
    assert_eq!(exe_name("yt-dlp", ".exe"), "yt-dlp.exe");
    assert_eq!(exe_name("ffmpeg", ""), "ffmpeg");
}

#[test]
fn execute_bits() {
    assert_eq!(exec_mode(0o755), None);
    assert_eq!(exec_mode(0o644), Some(0o755));
    assert_eq!(exec_mode(0o700), Some(0o711));
}

#[test]
fn search_path_gets_new_directories_first() {
    let paths = vec!["/usr/bin".to_string(), "/bin".to_string()];
    let extra = vec!["/app/bin/a".to_string(), "/usr/bin/".to_string(), "/app/bin/b".to_string()];
    assert_eq!(
        extend_search_path(paths, &extra),
        vec![
            "/app/bin/b".to_string(),
            "/app/bin/a".to_string(),
            "/usr/bin".to_string(),
            "/bin".to_string(),
        ]
    );
}

#[test]
fn joining_voice() {
    assert_eq!(join_plan(false, Some(1), true, true), Err("This command only works in servers.".to_string()));
    assert_eq!(join_plan(true, None, true, true), Err("You must be in a voice channel!".to_string()));
    assert_eq!(join_plan(true, Some(1), false, true), Err("Failed to mount songbird".to_string()));
    assert_eq!(join_plan(true, Some(1), true, true), Ok(JoinPlan::Rejoin { channel_id: 1 }));
    assert_eq!(join_plan(true, Some(1), true, false), Ok(JoinPlan::JoinNew { channel_id: 1 }));
}

#[test]
fn metadata_defaults() {
    let m = song_metadata(
        None,
        "https://y".to_string(),
        None,
        None,
        None,
        "neo".to_string(),
        "https://a".to_string(),
    );
    assert_eq!(m.title, "Unknown");
    assert_eq!(m.author, "Unknown Author");
    assert_eq!(m.request_by_avatar, "https://a");
    assert_eq!(m.thumbnail, "");
    assert_eq!(m.url, "https://y");
    let m = song_metadata(
        Some("T".to_string()),
        "u".to_string(),
        Some("th".to_string()),
        None,
        Some("Chan".to_string()),
        "x".to_string(),
        String::new(),
    );
    assert_eq!(m.title, "T");
    assert_eq!(m.author, "Chan");
    assert_eq!(m.thumbnail, "th");
}
