use disaity::handlers::idle::{IdleAction, IdleEvent, IdleTimer, IDLE_TIMEOUT_SECS};
use disaity::handlers::playing::{now_playing_embed, queue_summary, total_secs, NowPlayingMessage};
use disaity::handlers::ready::{next_status_index, statuses, ActivityKind, STATUS_INTERVAL_SECS};
use disaity::handlers::{SongMetadata, TrackLength};

#[test]
fn idle_timer_cycle() {
    let mut t = IdleTimer::new();
    assert!(!t.armed);
    assert_eq!(t.step(IdleEvent::Registered), IdleAction::Restart);
    assert!(t.armed);
    assert_eq!(t.step(IdleEvent::TrackPlay), IdleAction::Cancel);
    assert!(!t.armed);
    assert_eq!(t.step(IdleEvent::TrackEnd { queue_empty: Some(false) }), IdleAction::Nothing);
    assert!(!t.armed);
    assert_eq!(t.step(IdleEvent::TrackEnd { queue_empty: None }), IdleAction::Nothing);
    assert_eq!(t.step(IdleEvent::TrackEnd { queue_empty: Some(true) }), IdleAction::Restart);
    assert!(t.armed);
    assert_eq!(t.step(IdleEvent::TimerFired), IdleAction::Leave);
    assert!(!t.armed);
    assert_eq!(IDLE_TIMEOUT_SECS, 60);
}

fn song(secs: Option<u64>) -> SongMetadata {
    SongMetadata {
        title: "T".to_string(),
        url: "https://u".to_string(),
        thumbnail: "https://i".to_string(),
        duration: secs.map(|s| TrackLength { secs: s, nanos: 0 }),
        request_by: "neo".to_string(),
        request_by_avatar: "https://a".to_string(),
        author: "Band".to_string(),
    }
}

#[test]
fn now_playing_contents() {
    let e = now_playing_embed(&song(Some(185)));
    assert_eq!(e.title, "T");
    assert_eq!(e.url, "https://u");
    assert_eq!(e.thumbnail, "https://i");
    assert_eq!(e.color, 0x0099ff);
    assert_eq!(e.duration, "`03:05`");
    assert_eq!(e.author, "Band");
    assert_eq!(e.footer_icon, "https://a");
    assert_eq!(e.footer, "Requested by neo");
    assert_eq!(now_playing_embed(&song(None)).duration, "`Live/Unknown`");
}

#[test]
fn summed_lengths_carry_nanoseconds() {
    let ls = vec![
        Some(TrackLength { secs: 10, nanos: 600_000_000 }),
        None,
        Some(TrackLength { secs: 20, nanos: 500_000_000 }),
    ];
    assert_eq!(total_secs(&ls), 31);
    assert_eq!(queue_summary(&ls), "`3 for 00:31`");
    assert_eq!(queue_summary(&vec![]), "`0 for 00:00`");
}

#[test]
fn announcement_is_deleted_once() {
    let mut m = NowPlayingMessage::new();
    m.started(Some(42));
    assert_eq!(m.ended(), Some(42));
    assert_eq!(m.ended(), None);
    m.started(None);
    assert_eq!(m.ended(), None);
}

#[test]
fn status_rotation() {
    let s = statuses();
    assert_eq!(s.len(), 3);
    assert_eq!(s[0], (ActivityKind::Playing, "hide & seek with Puck".to_string()));
    assert_eq!(s[1], (ActivityKind::Watching, "a Man becomes a Hero".to_string()));
    assert_eq!(s[2], (ActivityKind::Listening, "stories with Rem & Ram".to_string()));
    let mut i = 0;
    let mut seen = vec![];
    for _ in 0..4 {
        seen.push(i);
        i = next_status_index(i, s.len());
    }
    assert_eq!(seen, vec![0, 1, 2, 0]);
    assert_eq!(STATUS_INTERVAL_SECS, 15 * 60);
}
