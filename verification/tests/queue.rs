use disaity::commands::queue::{
    next_page, page_count, page_description, page_footer, prev_page, queue_line, queue_lines,
};
use disaity::handlers::{SongMetadata, TrackLength};

fn song(title: &str, secs: Option<u64>) -> SongMetadata {
    SongMetadata {
        title: title.to_string(),
        url: format!("https://x/{}", title),
        thumbnail: String::new(),
        duration: secs.map(|s| TrackLength { secs: s, nanos: 0 }),
        request_by: "neo".to_string(),
        request_by_avatar: "https://a".to_string(),
        author: "Band".to_string(),
    }
}

#[test]
fn queue_line_format() {
    assert_eq!(
        queue_line(0, &song("A", Some(125))),
        "**1.** [A](https://x/A) | `2:05`\n*Requested by: neo*"
    );
    assert_eq!(
        queue_line(9, &song("B", None)),
        "**10.** [B](https://x/B) | `??:??`\n*Requested by: neo*"
    );
}

#[test]
fn pages_of_five() {
    assert_eq!(page_count(0), 0);
    assert_eq!(page_count(1), 1);
    assert_eq!(page_count(5), 1);
    assert_eq!(page_count(6), 2);
    assert_eq!(page_count(12), 3);
    let m = usize::MAX;
    assert_eq!(page_count(m), m / 5 + if m % 5 == 0 { 0 } else { 1 });
    assert_eq!(page_count(16_777_217), 3_355_444);
}

#[test]
fn navigation_wraps_around() {
    assert_eq!(prev_page(0, 3), 2);
    assert_eq!(prev_page(2, 3), 1);
    assert_eq!(next_page(2, 3), 0);
    assert_eq!(next_page(0, 3), 1);
    assert_eq!(next_page(prev_page(0, 3), 3), 0);
}

#[test]
fn page_content_and_footer() {
    let tracks: Vec<SongMetadata> = (0..7).map(|i| song(&format!("t{}", i), Some(60))).collect();
    let lines = queue_lines(&tracks);
    assert_eq!(lines.len(), 7);
    let second = page_description(&lines, 1);
    assert_eq!(second, format!("{}\n\n{}", lines[5], lines[6]));
    let first = page_description(&lines, 0);
    assert_eq!(first, lines[0..5].join("\n\n"));
    assert_eq!(page_footer(1, 2, 7), "Page 2 of 2 | Total songs: 7");
}

#[test]
fn every_line_is_on_exactly_one_page() {
    for n in 0..13usize {
        let tracks: Vec<SongMetadata> = (0..n).map(|i| song(&format!("s{}", i), None)).collect();
        let lines = queue_lines(&tracks);
        let pages = page_count(n);
        let mut all: Vec<String> = Vec::new();
        for p in 0..pages {
            let d = page_description(&lines, p);
            assert!(!d.is_empty());
            all.push(d);
        }
        let joined_pages = all.join("\n\n");
        assert_eq!(joined_pages, lines.join("\n\n"));
    }
}
