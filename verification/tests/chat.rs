use disaity::chat::{select_history, split_reply, ChannelMessage, REPLY_CHUNK_CHARS};

fn msg(id: u64, content: &str, author: u64, bot: bool, replied: Option<u64>) -> ChannelMessage {
    ChannelMessage {
        id,
        content: content.to_string(),
        author_id: author,
        author_is_bot: bot,
        replied_to_author: replied,
    }
}

#[test]
fn history_keeps_the_users_asks_and_bot_replies_oldest_first() {
    // Newest first, as the channel returns them.
    let msgs = vec![
        msg(10, "-ask current question", 1, false, None),
        msg(9, "  the answer  ", 99, true, Some(1)),
        msg(8, "-a  second  ", 1, false, None),
        msg(7, "hello there", 1, false, None),
        msg(6, "/ask first", 1, false, None),
        msg(5, "-ask other user", 2, false, None),
        msg(4, "bot to someone else", 99, true, Some(2)),
        msg(3, "", 1, false, None),
    ];
    let h = select_history(&msgs, Some(10), 1);
    assert_eq!(
        h,
        vec![
            (false, "first".to_string()),
            (false, "second".to_string()),
            (true, "the answer".to_string()),
        ]
    );
}

#[test]
fn history_without_invoking_message_id_keeps_it() {
    let msgs = vec![msg(10, "-ask q", 1, false, None)];
    assert_eq!(select_history(&msgs, None, 1), vec![(false, "q".to_string())]);
    assert_eq!(select_history(&msgs, Some(10), 1), vec![]);
}

#[test]
fn history_holds_at_most_ten_newest_entries() {
    let msgs: Vec<ChannelMessage> = (0..15u64)
        .map(|i| msg(100 - i, &format!("-ask {}", i), 1, false, None))
        .collect();
    let h = select_history(&msgs, None, 1);
    assert_eq!(h.len(), 10);
    assert_eq!(h[0], (false, "9".to_string()));
    assert_eq!(h[9], (false, "0".to_string()));
}

#[test]
fn reply_split_into_pieces() {
    let text: String = "a".repeat(REPLY_CHUNK_CHARS * 2 + 5);
    let parts = split_reply(&text);
    assert_eq!(parts.len(), 3);
    assert_eq!(parts[0].chars().count(), 1900);
    assert_eq!(parts[1].chars().count(), 1900);
    assert_eq!(parts[2], "aaaaa");
    assert_eq!(parts.concat(), text);
}

#[test]
fn reply_split_counts_characters_not_bytes() {
    let text: String = "é".repeat(1901);
    let parts = split_reply(&text);
    assert_eq!(parts.len(), 2);
    assert_eq!(parts[1], "é");
}

#[test]
fn empty_reply_has_no_pieces() {
    assert!(split_reply("").is_empty());
    assert_eq!(split_reply("short"), vec!["short".to_string()]);
}
