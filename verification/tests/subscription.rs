use disaity::commands::subscription::{
    clear_prayer_reply, new_subscription_info, prayer_announcement, prayer_decision, prayer_reply,
    ChannelKind, PrayerSubscription, PrayerSubscriptionInfo,
};

fn info(ch: u64) -> PrayerSubscriptionInfo {
    PrayerSubscriptionInfo { channel_id: ch, role_id: None, city: "Cairo".to_string(), country: "Egypt".to_string() }
}

#[test]
fn subscription_store() {
    let mut s = PrayerSubscription::new("/data", None);
    assert_eq!(s.path(), "/data/prayer_subscriptions.json");
    assert_eq!(s.tmp_path(), "/data/prayer_subscriptions.json.tmp");
    assert!(s.get_subscription(1).is_none());
    s.add_subscription(1, info(10));
    s.add_subscription(2, info(20));
    assert_eq!(s.get_subscription(1).map(|i| i.channel_id), Some(10));
    s.add_subscription(1, info(11));
    assert_eq!(s.get_subscription(1).map(|i| i.channel_id), Some(11));
    assert_eq!(s.remove_subscription(1).map(|i| i.channel_id), Some(11));
    assert!(s.get_subscription(1).is_none());
    assert!(s.remove_subscription(1).is_none());
    assert_eq!(s.get_subscription(2).map(|i| i.channel_id), Some(20));
}

#[test]
fn subscription_details_are_trimmed() {
    let i = new_subscription_info(5, Some(6), "  New York ", " USA\t");
    assert_eq!(i.city, "New York");
    assert_eq!(i.country, "USA");
    assert_eq!(i.channel_id, 5);
    assert_eq!(i.role_id, Some(6));
}

#[test]
fn prayer_checks() {
    assert_eq!(
        prayer_decision(false, None, None, false),
        Err("must be in guild to use that command".to_string())
    );
    assert_eq!(
        prayer_decision(true, None, None, false),
        Err("failed to find the channel.".to_string())
    );
    assert_eq!(
        prayer_decision(true, Some(ChannelKind::Text), Some(3), false),
        Err("failed to find the role.".to_string())
    );
    assert_eq!(
        prayer_decision(true, Some(ChannelKind::Other), None, false),
        Err("you can subscribe only on a text channel".to_string())
    );
    assert_eq!(prayer_decision(true, Some(ChannelKind::Text), Some(3), true), Ok(Some(3)));
    assert_eq!(prayer_decision(true, Some(ChannelKind::Text), None, false), Ok(None));
}

#[test]
fn prayer_texts() {
    assert_eq!(
        prayer_announcement(" Cairo", "Egypt"),
        "🕌 Prayer notifications successfully configured for ** Cairo, Egypt** in this channel!"
    );
    assert_eq!(prayer_reply("general"), "subscribed the prayer time on **general**");
    assert_eq!(
        clear_prayer_reply(true),
        "❌ Successfully disabled and cleared prayer time notifications for this server."
    );
    assert_eq!(
        clear_prayer_reply(false),
        "⚠️ There is no active prayer time subscription configured for this server."
    );
}
