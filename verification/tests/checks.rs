use disaity::checks::{
    diff_vc, dm_with_auth, not_empty_queue, not_mute, same_vc, user_not_deafen, GuildVoice,
    VoiceState,
};

fn vs(ch: Option<u64>) -> VoiceState {
    VoiceState { channel_id: ch, deaf: false, self_deaf: false, mute: false, self_mute: false }
}

fn err(s: &str) -> Result<bool, String> {
    Err(s.to_string())
}

#[test]
fn dm_auth() {
    assert_eq!(dm_with_auth(true, 1, 2), err("You are not authorized to use this command in DMs."));
    assert_eq!(dm_with_auth(true, 2, 2), Ok(true));
    assert_eq!(dm_with_auth(false, 1, 2), Ok(true));
}

#[test]
fn same_channel() {
    assert_eq!(same_vc(None), err("This command only works in servers."));
    let g = |u, b| Some(GuildVoice { user: Some(vs(u)), bot: Some(vs(b)) });
    assert_eq!(same_vc(g(Some(1), Some(1))), Ok(true));
    assert_eq!(same_vc(g(None, Some(1))), err("You must be in a voice channel"));
    assert_eq!(same_vc(g(Some(1), None)), err("I'm not in any channel"));
    assert_eq!(same_vc(g(Some(1), Some(2))), err("We must be in the same voice channel"));
    assert_eq!(
        same_vc(Some(GuildVoice { user: None, bot: None })),
        err("You must be in a voice channel")
    );
}

#[test]
fn different_channel() {
    assert_eq!(diff_vc(None), err("This command only works in servers."));
    let g = |u, b| Some(GuildVoice { user: Some(vs(u)), bot: Some(vs(b)) });
    assert_eq!(diff_vc(g(None, Some(1))), err("You need to be in a voice channel for me to join you!"));
    assert_eq!(diff_vc(g(Some(1), Some(1))), err("I'm already in your voice channel!"));
    assert_eq!(diff_vc(g(Some(1), Some(2))), Ok(true));
    assert_eq!(diff_vc(g(Some(1), None)), Ok(true));
}

#[test]
fn queue_not_empty() {
    assert_eq!(not_empty_queue(false, true, Some(1)), err("this commad only works in servers."));
    assert_eq!(not_empty_queue(true, false, Some(1)), err("failed to mount songbird"));
    assert_eq!(not_empty_queue(true, true, None), err("Not in a voice channel!"));
    assert_eq!(not_empty_queue(true, true, Some(0)), err("The queue is already empty!"));
    assert_eq!(not_empty_queue(true, true, Some(2)), Ok(true));
}

#[test]
fn deaf_and_mute() {
    let mut s = vs(Some(1));
    assert_eq!(user_not_deafen(Some(s)), Ok(true));
    assert_eq!(user_not_deafen(None), Ok(true));
    s.self_deaf = true;
    assert_eq!(user_not_deafen(Some(s)), err("You must be not deaffen to use that command"));
    let mut b = vs(Some(1));
    assert_eq!(not_mute(Some(b)), Ok(true));
    b.mute = true;
    assert_eq!(
        not_mute(Some(b)),
        err("🔇 **I'm currently muted.** Please unmute the me to use this command.")
    );
    assert_eq!(not_mute(None), Ok(true));
}
