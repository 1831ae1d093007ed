use disaity::checks::{GuildVoice, VoiceState};
use disaity::commands::playback::{
    apply_order, clear_decision, join_decision, jump_decision, jump_reply, pause_decision, repeat_decision, resume_decision, seek_decision,
    seek_reply, shuffle_decision, shuffle_order, skip_reply, stop_decision, voice_gate,
    volume_decision, JumpAction, LoopAction, PlayMode, RepeatMode,
};
use disaity::config::commands::Command;

fn vs(ch: Option<u64>) -> Option<VoiceState> {
    Some(VoiceState { channel_id: ch, deaf: false, self_deaf: false, mute: false, self_mute: false })
}

#[test]
fn gate_messages_in_order() {
    assert_eq!(
        voice_gate(Command::Skip, None, true, true),
        Some("This command only works in servers.".to_string())
    );
    assert_eq!(
        voice_gate(Command::Stop, None, true, true),
        Some("this commad ont works in servers.".to_string())
    );
    let g = |u, b| Some(GuildVoice { user: vs(u), bot: vs(b) });
    assert_eq!(
        voice_gate(Command::Stop, g(None, Some(1)), true, true),
        Some("you must be in a voice channel".to_string())
    );
    assert_eq!(
        voice_gate(Command::Stop, g(Some(1), None), true, true),
        Some("I'm not in any channel".to_string())
    );
    assert_eq!(
        voice_gate(Command::Stop, g(Some(1), Some(2)), true, true),
        Some("You must be in the same voice channel".to_string())
    );
    assert_eq!(
        voice_gate(Command::Stop, g(Some(1), Some(1)), false, true),
        Some("failed to mount songbird".to_string())
    );
    assert_eq!(
        voice_gate(Command::Stop, g(Some(1), Some(1)), true, false),
        Some("Not in a voice channel!".to_string())
    );
    assert_eq!(voice_gate(Command::Volume, g(Some(1), Some(1)), true, true), None);
}

#[test]
fn queue_command_replies() {
    assert_eq!(skip_reply(true), "skipped");
    assert_eq!(skip_reply(false), "failed to skip");
    assert_eq!(stop_decision(0), Err("Nothing is currently in queue to stop.".to_string()));
    assert_eq!(stop_decision(3), Ok("⏹ Stopped playback!".to_string()));
    assert_eq!(shuffle_decision(1), Err("Nothing is currently in queue to shuffle.".to_string()));
    assert_eq!(shuffle_decision(2), Ok("Shuffled the queue.".to_string()));
}

#[test]
fn shuffle_keeps_current_track_and_all_others() {
    for len in 0..8usize {
        let order = shuffle_order(len);
        assert_eq!(order.len(), len);
        if len > 0 {
            assert_eq!(order[0], 0);
        }
        let mut sorted = order.clone();
        sorted.sort();
        assert_eq!(sorted, (0..len).collect::<Vec<usize>>());
    }
}

#[test]
fn pause_and_resume() {
    assert_eq!(pause_decision(None), Err("Failed to get currrent queue".to_string()));
    assert_eq!(pause_decision(Some(PlayMode::Pause)), Err("The music is not playing".to_string()));
    assert_eq!(pause_decision(Some(PlayMode::Play)), Ok("⏸️ paused".to_string()));
    assert_eq!(resume_decision(None), Err("Nothing is in the queue to resume.".to_string()));
    assert_eq!(
        resume_decision(Some(PlayMode::Play)),
        Err("The music is already playing!".to_string())
    );
    assert_eq!(resume_decision(Some(PlayMode::Pause)), Ok("▶️ Resumed!".to_string()));
}

#[test]
fn volume_needs_a_playing_track() {
    assert_eq!(
        volume_decision(None),
        Some("Nothing is in the queue to change volume.".to_string())
    );
    assert_eq!(
        volume_decision(Some(PlayMode::Pause)),
        Some("The music is must be already playing to change it's volume.".to_string())
    );
    assert_eq!(volume_decision(Some(PlayMode::Play)), None);
}

#[test]
fn seek_decisions() {
    assert_eq!(
        seek_decision(None, "1:20"),
        Some(Err("Nothing is in the queue to seek.".to_string()))
    );
    assert_eq!(
        seek_decision(Some(PlayMode::Pause), "1:20"),
        Some(Err("The music is must be already playing to seek a time frame in it".to_string()))
    );
    assert_eq!(seek_decision(Some(PlayMode::Play), "1:20"), Some(Ok(80)));
    assert_eq!(
        seek_decision(Some(PlayMode::Play), "abc"),
        Some(Err(
            "Invalid time: Unexpected character `a` in time string. Examples: `1:20`, `90`, `1m20s`, `1:02:30`"
                .to_string()
        ))
    );
    assert_eq!(seek_decision(Some(PlayMode::Play), "5124095576030432:00:00"), None);
    assert_eq!(seek_reply(80), "Seeked to 1:20");
}

#[test]
fn repeat_modes() {
    let (a, m) = repeat_decision(Some(RepeatMode::Song), false);
    assert_eq!((a, m.as_str()), (LoopAction::Enable, "🔁 **Loop enabled** for the current track."));
    let (a, m) = repeat_decision(Some(RepeatMode::Disable), true);
    assert_eq!((a, m.as_str()), (LoopAction::Disable, "➡️ **Loop disabled**"));
    let (a, m) = repeat_decision(Some(RepeatMode::Toggle), true);
    assert_eq!((a, m.as_str()), (LoopAction::Disable, "➡️ **Loop disabled*."));
    let (a, m) = repeat_decision(Some(RepeatMode::Toggle), false);
    assert_eq!((a, m.as_str()), (LoopAction::Enable, "🔁 **Loop enabled**."));
    let (a, _) = repeat_decision(None, false);
    assert_eq!(a, LoopAction::Keep);
}

#[test]
fn jump_decisions() {
    assert_eq!(jump_decision(0, 3), Err("Track numbers start from 1.".to_string()));
    assert_eq!(
        jump_decision(4, 3),
        Err("That track number does not exist in the queue.".to_string())
    );
    assert_eq!(jump_decision(1, 3), Ok(JumpAction::Skip));
    assert_eq!(jump_decision(3, 3), Ok(JumpAction::DropFront(2)));
    assert_eq!(jump_reply(3), "▶️ Jumped to track 3!");
}

#[test]
fn clear_needs_guild_manager_and_call() {
    assert_eq!(clear_decision(false, true, true), Err("This command only works in servers.".to_string()));
    assert_eq!(clear_decision(true, false, true), Err("failed to mount songbird".to_string()));
    assert_eq!(clear_decision(true, true, false), Err("Not in a voice channel!".to_string()));
    assert_eq!(clear_decision(true, true, true), Ok("🗑️ Queue cleared!".to_string()));
}

#[test]
fn join_needs_guild_and_manager() {
    assert_eq!(join_decision(false, true), Err("This command only works in servers.".to_string()));
    assert_eq!(join_decision(true, false), Err("failed to mount songbird".to_string()));
    assert_eq!(join_decision(true, true), Ok("Yes?".to_string()));
}

#[test]
fn apply_order_moves_items_to_their_new_places() {
    let items = vec!["a".to_string(), "b".to_string(), "c".to_string(), "d".to_string()];
    assert_eq!(
        apply_order(items, &vec![0, 3, 1, 2]),
        vec!["a".to_string(), "d".to_string(), "b".to_string(), "c".to_string()]
    );
    let shuffled = apply_order(vec![10, 11, 12, 13, 14], &shuffle_order(5));
    assert_eq!(shuffled[0], 10);
    let mut sorted = shuffled.clone();
    sorted.sort();
    assert_eq!(sorted, vec![10, 11, 12, 13, 14]);
}
