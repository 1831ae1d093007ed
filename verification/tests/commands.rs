use disaity::commands::help::{help_author_name, help_footer_quote, help_menu_id, help_menu_options};
use disaity::commands::play::{fetched_reply, needs_search, play_timeout, should_deafen, timeout_message};
use disaity::config::commands::{Category, Command, CommandConfig, CommandRegistry};

fn cfg(name: &str, category: &str, action: Option<&str>) -> CommandConfig {
    CommandConfig {
        name: name.to_string(),
        keys: vec![],
        category: category.to_string(),
        description: String::new(),
        timeout: None,
        action: action.map(|a| a.to_string()),
        options: None,
    }
}

#[test]
fn play_settings() {
    assert_eq!(play_timeout(None), 30);
    assert_eq!(play_timeout(Some(45)), 45);
    assert_eq!(
        timeout_message(30),
        "The playlist or song took too long to load (30s limit). Try a shorter query!"
    );
    assert!(should_deafen(1, 2, 0));
    assert!(!should_deafen(2, 2, 0));
    assert!(!should_deafen(1, 2, 3));
}

#[test]
fn play_replies() {
    assert_eq!(fetched_reply(Some("Song"), 1), "**Fetched** Song");
    assert_eq!(fetched_reply(Some("Song"), 4), "**Fetched** Song and its playlist");
    assert_eq!(fetched_reply(None, 0), "**Fetched** Unknown");
    assert!(needs_search("never gonna give you up"));
    assert!(!needs_search("https://youtu.be/x"));
}

#[test]
fn help_menu() {
    let reg = CommandRegistry::new(vec![
        (Command::Help, cfg("help", "other", Some("help_select"))),
        (Command::Play, cfg("play", "music", None)),
    ]);
    assert_eq!(help_menu_id(reg.get_command(&Command::Help)), "help_select");
    assert_eq!(help_menu_id(reg.get_command(&Command::Play)), "help_menu");
    let opts = help_menu_options(&reg);
    assert_eq!(
        opts,
        vec![
            ("🎶 music".to_string(), "music".to_string()),
            ("⚙️ other".to_string(), "other".to_string()),
        ]
    );
    let cats: Vec<Category> = reg.categories.iter().map(|(c, _)| *c).collect();
    assert_eq!(cats, vec![Category::Music, Category::Other]);
    assert_eq!(help_author_name("Emilia"), "Emilia 💖");
}

#[test]
fn help_footer() {
    assert_eq!(help_footer_quote(&vec![]), "");
    let quotes = vec!["a".to_string(), "b".to_string()];
    for _ in 0..10 {
        let q = help_footer_quote(&quotes);
        assert!(quotes.contains(&q));
    }
}
