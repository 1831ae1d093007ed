use disaity::config::characters::{Character, CharacterConfig, CharacterRegistry};
use disaity::config::commands::{Category, Command, CommandConfig, CommandRegistry};

fn cfg(name: &str, category: &str) -> CommandConfig {
    CommandConfig {
        name: name.to_string(),
        keys: vec![name[..1].to_string()],
        category: category.to_string(),
        description: format!("{} description", name),
        timeout: None,
        action: None,
        options: None,
    }
}

#[test]
fn command_names_round_trip() {
    assert_eq!(Command::from_name("clear_prayer"), Some(Command::ClearPrayer));
    assert_eq!(Command::from_name("play"), Some(Command::Play));
    assert_eq!(Command::from_name("Play"), None);
    assert_eq!(Command::from_name("unknown"), None);
    for c in Command::all() {
        assert_eq!(Command::from_name(c.name()), Some(c));
    }
}

#[test]
fn category_names_round_trip() {
    assert_eq!(Category::from_name("music"), Some(Category::Music));
    assert_eq!(Category::from_name("subscription"), Some(Category::Subscription));
    assert_eq!(Category::from_name("Music"), None);
    assert_eq!(Category::Other.name(), "other");
}

#[test]
fn registry_groups_commands_by_category() {
    let reg = CommandRegistry::new(vec![
        (Command::Play, cfg("play", "music")),
        (Command::Ask, cfg("ask", "chat")),
        (Command::Skip, cfg("skip", "music")),
        (Command::Help, cfg("help", "misc")),
    ]);
    assert_eq!(reg.get_command(&Command::Ask).name, "ask");
    let music = reg.get_cmds_from_cat(&Category::Music);
    let names: Vec<&str> = music.iter().map(|c| c.name.as_str()).collect();
    assert_eq!(names, vec!["play", "skip"]);
    let cats: Vec<Category> = reg.categories.iter().map(|(c, _)| *c).collect();
    assert_eq!(cats, vec![Category::Chat, Category::Music]);
    assert_eq!(
        reg.category_warnings(),
        vec!["Warning: Unknown category 'misc' in command 'help'".to_string()]
    );
}

#[test]
fn later_entry_replaces_earlier_one() {
    let reg = CommandRegistry::new(vec![
        (Command::Play, cfg("play", "music")),
        (Command::Play, cfg("p2", "other")),
    ]);
    assert_eq!(reg.commands.len(), 1);
    assert_eq!(reg.get_command(&Command::Play).name, "p2");
    assert_eq!(reg.get_cmds_from_cat(&Category::Other).len(), 1);
    assert!(reg.categories.iter().all(|(c, _)| *c != Category::Music));
}

#[test]
fn category_emojis() {
    let reg = CommandRegistry::new(vec![]);
    assert_eq!(reg.get_cat_emoji(&Category::Music), "🎶");
    assert_eq!(reg.get_cat_emoji(&Category::Subscription), "📢");
    assert_eq!(reg.get_cat_emoji(&Category::Chat), "🗨️");
    assert_eq!(reg.get_cat_emoji(&Category::Other), "⚙️");
}

#[test]
fn character_lookup() {
    let reg = CharacterRegistry::new(vec![(
        Character::Emilia,
        CharacterConfig { name: "Emilia".to_string(), personality: "kind".to_string() },
    )]);
    assert_eq!(reg.get_character(&Character::Emilia).map(|c| c.name.as_str()), Some("Emilia"));
    let empty = CharacterRegistry::new(vec![]);
    assert!(empty.get_character(&Character::Emilia).is_none());
    assert_eq!(Character::Emilia.name(), "emilia");
}

#[test]
fn config_for_registered_name() {
    let reg = CommandRegistry::new(vec![(Command::ClearPrayer, cfg("clear_prayer", "subscription"))]);
    let (c, conf) = reg.config_for_name("clear_prayer");
    assert_eq!(c, Command::ClearPrayer);
    assert_eq!(conf.category, "subscription");
    assert!(reg.has_command(&Command::ClearPrayer));
    assert!(!reg.has_command(&Command::Play));
}
