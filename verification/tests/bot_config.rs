use artifactsmmo_semi_auto_bot::bot_config::{
    BaseBotConfig, BotConfig, CharConfig, Goal, Role, TaskType,
};
use artifactsmmo_semi_auto_bot::sdk::skill::Skill;

fn config() -> CharConfig {
    CharConfig::new(
        false,
        true,
        TaskType::Items,
        vec![Skill::Mining, Skill::Fishing, Skill::Mining],
        vec![Goal::Orders],
    )
}

#[test]
fn char_config_skills_are_a_set() {
    let c = config();
    assert!(c.skill_is_enabled(Skill::Mining));
    assert!(c.skill_is_enabled(Skill::Fishing));
    assert!(!c.skill_is_enabled(Skill::Cooking));
    assert_eq!(2, c.skills().len());
    assert!(c.is_trader());
    assert!(!c.is_idle());
    assert_eq!(TaskType::Items, c.task_type);
    assert_eq!(vec![Goal::Orders], c.goals);
}

#[test]
fn char_config_enable_disable() {
    let mut c = config();
    c.disable_skill(Skill::Mining);
    assert!(!c.skill_is_enabled(Skill::Mining));
    assert_eq!(1, c.skills().len());
    c.disable_skill(Skill::Mining);
    assert_eq!(1, c.skills().len());
    c.enable_skill(Skill::Cooking);
    c.enable_skill(Skill::Cooking);
    assert!(c.skill_is_enabled(Skill::Cooking));
    assert_eq!(2, c.skills().len());
    c.toggle_idle();
    assert!(c.is_idle());
    c.toggle_idle();
    assert!(!c.is_idle());
}

#[test]
fn char_config_default() {
    let c = CharConfig::default();
    assert!(!c.is_idle());
    assert!(!c.is_trader());
    assert_eq!(TaskType::Monsters, c.task_type);
    assert!(c.skills().is_empty());
    assert!(c.goals.is_empty());
    let d = c.duplicate();
    assert!(d.skills().is_empty());
}

#[test]
fn role_skills() {
    assert_eq!(None, Role::Fighter.to_skill());
    assert_eq!(Some(Skill::Mining), Role::Miner.to_skill());
    assert_eq!(Some(Skill::Woodcutting), Role::Woodcutter.to_skill());
    assert_eq!(Some(Skill::Fishing), Role::Fisher.to_skill());
    assert_eq!(Some(Skill::Weaponcrafting), Role::Weaponcrafter.to_skill());
    assert_eq!(Role::Fighter, Role::default());
}

#[test]
fn bot_config_reads_and_reloads() {
    let base = BaseBotConfig {
        base_url: "https://api.artifactsmmo.com".to_string(),
        token: "SECRET-REDACTED".to_string(),
        characters: vec![config()],
        order_gear: true,
    };
    let mut bot = BotConfig::from_file(base);
    assert!(bot.order_gear());
    let c = bot.get_char_config(0).unwrap();
    assert!(c.skill_is_enabled(Skill::Fishing));
    assert!(bot.get_char_config(1).is_none());
    bot.reload(BaseBotConfig::default());
    assert!(!bot.order_gear());
    assert!(bot.get_char_config(0).is_none());
}

#[test]
fn base_bot_config_get_char_config() {
    let base = BaseBotConfig {
        base_url: String::new(),
        token: String::new(),
        characters: vec![CharConfig::default(), config()],
        order_gear: false,
    };
    assert!(base.get_char_config(1).unwrap().is_trader());
    assert!(!base.get_char_config(0).unwrap().is_trader());
    assert!(base.get_char_config(2).is_none());
}

#[test]
fn bot_config_edits_the_stored_entries() {
    let base = BaseBotConfig {
        base_url: String::new(),
        token: String::new(),
        characters: vec![config(), CharConfig::default()],
        order_gear: false,
    };
    let mut bot = BotConfig::from_file(base);
    bot.toggle_idle(1);
    assert!(bot.get_char_config(1).unwrap().is_idle());
    assert!(!bot.get_char_config(0).unwrap().is_idle());
    bot.enable_skill(1, Skill::Cooking);
    assert!(bot.get_char_config(1).unwrap().skill_is_enabled(Skill::Cooking));
    assert!(!bot.get_char_config(0).unwrap().skill_is_enabled(Skill::Cooking));
    bot.disable_skill(0, Skill::Mining);
    assert!(!bot.get_char_config(0).unwrap().skill_is_enabled(Skill::Mining));
    assert!(bot.get_char_config(0).unwrap().skill_is_enabled(Skill::Fishing));
    bot.toggle_idle(5);
    assert_eq!(vec![Goal::Orders], *bot.get_char_config(0).unwrap().goals());
    assert_eq!(TaskType::Items, bot.get_char_config(0).unwrap().task_type());
    let mut base = BaseBotConfig::default();
    base.characters.push(CharConfig::default());
    base.toggle_idle(0);
    base.enable_skill(0, Skill::Alchemy);
    base.disable_skill(0, Skill::Alchemy);
    assert!(base.get_char_config(0).unwrap().is_idle());
    assert!(base.get_char_config(0).unwrap().skills().is_empty());
}
