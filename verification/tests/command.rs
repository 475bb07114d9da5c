use tslib::command::{Command, CommandContext, CommandHandler, CommandRegistry, FnHandler};
use tslib::error::BotError;

struct Echo;
impl CommandHandler for Echo {}

fn ctx(args: &[&str]) -> CommandContext {
    CommandContext::new(
        7,
        "alice".to_string(),
        None,
        "echo".to_string(),
        args.iter().map(|s| s.to_string()).collect(),
        "!echo".to_string(),
        false,
    )
}

#[test]
fn context_args() {
    let c = ctx(&["a", "bb", "c"]);
    assert_eq!(c.arg(1), Some("bb"));
    assert_eq!(c.arg(3), None);
    assert_eq!(c.arg_or(0, "x"), "a");
    assert_eq!(c.arg_or(9, "x"), "x");
    assert_eq!(c.args_string(), "a bb c");
    assert_eq!(c.args_from(1), "bb c");
    assert_eq!(c.args_from(3), "");
    assert_eq!(ctx(&[]).args_string(), "");
}

#[test]
fn require_args_reports_counts() {
    let c = ctx(&["a"]);
    assert!(c.require_args(1).is_ok());
    match c.require_args(3) {
        Err(BotError::NotEnoughArguments { expected, got }) => {
            assert_eq!(expected, 3);
            assert_eq!(got, 1);
        }
        _ => panic!("expected NotEnoughArguments"),
    }
}

#[test]
fn command_builder_sets_fields() {
    let c = Command::new("play", Echo).alias("p").alias("pl").help("Plays").usage("!play <url>").owner_only();
    assert_eq!(c.name, "play");
    assert_eq!(c.aliases, vec!["p".to_string(), "pl".to_string()]);
    assert_eq!(c.help.as_deref(), Some("Plays"));
    assert_eq!(c.usage.as_deref(), Some("!play <url>"));
    assert!(c.owner_only);
    assert!(!c.hidden);
    assert!(Command::new("x", Echo).hidden().hidden);
}

#[test]
fn registry_lookup_by_name_and_alias() {
    let mut r = CommandRegistry::new("!");
    r.register(Command::new("play", Echo).alias("p"));
    r.register(Command::new("stop", Echo));
    assert_eq!(r.get("play").unwrap().name, "play");
    assert_eq!(r.get("p").unwrap().name, "play");
    assert_eq!(r.get("stop").unwrap().name, "stop");
    assert!(r.get("pause").is_none());
}

#[test]
fn registry_parse() {
    let r: CommandRegistry<Echo> = CommandRegistry::new("!");
    let (cmd, args) = r.parse("!play  song\tnow ").unwrap();
    assert_eq!(cmd, "play");
    assert_eq!(args, vec!["song".to_string(), "now".to_string()]);
    assert!(r.parse("play song").is_none());
    assert!(r.parse("!   ").is_none());
    let (cmd, args) = r.parse("!x").unwrap();
    assert_eq!(cmd, "x");
    assert!(args.is_empty());
}

#[test]
fn all_commands_sorted_without_aliases() {
    let mut r = CommandRegistry::new("!");
    r.register(Command::new("zeta", Echo).alias("z"));
    r.register(Command::new("alpha", Echo).alias("a").hidden());
    r.register(Command::new("mid", Echo));
    let names: Vec<String> = r.all_commands().iter().map(|c| c.name.clone()).collect();
    assert_eq!(names, vec!["alpha", "mid", "zeta"]);
    let visible: Vec<String> = r.visible_commands().iter().map(|c| c.name.clone()).collect();
    assert_eq!(visible, vec!["mid", "zeta"]);
}

#[test]
fn re_registering_a_name_replaces_it() {
    let mut r = CommandRegistry::new("!");
    r.register(Command::new("a", Echo).help("old"));
    r.register(Command::new("a", Echo).help("new"));
    assert_eq!(r.get("a").unwrap().help.as_deref(), Some("new"));
    assert_eq!(r.all_commands().len(), 1);
}

#[test]
fn fn_handler_help() {
    let h = FnHandler::new(|x: u32| x + 1);
    assert_eq!(h.help(), None);
    let h = h.with_help("adds one");
    assert_eq!(h.help(), Some("adds one"));
    assert_eq!((h.handler())(1), 2);
    assert!(Echo.can_use(&ctx(&[])));
    assert_eq!(Echo.usage(), None);
}

#[test]
fn resolve_checks_owner_only() {
    let mut r = CommandRegistry::new("!");
    r.register(Command::new("kick", Echo).owner_only());
    r.register(Command::new("ping", Echo));
    let owners = vec!["uid-a".to_string()];
    let (cmd, ctx) = r
        .resolve(&owners, 3, "amy".into(), None, "!ping now".into(), true)
        .unwrap();
    assert_eq!(cmd.name, "ping");
    assert_eq!(ctx.command, "ping");
    assert_eq!(ctx.args, vec!["now".to_string()]);
    assert_eq!(ctx.raw_message, "!ping now");
    assert!(ctx.is_private);
    assert!(r.resolve(&owners, 3, "amy".into(), None, "!kick bob".into(), false).is_none());
    assert!(r.resolve(&owners, 3, "amy".into(), Some("uid-b".into()), "!kick bob".into(), false).is_none());
    assert!(r.resolve(&owners, 3, "amy".into(), Some("uid-a".into()), "!kick bob".into(), false).is_some());
    assert!(r.resolve(&owners, 3, "amy".into(), None, "!nope".into(), false).is_none());
    assert!(r.resolve(&owners, 3, "amy".into(), None, "ping".into(), false).is_none());
}

#[test]
fn help_text_lists_visible_commands() {
    let mut r = CommandRegistry::new("!");
    r.register(Command::new("ping", Echo).help("Replies pong"));
    r.register(Command::new("secret", Echo).hidden());
    r.register(Command::new("about", Echo));
    assert_eq!(
        r.help_text(),
        "Available commands:\n  about - No description\n  ping - Replies pong\n"
    );
    assert_eq!(r.prefix_str(), "!");
}
