use swordfish::commands::{
    classify_embed, debug_command, is_analysis, is_drop_announcement, message_reference,
    parse_debug_command, CommandError, DebugCommand, EmbedKind, ReferenceError,
};
use swordfish::config::{
    engine_settings, message_in_blacklist, message_in_whitelist, select_backend, Config, List,
    OcrBackend,
};
use swordfish::extract::Listing;
use swordfish::pool::{EnginePool, MAINTENANCE_PAUSE_MS, POOL_TARGET};
use swordfish::records::{Character, DroppedCard};
use swordfish::reply::format_card_line;
use swordfish::store::{plan_write, plan_writes, stamp, WriteAction};

fn record(name: &str, ts: i64) -> Character {
    Character {
        wishlist: Some(5),
        name: name.to_string(),
        series: "Series".to_string(),
        last_update_ts: ts,
    }
}

#[test]
fn fresh_settings() {
    let c = Config::new();
    assert_eq!(c.log.level, "info");
    assert!(!c.log.file.enabled);
    assert_eq!(c.log.file.path, "swordfish.log");
    assert_eq!(c.tesseract.backend, "libtesseract");
    assert!(c.debug.allowed_users.is_empty());
    for analyzer in [&c.features.katana_drop_analysis, &c.features.sofa_drop_analysis] {
        assert!(!analyzer.enabled);
        for list in [&analyzer.blacklist, &analyzer.whitelist] {
            assert!(!list.enabled);
            assert!(list.servers.is_empty());
            assert!(list.channels.is_empty());
        }
    }
    assert_eq!(c.backend(), Some(OcrBackend::Pooled));
}

#[test]
fn backend_is_chosen_by_name() {
    assert_eq!(select_backend("libtesseract"), Some(OcrBackend::Pooled));
    assert_eq!(select_backend("subprocess"), Some(OcrBackend::Subprocess));
    assert_eq!(select_backend("Subprocess"), None);
    assert_eq!(select_backend(""), None);
    assert_eq!(select_backend("libtesseract "), None);
}

#[test]
fn engines_are_set_up_by_backend() {
    let pooled = engine_settings(OcrBackend::Pooled, false);
    assert_eq!(pooled.language, "eng");
    assert_eq!((pooled.page_seg_mode, pooled.engine_mode), (6, 1));
    assert_eq!(pooled.dpi, Some(70));
    assert_eq!(pooled.whitelist, None);
    let outside = engine_settings(OcrBackend::Subprocess, true);
    assert_eq!(outside.dpi, None);
    assert_eq!(outside.whitelist, Some("0123456789".to_string()));
    assert_eq!((outside.page_seg_mode, outside.engine_mode), (6, 1));
}

#[test]
fn blacklist_counts_only_while_enabled() {
    let list = List { enabled: true, servers: vec![1, 2], channels: vec![10] };
    assert!(message_in_blacklist(Some(2), 99, &list));
    assert!(message_in_blacklist(Some(3), 10, &list));
    assert!(!message_in_blacklist(Some(3), 11, &list));
    assert!(!message_in_blacklist(None, 10, &list));
    let off = List { enabled: false, servers: vec![1, 2], channels: vec![10] };
    assert!(!message_in_blacklist(Some(2), 10, &off));
}

#[test]
fn whitelist_lets_everything_in_while_disabled() {
    let list = List { enabled: true, servers: vec![1, 2], channels: vec![10] };
    assert!(message_in_whitelist(Some(2), 99, &list));
    assert!(message_in_whitelist(Some(3), 10, &list));
    assert!(!message_in_whitelist(Some(3), 11, &list));
    assert!(!message_in_whitelist(None, 10, &list));
    let off = List { enabled: false, servers: vec![], channels: vec![] };
    assert!(message_in_whitelist(Some(3), 11, &off));
    assert!(message_in_whitelist(None, 11, &off));
}

#[test]
fn pool_hands_out_what_waits() {
    let mut pool: EnginePool<&str> = EnginePool::new(2);
    assert_eq!(pool.idle_count(), 0);
    assert!(pool.needs_refill());
    assert_eq!(pool.acquire(), None);
    assert_eq!(pool.refill("a"), None);
    assert_eq!(pool.refill("b"), None);
    assert!(!pool.needs_refill());
    assert_eq!(pool.refill("c"), Some("c"));
    assert_eq!(pool.idle_count(), 2);
    assert_eq!(pool.acquire(), Some("b"));
    assert!(pool.needs_refill());
    pool.release("b");
    pool.release("d");
    assert_eq!(pool.idle_count(), 3);
    assert_eq!(pool.acquire(), Some("d"));
    assert_eq!(pool.acquire(), Some("b"));
    assert_eq!(pool.acquire(), Some("a"));
    assert_eq!(pool.acquire(), None);
    assert_eq!((POOL_TARGET, MAINTENANCE_PAUSE_MS), (9, 500));
}

#[test]
fn written_records_are_stamped() {
    assert_eq!(stamp(record("a", 0), 1700000000), record("a", 1700000000));
    assert_eq!(stamp(record("a", 5), 0), record("a", 0));
    assert_eq!(plan_write(record("a", 0), true, 7), WriteAction::Replace(record("a", 7)));
    assert_eq!(plan_write(record("a", 3), false, 7), WriteAction::Insert(record("a", 7)));
}

#[test]
fn known_records_are_replaced_and_new_ones_added() {
    let entries = vec![
        (record("a", 0), false),
        (record("b", 1), true),
        (record("c", 2), false),
        (record("d", 3), true),
    ];
    let plan = plan_writes(entries, 42);
    assert_eq!(plan.replacements, vec![record("b", 42), record("d", 42)]);
    assert_eq!(plan.insertions, vec![record("a", 42), record("c", 42)]);
    let nothing = plan_writes(Vec::new(), 42);
    assert!(nothing.replacements.is_empty() && nothing.insertions.is_empty());
}

fn dropped(wishlist: Option<u32>, ts: i64, print: i32) -> DroppedCard {
    DroppedCard {
        character: Character {
            wishlist,
            name: "Rem".to_string(),
            series: "Re:Zero".to_string(),
            last_update_ts: ts,
        },
        print,
        edition: 0,
    }
}

#[test]
fn card_line_shows_count_name_and_age() {
    assert_eq!(
        format_card_line(&dropped(Some(448), 1700000000, 0)),
        ":heart: `448  ` \u{2022} `0` \u{2022} **Rem** \u{2022} Re:Zero \u{2022} <t:1700000000:R>\n"
    );
    assert_eq!(
        format_card_line(&dropped(None, 0, 0)),
        ":heart: `None ` \u{2022} `0` \u{2022} **Rem** \u{2022} Re:Zero \u{2022} `Never`\n"
    );
    assert_eq!(
        format_card_line(&dropped(Some(1234567), -5, -12)),
        ":heart: `1234567` \u{2022} `-12` \u{2022} **Rem** \u{2022} Re:Zero \u{2022} <t:-5:R>\n"
    );
    assert_eq!(
        format_card_line(&dropped(Some(0), i64::MIN, i32::MIN)),
        ":heart: `0    ` \u{2022} `-2147483648` \u{2022} **Rem** \u{2022} Re:Zero \u{2022} <t:-9223372036854775808:R>\n"
    );
}

#[test]
fn debug_commands_by_name() {
    assert_eq!(parse_debug_command("info"), Some(DebugCommand::Info));
    assert_eq!(parse_debug_command("kdropanalyze"), Some(DebugCommand::DropAnalyze));
    assert_eq!(parse_debug_command("kda"), Some(DebugCommand::DropAnalyze));
    assert_eq!(parse_debug_command("embed"), Some(DebugCommand::Embed));
    assert_eq!(parse_debug_command("message"), Some(DebugCommand::Message));
    assert_eq!(parse_debug_command("regexify-text"), Some(DebugCommand::RegexifyText));
    assert_eq!(parse_debug_command("regextxt"), Some(DebugCommand::RegexifyText));
    assert_eq!(parse_debug_command("parse-qingque-atopwl"), Some(DebugCommand::ParseTopWishlist));
    assert_eq!(parse_debug_command("parse-katana-kc_ow"), Some(DebugCommand::ParseCollection));
    assert_eq!(parse_debug_command("parse-katana-klu_lookup"), Some(DebugCommand::ParseLookup));
    assert_eq!(parse_debug_command("parse-katana-klu_results"), Some(DebugCommand::ParseResults));
    assert_eq!(parse_debug_command("parse-calf-analysis"), Some(DebugCommand::ParseAnalysis));
    assert_eq!(parse_debug_command("Info"), None);
    assert_eq!(parse_debug_command(""), None);
}

#[test]
fn debug_command_is_the_second_word() {
    assert_eq!(debug_command("!debug kda 1 2"), Ok(DebugCommand::DropAnalyze));
    assert_eq!(debug_command("!debug info"), Ok(DebugCommand::Info));
    assert_eq!(debug_command("!debug"), Err(CommandError::Usage));
    assert_eq!(debug_command(""), Err(CommandError::Usage));
    assert_eq!(debug_command("!debug  info"), Err(CommandError::Unknown));
    assert_eq!(debug_command("!debug nothing"), Err(CommandError::Unknown));
}

#[test]
fn debug_message_points_at_channel_and_message() {
    assert_eq!(message_reference("!debug embed 123 456"), Ok((123, 456)));
    assert_eq!(message_reference("!debug embed 123 456 more"), Ok((123, 456)));
    assert_eq!(message_reference("!debug embed"), Err(ReferenceError::NoChannel));
    assert_eq!(message_reference("!debug embed x 456"), Err(ReferenceError::BadChannel));
    assert_eq!(message_reference("!debug embed 123"), Err(ReferenceError::NoMessage));
    assert_eq!(message_reference("!debug embed 123 -4"), Err(ReferenceError::BadMessage));
    assert_eq!(message_reference("!debug embed  123 456"), Err(ReferenceError::BadChannel));
}

#[test]
fn drops_are_announced_in_two_ways() {
    assert!(is_drop_announcement("<@1> is dropping 3 cards!"));
    assert!(is_drop_announcement("I'm dropping 3 cards since this server is currently active!"));
    assert!(!is_drop_announcement("someone is dropping cards"));
    assert!(!is_drop_announcement("cards!"));
    assert!(is_analysis("** Apricot v6 Drop Analysis Engine **\n..."));
    assert!(!is_analysis("Apricot v5 Drop Analysis Engine"));
}

#[test]
fn embeds_are_told_apart_by_author_and_title() {
    assert_eq!(
        classify_embed(Some("Card Collection"), None),
        EmbedKind::Listing(Listing::Collection)
    );
    assert_eq!(
        classify_embed(Some("Card Collection"), Some("Character Lookup")),
        EmbedKind::Listing(Listing::Collection)
    );
    assert_eq!(classify_embed(None, Some("Character Lookup")), EmbedKind::Lookup);
    assert_eq!(
        classify_embed(Some("x"), Some("Character Results")),
        EmbedKind::Listing(Listing::Results)
    );
    assert_eq!(classify_embed(None, Some("Top Wishlist")), EmbedKind::Listing(Listing::TopWishlist));
    assert_eq!(classify_embed(None, None), EmbedKind::Other);
    assert_eq!(classify_embed(Some("Top Wishlist"), Some("Card Collection")), EmbedKind::Other);
}
