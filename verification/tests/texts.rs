//! Behavior of the fixed texts and the waifu roster.

use jeanne::constants::{get_jeanne_phrase, jeanne_talk, Waifu, CONFIG_UPDATE_INTERVAL_MS};
use jeanne::stats::{Counter, Stats};

#[test]
fn waifu_from_str_exact_names() {
    assert_eq!(Waifu::from_str("Rinne"), Some(Waifu::Rinne));
    assert_eq!(Waifu::from_str("Jeanne"), Some(Waifu::Jeanne));
    assert_eq!(Waifu::from_str("Reiren"), Some(Waifu::Reiren));
    assert_eq!(Waifu::from_str("Hinemarill"), Some(Waifu::Hinemarill));
}

#[test]
fn waifu_from_str_ignores_case_and_whitespace() {
    assert_eq!(Waifu::from_str(" rInNe "), Some(Waifu::Rinne));
    assert_eq!(Waifu::from_str("JEANNE"), Some(Waifu::Jeanne));
    assert_eq!(Waifu::from_str("\treiren\n"), Some(Waifu::Reiren));
    assert_eq!(Waifu::from_str("\u{3000}hinemarill\u{3000}"), Some(Waifu::Hinemarill));
}

#[test]
fn waifu_from_str_rejects_strangers() {
    assert_eq!(Waifu::from_str("nobody"), None);
    assert_eq!(Waifu::from_str(""), None);
    assert_eq!(Waifu::from_str("   "), None);
    assert_eq!(Waifu::from_str("Rinne!"), None);
    assert_eq!(Waifu::from_str("Rin ne"), None);
    assert_eq!(Waifu::from_str("ジャンヌ"), None);
}

#[test]
fn waifu_name_round_trip() {
    for w in [Waifu::Rinne, Waifu::Jeanne, Waifu::Reiren, Waifu::Hinemarill] {
        assert_eq!(Waifu::from_str(w.as_str()), Some(w));
    }
    assert_eq!(Waifu::Rinne.as_str(), "Rinne");
    assert_eq!(Waifu::Hinemarill.as_str(), "Hinemarill");
}

#[test]
fn jeanne_phrase_is_from_the_roster() {
    let phrases: Vec<&str> = (0..5).map(jeanne_talk).collect();
    for p in &phrases {
        assert!(!p.is_empty());
    }
    for _ in 0..50 {
        let phrase = get_jeanne_phrase();
        assert!(phrases.contains(&phrase));
    }
}

#[test]
fn debounce_interval_is_fifteen_minutes() {
    assert_eq!(CONFIG_UPDATE_INTERVAL_MS, 15 * 60 * 1000);
}

#[test]
fn counters_increment_and_reset() {
    let mut stats = Stats::new();
    stats.increment(Counter::DiscordConnected);
    stats.increment(Counter::DiscordConnected);
    stats.increment(Counter::TwitterRetweet);
    stats.increment(Counter::DiscordCmdNum);
    assert_eq!(stats.discord.connected, 2);
    assert_eq!(stats.twitter.retweet, 1);
    assert_eq!(stats.discord.cmd_count, 1);
    assert_eq!(stats.discord.msg_fail, 0);
    assert_eq!(stats.twitter.start_stream, 0);
    stats.reset();
    assert_eq!(stats.discord.connected, 0);
    assert_eq!(stats.twitter.retweet, 0);
    assert_eq!(stats.discord.cmd_count, 0);
}

#[test]
fn counters_saturate_at_the_top() {
    let mut stats = Stats::new();
    stats.twitter.unfiltered_tweet = u64::MAX;
    stats.increment(Counter::TwitterUnfilteredTweet);
    assert_eq!(stats.twitter.unfiltered_tweet, u64::MAX);
}
