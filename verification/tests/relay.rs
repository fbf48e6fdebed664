use std::collections::BTreeMap;

use pane_renamer::command::{parse_command, parse_pane_id, split_at_colon};
use pane_renamer::relay::{Capability, EventKind, HostEvent, PaneRenamer, PipeMessage};

fn message(payload: Option<&str>) -> PipeMessage {
    PipeMessage {
        name: String::from("rename"),
        payload: payload.map(String::from),
    }
}

#[test]
fn well_formed_payload_renames_and_does_not_block() {
    let mut relay = PaneRenamer;
    let (command, block) = relay.pipe(message(Some("12:build output")));
    let command = command.expect("a well-formed payload must decode to a command");
    assert_eq!(command.pane_id, 12);
    assert_eq!(command.title, "build output");
    assert!(!block);
}

#[test]
fn only_the_first_colon_delimits() {
    let mut relay = PaneRenamer;
    let (command, block) = relay.pipe(message(Some("7:a:b:c")));
    let command = command.expect("a well-formed payload must decode to a command");
    assert_eq!(command.pane_id, 7);
    assert_eq!(command.title, "a:b:c");
    assert!(!block);
}

#[test]
fn non_numeric_id_is_discarded() {
    let mut relay = PaneRenamer;
    let (command, block) = relay.pipe(message(Some("abc:title")));
    assert!(command.is_none());
    assert!(!block);
}

#[test]
fn payload_without_colon_is_discarded() {
    let mut relay = PaneRenamer;
    let (command, block) = relay.pipe(message(Some("12")));
    assert!(command.is_none());
    assert!(!block);
}

#[test]
fn absent_payload_is_discarded() {
    let mut relay = PaneRenamer;
    let (command, block) = relay.pipe(message(None));
    assert!(command.is_none());
    assert!(!block);
}

#[test]
fn negative_id_is_discarded() {
    let mut relay = PaneRenamer;
    let (command, block) = relay.pipe(message(Some("-1:title")));
    assert!(command.is_none());
    assert!(!block);
}

#[test]
fn fractional_id_is_discarded() {
    let mut relay = PaneRenamer;
    let (command, block) = relay.pipe(message(Some("3.5:title")));
    assert!(command.is_none());
    assert!(!block);
}

#[test]
fn empty_id_is_discarded() {
    let mut relay = PaneRenamer;
    let (command, block) = relay.pipe(message(Some(":title")));
    assert!(command.is_none());
    assert!(!block);
}

#[test]
fn empty_title_is_kept() {
    let mut relay = PaneRenamer;
    let (command, _) = relay.pipe(message(Some("10:")));
    let command = command.expect("an empty title is still a title");
    assert_eq!(command.pane_id, 10);
    assert_eq!(command.title, "");
}

#[test]
fn largest_pane_id_is_accepted() {
    let mut relay = PaneRenamer;
    let (command, _) = relay.pipe(message(Some("4294967295:edge")));
    let command = command.expect("u32::MAX fits in a pane id");
    assert_eq!(command.pane_id, u32::MAX);
    assert_eq!(command.title, "edge");
}

#[test]
fn oversized_pane_id_is_discarded() {
    let mut relay = PaneRenamer;
    let (command, block) = relay.pipe(message(Some("4294967296:too big")));
    assert!(command.is_none());
    assert!(!block);
}

#[test]
fn explicitly_signed_id_parses_like_an_unsigned_integer() {
    // `"+8".parse::<u32>()` succeeds, so the relay accepts a single leading `+`.
    let mut relay = PaneRenamer;
    let (command, _) = relay.pipe(message(Some("+8:plus")));
    let command = command.expect("a leading + is part of an unsigned literal");
    assert_eq!(command.pane_id, 8);
    assert_eq!(command.title, "plus");
}

#[test]
fn title_may_hold_arbitrary_text() {
    let mut relay = PaneRenamer;
    let (command, _) = relay.pipe(message(Some("5:héllo ⟨ω⟩ :: done")));
    let command = command.expect("titles are arbitrary text");
    assert_eq!(command.pane_id, 5);
    assert_eq!(command.title, "héllo ⟨ω⟩ :: done");
}

#[test]
fn non_ascii_digits_are_discarded() {
    let mut relay = PaneRenamer;
    let (command, _) = relay.pipe(message(Some("５:fullwidth")));
    assert!(command.is_none());
}

#[test]
fn update_never_requests_a_redraw() {
    let mut relay = PaneRenamer;
    assert!(!relay.update(HostEvent::PermissionRequestResult(true)));
    assert!(!relay.update(HostEvent::PermissionRequestResult(false)));
    assert!(!relay.update(HostEvent::Other));
}

#[test]
fn render_draws_nothing_and_leaves_the_relay_usable() {
    let mut relay = PaneRenamer;
    relay.render(24, 80);
    relay.render(0, 0);
    let (command, block) = relay.pipe(message(Some("1:still works")));
    assert_eq!(command.expect("relay must still decode").pane_id, 1);
    assert!(!block);
}

#[test]
fn load_requests_one_capability_and_one_subscription() {
    let mut relay = PaneRenamer;
    let actions = relay.load(BTreeMap::new());
    assert_eq!(actions.permissions, vec![Capability::ChangeApplicationState]);
    assert_eq!(actions.subscriptions, vec![EventKind::PermissionRequestResult]);
}

#[test]
fn load_ignores_the_configuration_contents() {
    let mut config = BTreeMap::new();
    config.insert(String::from("pane"), String::from("9"));
    config.insert(String::from("verbose"), String::from("true"));
    let mut relay = PaneRenamer::default();
    let actions = relay.load(config);
    assert_eq!(actions.permissions, vec![Capability::ChangeApplicationState]);
    assert_eq!(actions.subscriptions, vec![EventKind::PermissionRequestResult]);
}

#[test]
fn parse_pane_id_accepts_exactly_unsigned_decimals() {
    assert_eq!(parse_pane_id("0"), Some(0));
    assert_eq!(parse_pane_id("007"), Some(7));
    assert_eq!(parse_pane_id("4294967295"), Some(u32::MAX));
    assert_eq!(parse_pane_id("+41"), Some(41));
    assert_eq!(parse_pane_id(""), None);
    assert_eq!(parse_pane_id("+"), None);
    assert_eq!(parse_pane_id("++1"), None);
    assert_eq!(parse_pane_id("4294967296"), None);
    assert_eq!(parse_pane_id("99999999999999999999"), None);
    assert_eq!(parse_pane_id(" 1"), None);
    assert_eq!(parse_pane_id("1 "), None);
    assert_eq!(parse_pane_id("-0"), None);
}

#[test]
fn split_at_colon_splits_only_at_the_first() {
    assert_eq!(split_at_colon("a:b:c"), Some(("a", "b:c")));
    assert_eq!(split_at_colon(":x"), Some(("", "x")));
    assert_eq!(split_at_colon("x:"), Some(("x", "")));
    assert_eq!(split_at_colon("abc"), None);
    assert_eq!(split_at_colon(""), None);
}

#[test]
fn parse_command_matches_the_standard_parser() {
    // The relay's id grammar is exactly `str::parse::<u32>`'s.
    for raw in ["12", "+3", "007", "4294967295", "4294967296", "-1", "3.5", "abc", "", "+"] {
        let payload = format!("{raw}:title");
        let decoded = parse_command(&payload).map(|c| c.pane_id);
        assert_eq!(decoded, raw.parse::<u32>().ok());
    }
}
