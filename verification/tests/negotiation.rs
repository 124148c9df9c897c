//! Subprotocol negotiation and whitelist parsing.

use dwebble_rws::protocol::{negotiate_subprotocol, parse_subprotocols};

fn wl(names: &[&str]) -> Vec<String> {
    names.iter().map(|s| s.to_string()).collect()
}

#[test]
fn scenario_first_offered_whitelisted_name_wins() {
    // the client offers a then b; only b is whitelisted
    let r = negotiate_subprotocol("a,b", &wl(&["b"]));
    assert_eq!(r, Some("b".to_string()));
}

#[test]
fn client_order_decides_not_whitelist_order() {
    let r = negotiate_subprotocol("b,a", &wl(&["a", "b"]));
    assert_eq!(r, Some("b".to_string()));
}

#[test]
fn no_common_name_means_no_subprotocol() {
    assert_eq!(negotiate_subprotocol("a,b", &wl(&["c"])), None);
    assert_eq!(negotiate_subprotocol("a,b", &wl(&[])), None);
    assert_eq!(negotiate_subprotocol("", &wl(&["a"])), None);
}

#[test]
fn offered_names_are_trimmed() {
    let r = negotiate_subprotocol("  chat ,\tsuperchat ", &wl(&["superchat"]));
    assert_eq!(r, Some("superchat".to_string()));
    let r = negotiate_subprotocol(" chat , superchat", &wl(&["chat"]));
    assert_eq!(r, Some("chat".to_string()));
}

#[test]
fn parse_splits_trims_and_drops_empties() {
    let r = parse_subprotocols("a, b ,,c ");
    assert_eq!(r, vec!["a".to_string(), "b".to_string(), "c".to_string()]);
}

#[test]
fn parse_of_blank_input_is_empty() {
    assert_eq!(parse_subprotocols(""), Vec::<String>::new());
    assert_eq!(parse_subprotocols(" , "), Vec::<String>::new());
}

#[test]
fn parse_keeps_client_order() {
    let r = parse_subprotocols("gamma,alpha,beta");
    assert_eq!(r, vec!["gamma".to_string(), "alpha".to_string(), "beta".to_string()]);
}
