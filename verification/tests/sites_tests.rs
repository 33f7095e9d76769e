use restie::sites::{
    active_site_from, marker_text, missing_site_message, pick_best_config, search_config,
    site_config_path, site_hint, sites_listing, sort_names, SearchStep,
};

fn strings(v: &[&str]) -> Vec<String> {
    v.iter().map(|s| s.to_string()).collect()
}

#[test]
fn site_config_path_both_extensions() {
    let dir = "/home/u/.config/restie";
    assert!(site_config_path(dir, "mysite", false, false).is_none());
    assert_eq!(site_config_path(dir, "mysite", false, true).as_deref(), Some("/home/u/.config/restie/mysite.yml"));
    assert_eq!(site_config_path(dir, "mysite", true, true).as_deref(), Some("/home/u/.config/restie/mysite.yaml"));
}

#[test]
fn best_config_has_most_commands_then_newest() {
    let cands = vec![
        ("a.yaml".to_string(), 5u128, 10u128),
        ("b.yaml".to_string(), 7, 1),
        ("c.yaml".to_string(), 7, 3),
        ("d.yaml".to_string(), 7, 3),
    ];
    assert_eq!(pick_best_config(&cands).as_deref(), Some("c.yaml"));
    assert!(pick_best_config(&vec![]).is_none());
    assert_eq!(pick_best_config(&vec![("only.yml".to_string(), 0, 0)]).as_deref(), Some("only.yml"));
}

#[test]
fn config_search_order() {
    match search_config(Some("x.yaml"), false, Some("s"), None, true, None) {
        SearchStep::NotFound(m) => assert_eq!(m, "Config file not found: x.yaml"),
        _ => panic!("explicit path decides"),
    }
    match search_config(None, false, Some("s"), None, true, None) {
        SearchStep::NotFound(m) => assert_eq!(m, "Site config not found: s.yaml/.yml"),
        _ => panic!("site decides"),
    }
    match search_config(None, false, None, None, true, Some("a.yaml".to_string())) {
        SearchStep::Found(f) => assert_eq!(f, "./restie.yaml"),
        _ => panic!("local file first"),
    }
    match search_config(None, false, None, None, false, Some("a.yaml".to_string())) {
        SearchStep::Found(f) => assert_eq!(f, "a.yaml"),
        _ => panic!("active site next"),
    }
    assert!(matches!(search_config(None, false, None, None, false, None), SearchStep::ScanDirectory));
}

#[test]
fn active_site_marker() {
    assert_eq!(active_site_from("  github \n").as_deref(), Some("github"));
    assert!(active_site_from(" \n").is_none());
    assert_eq!(marker_text(" gh "), "gh");
    assert_eq!(
        missing_site_message("nope", "/home/u/.config/restie"),
        "No config found for site 'nope' (/home/u/.config/restie/nope.yaml/.yml)"
    );
}

#[test]
fn names_sort_case_insensitively_and_stably() {
    let sorted = sort_names(&strings(&["beta.yaml", "Alpha.yaml", "alpha.yml", "alpha.yaml", "Gamma.yaml"]));
    assert_eq!(sorted, strings(&["Alpha.yaml", "alpha.yaml", "alpha.yml", "beta.yaml", "Gamma.yaml"]));
}

#[test]
fn listings_and_hints() {
    assert!(sites_listing("/d", &vec![]).is_none());
    assert_eq!(
        sites_listing("/d", &strings(&["b.yml", "A.yaml"])).unwrap(),
        "Available sites in /d:\n\n  A\n  b\n"
    );
    assert!(site_hint(&strings(&["a"]), None).is_none());
    assert_eq!(
        site_hint(&strings(&["a", "b"]), Some("a")).unwrap(),
        "\nMultiple site configs found (a, b). Active: 'a' \u{2014} use 'restie site set <name>' or --site <name> to switch."
    );
    assert_eq!(
        site_hint(&strings(&["a", "b"]), None).unwrap(),
        "\nMultiple site configs found (a, b). No active site set \u{2014} pass --site <name>, or set one with 'restie site set <name>'."
    );
}

#[test]
fn sorting_keeps_every_name() {
    let input = strings(&["x", "b", "x", "X", "a"]);
    let sorted = sort_names(&input);
    assert_eq!(sorted, strings(&["a", "b", "x", "x", "X"]));
    let mut a = input.clone();
    let mut b = sorted.clone();
    a.sort();
    b.sort();
    assert_eq!(a, b);
}

#[test]
fn marker_round_trip() {
    let written = marker_text("  github \n");
    assert_eq!(active_site_from(&written).as_deref(), Some("github"));
    assert!(active_site_from(&marker_text("   ")).is_none());
}
