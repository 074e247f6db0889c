use organize::config::{find_config, working_folder, Config, Rule, WorkingFolder};

fn rule(id: Option<&str>, tags: Vec<&str>) -> Rule {
    Rule {
        id: id.map(|s| s.to_string()),
        tags: tags.into_iter().map(|s| s.to_string()).collect(),
        continue_matching: false,
    }
}

fn config() -> Config {
    Config {
        rules: vec![
            rule(Some("test-rule-1"), vec!["tag1"]),
            rule(Some("test-rule-2"), vec!["tag2"]),
            rule(Some("test-rule-3"), vec!["tag3"]),
            rule(None, vec!["tag3"]),
            rule(None, vec![]),
        ],
        path: String::new(),
    }
}

fn positions(config: &Config, found: &[&Rule]) -> Vec<usize> {
    found
        .iter()
        .map(|f| config.rules.iter().position(|r| std::ptr::eq(r, *f)).unwrap())
        .collect()
}

fn strings(v: &[&str]) -> Vec<String> {
    v.iter().map(|s| s.to_string()).collect()
}

#[test]
fn filter_rules_by_tag_positive() {
    let config = config();
    let found_rules = config.filter_rules_by_tag(&strings(&["tag2"]));
    assert_eq!(positions(&config, &found_rules), vec![1])
}

#[test]
fn filter_rules_by_tag_negative() {
    let config = config();
    let found_rules = config.filter_rules_by_tag(&strings(&["!tag2"]));
    assert_eq!(positions(&config, &found_rules), vec![0, 2, 3])
}

#[test]
fn filter_rules_by_tag_multiple_positive() {
    let config = config();
    let found_rules = config.filter_rules_by_tag(&strings(&["tag2", "tag1"]));
    assert_eq!(positions(&config, &found_rules), vec![0, 1])
}

#[test]
fn filter_rules_by_tag_multiple_negative() {
    let config = config();
    let found_rules = config.filter_rules_by_tag(&strings(&["!tag2", "!tag1"]));
    assert_eq!(positions(&config, &found_rules), vec![2, 3])
}

#[test]
fn filter_rules_by_tag_multiple_mixed() {
    let config = config();
    let found_rules = config.filter_rules_by_tag(&strings(&["tag2", "!tag1"]));
    assert_eq!(positions(&config, &found_rules), vec![1, 2, 3])
}

#[test]
fn filter_rules_by_id_positive() {
    let config = config();
    let found_rules = config.filter_rules_by_id(&strings(&["test-rule-1"]));
    assert_eq!(positions(&config, &found_rules), vec![0])
}

#[test]
fn filter_rules_by_id_negative() {
    let config = config();
    let found_rules = config.filter_rules_by_id(&strings(&["!test-rule-1"]));
    assert_eq!(positions(&config, &found_rules), vec![1, 2])
}

#[test]
fn filter_rules_by_id_multiple_positive() {
    let config = config();
    let found_rules = config.filter_rules_by_id(&strings(&["test-rule-1", "test-rule-2"]));
    assert_eq!(positions(&config, &found_rules), vec![0, 1])
}

#[test]
fn filter_rules_by_id_multiple_negative() {
    let config = config();
    let found_rules = config.filter_rules_by_id(&strings(&["!test-rule-1", "!test-rule-2"]));
    assert_eq!(positions(&config, &found_rules), vec![2])
}

#[test]
fn filter_rules_by_id_multiple_mixed() {
    let config = config();
    let found_rules = config.filter_rules_by_id(&strings(&["test-rule-1", "!test-rule-2"]));
    assert_eq!(positions(&config, &found_rules), vec![0, 2])
}

#[test]
fn unknown_tag_or_id_selects_nothing() {
    let config = config();
    assert!(config.filter_rules_by_tag(&strings(&["tag9"])).is_empty());
    assert!(config.filter_rules_by_id(&strings(&["nope"])).is_empty());
    assert_eq!(config.unknown_tag(&strings(&["tag9"])), Some("tag9".to_string()));
    assert_eq!(positions(&config, &config.filter_rules(None, None)), vec![0, 1, 2, 3, 4]);
}

#[test]
fn rule_default_is_blank() {
    let r = Rule::default();
    assert_eq!(r.id, None);
    assert!(r.tags.is_empty());
    assert!(!r.continue_matching);
}

fn listing(v: &[(&str, bool)]) -> Vec<(String, bool)> {
    v.iter().map(|(p, d)| (p.to_string(), *d)).collect()
}

#[test]
fn config_found_in_working_folder() {
    let entries = listing(&[("/w/a.txt", false), ("/w/organize.yaml", false), ("/w/my-organize.toml", false), ("/w/organize", true)]);
    assert_eq!(find_config(&entries), Some("/w/my-organize.toml".to_string()));
    assert_eq!(find_config(&listing(&[("/w/organize", true)])), Some("/w/organize/config.toml".to_string()));
    assert_eq!(find_config(&listing(&[("/w/organize.yaml", false), ("/w/notes", true)])), None);
    assert_eq!(find_config(&listing(&[])), None);
}

#[test]
fn working_folder_for_a_configuration() {
    let default = "/home/u/.config/organize/config.toml";
    assert_eq!(working_folder(default, default), Some(WorkingFolder::Home));
    assert_eq!(working_folder("/w/x/organize.toml", default), Some(WorkingFolder::Parent("/w/x".to_string())));
    assert_eq!(working_folder("/", default), None);
}
