use rawssg::extra::KeyMap;
use rawssg::config::{BuildConfig, Config, ContentRule, NavItem, SiteConfig};
use rawssg::error::Error;

fn valid_config() -> Config {
    let mut config = Config::new().with_site_name("My Site");
    config.add_content_rule(ContentRule::new("page", "**/*.html", "base"));
    config
}

#[test]
fn default_values_are_correct() {
    let build = BuildConfig::default();
    assert_eq!(build.content_dir, "content");
    assert_eq!(build.output_dir, "dist");
    assert_eq!(build.templates_dir, "templates");
    assert_eq!(build.static_dir, "static");
}

#[test]
fn new_equals_default() {
    let build = BuildConfig::new();
    assert_eq!(build, BuildConfig::default());
}

#[test]
fn new_sets_label_and_url() {
    let item = NavItem::new("Home", "/");
    assert_eq!(item.label, "Home");
    assert_eq!(item.url, "/");
    assert!(item.children.is_empty());
}

#[test]
fn nav_tests_default_is_empty() {
    let item = NavItem::default();
    assert_eq!(item.label, "");
    assert_eq!(item.url, "");
    assert!(item.children.is_empty());
}

#[test]
fn children_can_be_added() {
    let mut parent = NavItem::new("Docs", "/docs");
    parent.children.push(NavItem::new("API", "/docs/api"));
    assert_eq!(parent.children.len(), 1);
    assert!(!parent.children.is_empty(), "child should exist");
    if let Some(child) = parent.children.first() {
        assert_eq!(child.label, "API");
    }
}

#[test]
fn new_sets_required_fields() {
    let rule = ContentRule::new("blog", "**/*.md", "post");
    assert_eq!(rule.name, "blog");
    assert_eq!(rule.pattern, "**/*.md");
    assert_eq!(rule.template, "post");
    assert!(!rule.list_enabled);
    assert!(rule.list_template.is_none());
    assert!(rule.extra.is_empty());
}

#[test]
fn content_rule_tests_default_is_empty() {
    let rule = ContentRule::default();
    assert_eq!(rule.name, "");
    assert_eq!(rule.pattern, "");
    assert_eq!(rule.template, "");
    assert!(!rule.list_enabled);
    assert!(rule.list_template.is_none());
    assert!(rule.extra.is_empty());
}

#[test]
fn new_sets_site_name_only() {
    let site = SiteConfig::new("My Site");
    assert_eq!(site.site_name, "My Site");
    assert_eq!(site.language.as_deref(), Some("en"));
    assert!(site.navbar.is_empty());
    assert!(site.sidebar.is_empty());
}

#[test]
fn default_has_expected_values() {
    let site = SiteConfig::default();
    assert_eq!(site.site_name, "librawssg");
    assert_eq!(site.language.as_deref(), Some("en"));
    assert!(site.navbar.is_empty());
    assert!(site.sidebar.is_empty());
    assert!(site.description.is_none());
    assert!(site.base_url.is_none());
    assert!(site.author.is_none());
    assert!(site.repo_url.is_none());
    assert!(site.license.is_none());
    assert!(site.extra.is_empty());
}

#[test]
fn new_creates_default_with_empty_rules() {
    let config = Config::new();
    assert_eq!(config.site.site_name, "librawssg");
    assert!(config.content_rules.is_empty());
    assert!(config.extra.is_empty());
}

#[test]
fn with_site_name_updates_name() {
    let config = Config::new().with_site_name("Awesome");
    assert_eq!(config.site.site_name, "Awesome");
}

#[test]
fn add_and_find_rule() {
    let mut config = Config::new();
    config.add_content_rule(ContentRule::new("blog", "**/*.md", "post"));
    assert!(config.find_rule_by_name("blog").is_some());
    assert!(config.find_rule_by_name("missing").is_none());
}

#[test]
fn remove_rule_by_name_returns_removed() {
    let mut config = Config::new();
    config.add_content_rule(ContentRule::new("blog", "**/*.md", "post"));
    let removed = config.remove_rule_by_name("blog");
    assert!(removed.is_some());
    assert!(config.find_rule_by_name("blog").is_none());
}

#[test]
fn has_duplicate_rule_names_detects_duplicates() {
    let mut config = Config::new();
    config.add_content_rule(ContentRule::new("page", "**/*.html", "base"));
    config.add_content_rule(ContentRule::new("page", "**/*.raw", "raw"));
    assert!(config.has_duplicate_rule_names());
}

#[test]
fn valid_config_passes_validation() {
    let config = valid_config();
    assert!(config.validate().is_ok());
}

#[test]
fn empty_site_name_fails_validation() {
    let mut config = valid_config();
    config.site.site_name = "   ".to_string();
    let result = config.validate();
    assert!(result.is_err());
    if let Err(err) = result {
        assert!(matches!(err, Error::Validation(ref msg) if msg == "site_name cannot be empty"));
    }
}

#[test]
fn no_content_rules_fails_validation() {
    let mut config = valid_config();
    config.content_rules.clear();
    let result = config.validate();
    assert!(result.is_err());
    if let Err(err) = result {
        assert!(
            matches!(err, Error::Validation(ref msg) if msg == "at least one content rule must be defined")
        );
    }
}

#[test]
fn duplicate_rule_names_fails_validation() {
    let mut config = valid_config();
    config.add_content_rule(ContentRule::new("page", "**/*.raw", "raw"));
    let result = config.validate();
    assert!(result.is_err());
    if let Err(err) = result {
        assert!(
            matches!(err, Error::Validation(ref msg) if msg == "duplicate content rule names are not allowed")
        );
    }
}

#[test]
fn content_rule_empty_name_fails_validation() {
    let mut config = valid_config();
    assert!(config.content_rules.first_mut().is_some(), "rule should exist");
    if let Some(rule) = config.content_rules.first_mut() {
        rule.name = String::new();
    }
    let result = config.validate();
    assert!(result.is_err());
}

#[test]
fn content_rule_empty_pattern_fails_validation() {
    let mut config = valid_config();
    assert!(config.content_rules.first_mut().is_some(), "rule should exist");
    if let Some(rule) = config.content_rules.first_mut() {
        rule.pattern = String::new();
    }
    let result = config.validate();
    assert!(result.is_err());
}

#[test]
fn content_rule_pattern_with_dotdot_fails_validation() {
    let mut config = valid_config();
    assert!(config.content_rules.first_mut().is_some(), "rule should exist");
    if let Some(rule) = config.content_rules.first_mut() {
        rule.pattern = "**/../*.html".to_string();
    }
    let result = config.validate();
    assert!(result.is_err());
    if let Err(err) = result {
        assert!(matches!(err, Error::Validation(ref msg) if msg.contains("contains invalid '..'")));
    }
}

#[test]
fn content_rule_empty_template_fails_validation() {
    let mut config = valid_config();
    assert!(config.content_rules.first_mut().is_some(), "rule should exist");
    if let Some(rule) = config.content_rules.first_mut() {
        rule.template = String::new();
    }
    let result = config.validate();
    assert!(result.is_err());
}

#[test]
fn invalid_base_url_fails_validation() {
    let mut config = valid_config();
    config.site.base_url = Some("ftp://example.com".to_string());
    let result = config.validate();
    assert!(result.is_err());
    if let Err(err) = result {
        assert!(
            matches!(err, Error::Validation(ref msg) if msg == "site.base_url must start with http:// or https://")
        );
    }
}

#[test]
fn valid_base_url_passes_validation() {
    let mut config = valid_config();
    config.site.base_url = Some("https://example.com".to_string());
    assert!(config.validate().is_ok());
}

#[test]
fn rule_problems_name_the_rule_index() {
    let mut config = valid_config();
    config.add_content_rule(ContentRule::new("blog", "", "post"));
    let result = config.validate();
    assert!(matches!(result, Err(Error::Validation(ref msg)) if msg == "content rule 'blog': pattern cannot be empty"));
    let mut config = valid_config();
    config.add_content_rule(ContentRule::new(" ", "*.md", "post"));
    let result = config.validate();
    assert!(matches!(result, Err(Error::Validation(ref msg)) if msg == "content rule #1: name cannot be empty"));
}

#[test]
fn first_of_two_rules_with_a_name_is_found() {
    let mut config = Config::new();
    config.add_content_rule(ContentRule::new("page", "**/*.html", "first"));
    config.add_content_rule(ContentRule::new("page", "**/*.raw", "second"));
    let found = config.find_rule_by_name("page");
    assert_eq!(found.map(|r| r.template.as_str()), Some("first"));
    let removed = config.remove_rule_by_name("page");
    assert_eq!(removed.map(|r| r.template), Some("first".to_string()));
    assert_eq!(config.content_rules.len(), 1);
}

#[test]
fn maps_with_the_same_contents_are_equal() {
    let mut a: KeyMap<u32> = KeyMap::new();
    a.insert("zeta".to_string(), 1);
    a.insert("alpha".to_string(), 2);
    a.insert("mid".to_string(), 3);
    let mut b: KeyMap<u32> = KeyMap::new();
    b.insert("mid".to_string(), 3);
    b.insert("zeta".to_string(), 1);
    b.insert("alpha".to_string(), 2);
    assert!(a == b);
    assert_eq!(a.keys(), vec!["alpha".to_string(), "mid".to_string(), "zeta".to_string()]);
    b.insert("alpha".to_string(), 9);
    assert!(a != b);
}
