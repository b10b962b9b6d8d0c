use dozer_app::external_apps::ExternalAppsConfig;
use dozer_app::font_style::{body, caption, caption_sm, dot_sm, dot_xs, label, subtitle, title};

#[test]
fn lookup_for_path_is_case_insensitive_on_extension() {
    let mut config = ExternalAppsConfig::default();
    config.insert("xlsx".to_string(), "Microsoft Excel".to_string());
    assert_eq!(config.lookup_for_path("/tmp/report.XLSX"), Some("Microsoft Excel"));
    assert_eq!(config.lookup_for_path("/tmp/report.xlsx"), Some("Microsoft Excel"));
}

#[test]
fn lookup_for_path_returns_none_when_unconfigured_or_no_extension() {
    let config = ExternalAppsConfig::default();
    assert_eq!(config.lookup_for_path("/tmp/report.csv"), None);
    assert_eq!(config.lookup_for_path("/tmp/README"), None);
}

#[test]
fn workspace_tokens_match_pre_migration_literals() {
    assert_eq!(dot_xs(), 8);
    assert_eq!(dot_sm(), 9);
    assert_eq!(caption_sm(), 10);
    assert_eq!(caption(), 11);
    assert_eq!(label(), 12);
    assert_eq!(body(), 13);
    assert_eq!(subtitle(), 14);
    assert_eq!(title(), 15);
}
