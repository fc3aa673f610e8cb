use portfolio_rs::dashboard::{parse_tab, Component, DisabledComponents, Tab};
use std::str::FromStr;

#[test]
fn test_parse_tab_overview() {
    let result = parse_tab(Some("overview".to_string()));
    assert_eq!(result, Some(Tab::Overview));
}

#[test]
fn test_parse_tab_balance() {
    let result = parse_tab(Some("balances".to_string()));
    assert_eq!(result, Some(Tab::Balances));
}

#[test]
fn test_parse_tab_case_insensitive() {
    assert_eq!(parse_tab(Some("OVERVIEW".to_string())), Some(Tab::Overview));
    assert_eq!(parse_tab(Some("Balances".to_string())), Some(Tab::Balances));
    assert_eq!(parse_tab(Some("bAlAnCeS".to_string())), Some(Tab::Balances));
}

#[test]
fn test_parse_tab_invalid_defaults_to_overview() {
    let result = parse_tab(Some("invalid".to_string()));
    assert_eq!(result, Some(Tab::Overview));
}

#[test]
fn test_parse_tab_none_defaults_to_overview() {
    let result = parse_tab(None);
    assert_eq!(result, Some(Tab::Overview));
}

#[test]
fn test_parse_tab_empty_string_defaults_to_overview() {
    let result = parse_tab(Some("".to_string()));
    assert_eq!(result, Some(Tab::Overview));
}

#[test]
fn test_disabled_components_parsing() {
    let disabled = DisabledComponents::new(vec![
        "tab_bar".to_string(),
        "total_value".to_string(),
        "name".to_string(),
    ])
    .unwrap();
    assert!(disabled.is_disabled(Component::TabBar));
    assert!(disabled.is_disabled(Component::TotalValue));
    assert!(disabled.is_disabled(Component::Name));
    assert!(!disabled.is_disabled(Component::AssetAllocation));
    assert!(!disabled.is_disabled(Component::Help));
}

#[test]
fn test_component_enum_from_string() {
    assert_eq!(Component::from_str("tab_bar").unwrap(), Component::TabBar);
    assert_eq!(Component::from_str("total_value").unwrap(), Component::TotalValue);
    assert_eq!(Component::from_str("HELP").unwrap(), Component::Help);
    assert_eq!(Component::from_str("  name  ").unwrap(), Component::Name);
    assert!(Component::from_str("invalid_component").is_err());
}

#[test]
fn test_component_enum_as_str() {
    assert_eq!(Component::TabBar.as_str(), "tab_bar");
    assert_eq!(Component::TotalValue.as_str(), "total_value");
    assert_eq!(Component::Help.as_str(), "help");
    assert_eq!(Component::Name.as_str(), "name");
}

#[test]
fn test_disabled_components_with_enum() {
    let mut disabled = DisabledComponents::default();
    disabled.disable_component(Component::TabBar);
    disabled.disable_component(Component::Help);

    assert!(disabled.is_disabled(Component::TabBar));
    assert!(disabled.is_disabled(Component::Help));
    assert!(!disabled.is_disabled(Component::TotalValue));
    assert!(!disabled.is_disabled(Component::Name));
}

#[test]
fn unknown_components_are_all_reported() {
    let result = DisabledComponents::new(vec![
        "help".to_string(),
        "bogus".to_string(),
        "Nope".to_string(),
    ]);
    match result {
        Ok(_) => panic!("unknown names must be rejected"),
        Err(errors) => assert_eq!(
            errors,
            vec![
                "Unknown component: 'bogus'".to_string(),
                "Unknown component: 'Nope'".to_string()
            ]
        ),
    }
}

#[test]
fn component_aliases_and_listing() {
    assert_eq!(Component::parse("hist"), Ok(Component::Hist));
    assert_eq!(Component::parse("%DAY"), Ok(Component::Daily));
    assert_eq!(Component::parse(" Balance\t"), Ok(Component::Balance));
    let all = Component::all();
    assert_eq!(all.len(), 15);
    for c in all {
        assert_eq!(Component::parse(c.as_str()), Ok(c));
    }
    assert_eq!(Component::AvgCost.description(), "Average cost column (from purchases)");
}

#[test]
fn tab_titles_and_cycling() {
    assert_eq!(Tab::all(), vec![Tab::Overview, Tab::Balances]);
    assert_eq!(Tab::Overview.title(), "Overview & Allocation");
    assert_eq!(Tab::Overview.next(), Tab::Balances);
    assert_eq!(Tab::Balances.next(), Tab::Overview);
    assert_eq!(Tab::Overview.previous(), Tab::Balances);
    assert_eq!(Tab::from_str("BALANCES"), Some(Tab::Balances));
    assert_eq!(Tab::from_str("other"), None);
}
