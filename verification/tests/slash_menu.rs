use mimo_tui::slash_menu::{autocomplete_input, is_active, visible_entries};

#[test]
fn filters_known_commands() {
    let entries = visible_entries("/mo");
    assert!(entries.iter().any(|entry| entry.command.name == "model"));
    assert!(entries.iter().any(|entry| entry.command.name == "mode"));
}

#[test]
fn completes_unique_command_with_space() {
    assert_eq!(autocomplete_input("/cle"), Some("/clear".to_string()));
    assert_eq!(autocomplete_input("/mode"), Some("/mode ".to_string()));
}

#[test]
fn menu_closes_on_whitespace_and_completes_shared_prefix() {
    assert!(is_active("  /he"));
    assert!(!is_active("/help me"));
    assert!(!is_active("hello"));
    assert!(visible_entries("plain").is_empty());
    assert_eq!(autocomplete_input("/bra"), Some("/branch".to_string()));
    assert_eq!(autocomplete_input("/zzz"), None);
}
