use mimo_tui::config::{
    append_workspace_instructions, decode_workspace_instruction_bytes, is_valid_model_name,
    known_mimo_models, model_catalog, normalize_base_url, normalize_model_name,
    normalize_remote_models, pick_string, resolve_permissions, resolve_system_prompt,
    trim_trailing_slashes, ConfigValueSource, DiscoveredInstructions, PermissionPolicy,
    DEFAULT_SYSTEM_PROMPT, WORKSPACE_INSTRUCTIONS_MAX_BYTES,
};

#[test]
fn known_model_catalog_includes_mimo_25_models() {
    let models = known_mimo_models("mimo-v2-flash");
    assert!(models.iter().any(|model| model == "auto"));
    assert!(models.iter().any(|model| model == "mimo-v2.5"));
    assert!(models.iter().any(|model| model == "mimo-v2.5-pro"));
}

#[test]
fn normalize_model_name_accepts_auto() {
    assert_eq!(normalize_model_name("AUTO"), Some("auto".to_string()));
}

#[test]
fn normalize_model_name_rejects_blank_and_spaced_names() {
    assert_eq!(normalize_model_name("   "), None);
    assert_eq!(normalize_model_name("mimo v2"), None);
    assert_eq!(
        normalize_model_name("  mimo-v2-flash "),
        Some("mimo-v2-flash".to_string())
    );
    assert!(is_valid_model_name("mimo-v2.5"));
    assert!(!is_valid_model_name(""));
}

#[test]
fn normalize_base_url_accepts_http_and_trims_trailing_slash() {
    assert_eq!(
        normalize_base_url("https://example.test/v1/"),
        Some("https://example.test/v1".to_string())
    );
    assert_eq!(
        normalize_base_url("http://example.test/"),
        Some("http://example.test".to_string())
    );
}

#[test]
fn normalize_base_url_rejects_non_http_schemes() {
    assert_eq!(normalize_base_url("ftp://example.test"), None);
    assert_eq!(normalize_base_url("not-a-url"), None);
}

#[test]
fn trailing_slashes_are_all_removed() {
    assert_eq!(trim_trailing_slashes("a///"), "a");
    assert_eq!(trim_trailing_slashes("///"), "");
    assert_eq!(trim_trailing_slashes("a/b"), "a/b");
}

#[test]
fn workspace_instructions_display_label_is_human_readable() {
    assert_eq!(
        ConfigValueSource::WorkspaceInstructions.to_string(),
        "workspace instructions"
    );
}

#[test]
fn permission_policy_display_is_human_readable() {
    assert_eq!(PermissionPolicy::ReadOnly.to_string(), "read_only");
    assert_eq!(PermissionPolicy::Prompt.to_string(), "prompt");
    assert_eq!(PermissionPolicy::Auto.to_string(), "auto");
}

#[test]
fn defaults_permission_policy_to_prompt_when_missing() {
    let (permissions, source) = resolve_permissions(None);

    assert_eq!(permissions, PermissionPolicy::Prompt);
    assert_eq!(source, ConfigValueSource::Default);
}

#[test]
fn uses_file_permission_policy_when_configured() {
    let (permissions, source) = resolve_permissions(Some(PermissionPolicy::Auto));

    assert_eq!(permissions, PermissionPolicy::Auto);
    assert_eq!(source, ConfigValueSource::File);
}

#[test]
fn first_configured_string_wins() {
    let (value, source) = pick_string(vec![
        (ConfigValueSource::Cli, None),
        (ConfigValueSource::Env, Some("from-env".to_string())),
        (ConfigValueSource::File, Some("from-file".to_string())),
    ]);
    assert_eq!(value, Some("from-env".to_string()));
    assert_eq!(source, ConfigValueSource::Env);
}

#[test]
fn appends_workspace_instructions_with_a_heading() {
    let text = append_workspace_instructions(
        "base".to_string(),
        &DiscoveredInstructions {
            file_name: Some("AGENTS.md".to_string()),
            content: "Be brief.".to_string(),
            truncated: true,
        },
    );
    assert_eq!(
        text,
        "base\n\n---\n\n# Project instructions from AGENTS.md\n\nBe brief.\n\n(Note: workspace instructions truncated to 32 KiB.)"
    );
}

#[test]
fn system_prompt_defaults_without_instructions() {
    let (prompt, source) = resolve_system_prompt(None, ConfigValueSource::Default, None);
    assert_eq!(prompt, DEFAULT_SYSTEM_PROMPT);
    assert_eq!(source, ConfigValueSource::Default);

    let (prompt, source) = resolve_system_prompt(
        Some("custom".to_string()),
        ConfigValueSource::File,
        Some(DiscoveredInstructions {
            file_name: None,
            content: "x".to_string(),
            truncated: false,
        }),
    );
    assert!(prompt.starts_with("custom\n\n---\n\n# Project instructions from workspace instructions"));
    assert_eq!(source, ConfigValueSource::WorkspaceInstructions);
}

#[test]
fn instruction_bytes_decode_to_their_valid_prefix() {
    assert_eq!(decode_workspace_instruction_bytes(b"hello", false), "hello");
    let mut bytes = vec![b'a'; WORKSPACE_INSTRUCTIONS_MAX_BYTES - 1];
    bytes.extend_from_slice("é".as_bytes());
    let text = decode_workspace_instruction_bytes(&bytes, true);
    assert_eq!(text.len(), WORKSPACE_INSTRUCTIONS_MAX_BYTES - 1);
}

#[test]
fn remote_models_are_trimmed_and_deduplicated() {
    let models = normalize_remote_models(vec![
        " b ".to_string(),
        "a".to_string(),
        "b".to_string(),
        "".to_string(),
    ]);
    assert_eq!(models, vec!["b".to_string(), "a".to_string()]);
    let catalog = model_catalog("mimo-v2-flash", &vec!["custom".to_string()]);
    assert_eq!(catalog[0], "custom");
    assert!(catalog.iter().any(|m| m == "auto"));
}

#[test]
fn defaults_fill_in_the_base_url_and_model() {
    assert_eq!(
        mimo_tui::config::effective_base_url(None),
        "https://api.xiaomimimo.com/v1"
    );
    assert_eq!(
        mimo_tui::config::effective_base_url(Some("https://example.test/v1//".to_string())),
        "https://example.test/v1"
    );
    assert_eq!(mimo_tui::config::effective_model(None), "mimo-v2-flash");
    assert_eq!(mimo_tui::config::effective_model(Some("auto".to_string())), "auto");
}
