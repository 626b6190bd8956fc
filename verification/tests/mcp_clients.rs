use embral::mcp_clients::{
    remove_codex_server, upsert_codex_server, file_registered_message, file_removed_message,
    hands_out_stable_copy, missing_config_message, stable_copy_differs, register_route, stable_copy_check,
    unregister_route, RegistrationRoute, StableCopyCheck,
    registration_path,
    json_registered, remove_mcp_server, upsert_mcp_server, claude_code_status, cli_name, client_display_name, client_label, codex_registered,
    codex_status, codex_toml_snippet, desktop_status, dunce_simplify, escape_json_backslashes,
    mcp_setup_info, output_tail, McpClient,
};

#[test]
fn codex_snippet_keeps_windows_paths_literal() {
    let toml = codex_toml_snippet(r"C:\Program Files\embral\embral-mcp.exe");
    assert!(toml.contains("[mcp_servers.embral]"));
    assert!(toml.contains(r"command = 'C:\Program Files\embral\embral-mcp.exe'"));
}

#[test]
fn the_codex_snippet_reads_exactly() {
    assert_eq!(
        codex_toml_snippet("/usr/lib/embral-mcp"),
        "[mcp_servers.embral]\ncommand = '/usr/lib/embral-mcp'\nargs = []"
    );
}

#[test]
fn the_labels_come_from_a_closed_set() {
    assert_eq!(client_label(McpClient::Codex), "codex");
    assert_eq!(cli_name(McpClient::Codex), "codex");
    assert_eq!(client_display_name(McpClient::Codex), "Codex");
    let code = client_label(McpClient::ClaudeCode);
    let desktop = client_label(McpClient::ClaudeDesktop);
    // The tool is the label's first word; the shown name is the label as
    // a title.
    assert_eq!(cli_name(McpClient::ClaudeCode), code.split('_').next().unwrap());
    assert_eq!(cli_name(McpClient::ClaudeDesktop), desktop.split('_').next().unwrap());
    let shown = client_display_name(McpClient::ClaudeDesktop);
    assert_eq!(shown.len(), desktop.len());
    assert!(shown.contains(' '));
    assert!(shown.chars().next().unwrap().is_ascii_uppercase());
}

#[test]
fn the_verbatim_prefix_is_dropped() {
    assert_eq!(dunce_simplify(r"\\?\C:\apps\embral-mcp.exe"), r"C:\apps\embral-mcp.exe");
    assert_eq!(dunce_simplify("/usr/bin/embral-mcp"), "/usr/bin/embral-mcp");
}

#[test]
fn the_setup_snippets_name_the_server() {
    let info = mcp_setup_info(r"C:\apps\embral-mcp.exe".to_string(), true, String::new());
    assert_eq!(info.path, r"C:\apps\embral-mcp.exe");
    assert!(info.exists);
    assert_eq!(info.codex_command, "codex mcp add embral -- \"C:\\apps\\embral-mcp.exe\"");
    assert!(info.config_json.contains(r#""command": "C:\\apps\\embral-mcp.exe""#));
    let parsed: serde_json::Value = serde_json::from_str(&info.config_json).unwrap();
    assert_eq!(parsed["mcpServers"]["embral"]["command"], r"C:\apps\embral-mcp.exe");
    let tool = cli_name(McpClient::ClaudeCode);
    assert_eq!(
        info.claude_code_command,
        format!("{tool} mcp add --scope user embral -- \"C:\\apps\\embral-mcp.exe\"")
    );
    assert_eq!(info.codex_toml, codex_toml_snippet(r"C:\apps\embral-mcp.exe"));
    assert_eq!(escape_json_backslashes(r"a\b\\c"), r"a\\b\\\\c");
}

#[test]
fn a_failed_command_reports_its_last_words() {
    assert_eq!(output_tail("  boom  ", "ignored", "1"), "boom");
    assert_eq!(output_tail(" ", " out ", "1"), "out");
    assert_eq!(output_tail("", "", "exit status: 2"), "exit status exit status: 2");
    let long = "x".repeat(450) + "END";
    let tail = output_tail(&long, "", "1");
    assert_eq!(tail.chars().count(), 400);
    assert!(tail.ends_with("END"));
}

#[test]
fn the_codex_config_is_registered_by_its_header_line() {
    assert!(codex_registered(Some("model = \"o4\"\n\n  [mcp_servers.embral]  \ncommand = 'x'\n")));
    assert!(codex_registered(Some("[mcp_servers.embral]\r\n")));
    assert!(!codex_registered(Some("[mcp_servers.other]\n# [mcp_servers.embral]\n")));
    assert!(!codex_registered(Some("")));
    assert!(!codex_registered(None));
}

#[test]
fn the_cards_say_what_was_found() {
    let d = desktop_status(true, Some("/cfg/file.json".to_string()), true);
    assert!(d.installed && d.registered);
    assert_eq!(d.detail, "/cfg/file.json");
    let missing = desktop_status(false, None, false);
    assert!(missing.detail.ends_with(" was not found on this machine"));
    assert!(missing.detail.starts_with(&client_display_name(McpClient::ClaudeDesktop)));
    let code = claude_code_status(None, false);
    assert!(!code.installed);
    assert_eq!(
        code.detail,
        format!("the {} CLI was not found on PATH", cli_name(McpClient::ClaudeCode))
    );
    let codex = codex_status(None, true, Some("/home/u/.codex/config.toml".to_string()), false);
    assert!(codex.installed);
    assert_eq!(codex.detail, "/home/u/.codex/config.toml");
    let none = codex_status(None, false, None, false);
    assert!(!none.installed);
    assert_eq!(none.detail, "neither the codex CLI nor ~/.codex was found");
    let cli = codex_status(Some("/usr/bin/codex".to_string()), false, None, true);
    assert!(cli.installed && cli.registered);
    assert_eq!(cli.detail, "/usr/bin/codex");
}

#[test]
fn upsert_preserves_everything_else() {
    let existing = r#"{
        "theme": "dark",
        "mcpServers": {
            "other": { "command": "other.exe", "args": ["-x"] }
        },
        "unknownFuture": [1, 2]
    }"#;
    let updated = upsert_mcp_server(existing, r"C:\apps\embral-mcp.exe").unwrap();
    let v: serde_json::Value = serde_json::from_str(&updated).unwrap();
    assert_eq!(v["theme"], "dark");
    assert_eq!(v["unknownFuture"][1], 2);
    assert_eq!(v["mcpServers"]["other"]["args"][0], "-x");
    assert_eq!(v["mcpServers"]["embral"]["command"], r"C:\apps\embral-mcp.exe");
}

#[test]
fn upsert_handles_empty_and_updates_in_place() {
    let fresh = upsert_mcp_server("", "a.exe").unwrap();
    let v: serde_json::Value = serde_json::from_str(&fresh).unwrap();
    assert_eq!(v["mcpServers"]["embral"]["command"], "a.exe");

    let moved = upsert_mcp_server(&fresh, "b.exe").unwrap();
    let v: serde_json::Value = serde_json::from_str(&moved).unwrap();
    assert_eq!(v["mcpServers"]["embral"]["command"], "b.exe");
}

#[test]
fn malformed_config_is_refused_untouched() {
    assert!(upsert_mcp_server("{ not json", "a.exe").is_err());
    assert!(upsert_mcp_server("[1,2,3]", "a.exe").is_err());
    assert!(remove_mcp_server("{ not json").is_err());
}

#[test]
fn the_refusals_say_why() {
    let e = upsert_mcp_server("{ not json", "a.exe").unwrap_err();
    assert!(e.starts_with("the existing config didn't parse as JSON ("), "{e}");
    assert!(e.ends_with(") — not touching it"), "{e}");
    assert_eq!(
        upsert_mcp_server("[1,2,3]", "a.exe").unwrap_err(),
        "the existing config isn't a JSON object — not touching it"
    );
    assert_eq!(
        upsert_mcp_server(r#"{"mcpServers": 5}"#, "a.exe").unwrap_err(),
        "'mcpServers' isn't an object — not touching it"
    );
}

#[test]
fn the_upsert_is_pretty_printed_like_serde_writes_it() {
    let fresh = upsert_mcp_server("  \n", "a.exe").unwrap();
    let v: serde_json::Value = serde_json::from_str(&fresh).unwrap();
    assert_eq!(fresh, serde_json::to_string_pretty(&v).unwrap());
    assert!(fresh.contains("\n  \"mcpServers\": {"), "{fresh}");
}

#[test]
fn remove_takes_only_embral() {
    let existing = r#"{"mcpServers": {"embral": {"command": "e.exe"}, "other": {"command": "o.exe"}}}"#;
    let updated = remove_mcp_server(existing).unwrap().unwrap();
    let v: serde_json::Value = serde_json::from_str(&updated).unwrap();
    assert!(v["mcpServers"]["embral"].is_null());
    assert_eq!(v["mcpServers"]["other"]["command"], "o.exe");

    assert!(remove_mcp_server(r#"{"mcpServers": {}}"#).unwrap().is_none());
    assert!(remove_mcp_server("{}").unwrap().is_none());
}

#[test]
fn registration_is_read_from_the_config() {
    let registered = upsert_mcp_server("{}", "a.exe").unwrap();
    assert!(json_registered(Some(&registered)));
    assert!(!json_registered(Some(r#"{"mcpServers": {"embral": "a.exe"}}"#)));
    assert!(!json_registered(Some(r#"{"mcpServers": {"other": {}}}"#)));
    assert!(!json_registered(Some("[1]")));
    assert!(!json_registered(Some("not json")));
    assert!(!json_registered(None));
}

#[test]
fn a_registration_never_points_at_nothing() {
    assert_eq!(registration_path("/opt/embral-mcp".to_string(), true), Ok("/opt/embral-mcp".to_string()));
    assert_eq!(
        registration_path("/opt/embral-mcp".to_string(), false),
        Err("A part of embral this feature needs is missing (expected at /opt/embral-mcp) — reinstalling the app should fix this".to_string())
    );
}

#[test]
fn registering_touches_only_our_entry_on_real_configs() {
    let existing = r#"{"a": 1, "mcpServers": {"x": {"command": "x"}, "embral": {"command": "old"}}, "z": [true]}"#;
    let updated = upsert_mcp_server(existing, "new").unwrap();
    let before: serde_json::Value = serde_json::from_str(existing).unwrap();
    let after: serde_json::Value = serde_json::from_str(&updated).unwrap();
    assert_eq!(after["a"], before["a"]);
    assert_eq!(after["z"], before["z"]);
    assert_eq!(after["mcpServers"]["x"], before["mcpServers"]["x"]);
    assert_eq!(after["mcpServers"]["embral"]["command"], "new");
    let removed = remove_mcp_server(&updated).unwrap().unwrap();
    let gone: serde_json::Value = serde_json::from_str(&removed).unwrap();
    assert!(gone["mcpServers"]["embral"].is_null());
    assert_eq!(gone["mcpServers"]["x"], before["mcpServers"]["x"]);
    assert_eq!(gone["a"], before["a"]);
}

#[test]
fn codex_upsert_creates_the_table_from_nothing() {
    let out = upsert_codex_server("", r"C:\bin\embral-mcp.exe").unwrap();
    assert!(out.contains("[mcp_servers.embral]"), "{out}");
    assert!(out.contains(r#"command = "C:\\bin\\embral-mcp.exe""#) || out.contains(r"C:\bin\embral-mcp.exe"), "{out}");
    assert!(out.contains("args = []"), "{out}");
    // What the registered-state probe reads is what the write produced.
    assert!(out.lines().any(|l| l.trim() == "[mcp_servers.embral]"));
}

#[test]
fn codex_upsert_preserves_everything_else_verbatim() {
    let existing = "# my settings\nmodel = \"o4\"\n\n[mcp_servers.other]\ncommand = \"x\"\n\n[profiles.work]\nfast = true\n";
    let out = upsert_codex_server(existing, "/usr/lib/embral-mcp").unwrap();
    assert!(out.contains("# my settings"));
    assert!(out.contains("model = \"o4\""));
    assert!(out.contains("[mcp_servers.other]\ncommand = \"x\""));
    assert!(out.contains("[profiles.work]\nfast = true"));
    assert!(out.contains("[mcp_servers.embral]"));

    // Updating in place does not duplicate the table.
    let again = upsert_codex_server(&out, "/new/path").unwrap();
    assert_eq!(again.matches("[mcp_servers.embral]").count(), 1);
    assert!(again.contains("/new/path"));
    assert!(!again.contains("/usr/lib/embral-mcp"));
}

#[test]
fn codex_upsert_refuses_a_file_it_cannot_parse() {
    let err = upsert_codex_server("model = [broken", "/x").unwrap_err();
    assert!(err.contains("not touching it"), "{err}");
}

#[test]
fn codex_upsert_refuses_a_servers_key_that_is_not_a_table() {
    let err = upsert_codex_server("mcp_servers = 5\n", "/x").unwrap_err();
    assert_eq!(err, "the existing config's mcp_servers is not a table — not touching it");
    // An inline table is a table to edit.
    assert!(upsert_codex_server("mcp_servers = {}\n", "/x").is_ok());
}

#[test]
fn codex_remove_takes_only_embral() {
    let existing = "[mcp_servers.embral]\ncommand = \"e\"\n\n[mcp_servers.other]\ncommand = \"o\"\n";
    let out = remove_codex_server(existing).unwrap().unwrap();
    assert!(!out.contains("embral"), "{out}");
    assert!(out.contains("[mcp_servers.other]"));

    assert!(remove_codex_server("model = \"o4\"\n").unwrap().is_none());
    assert!(remove_codex_server("").unwrap().is_none());
    assert!(remove_codex_server("model = [broken").is_err());
}

#[test]
fn registration_goes_by_cli_when_there_is_one() {
    match register_route(McpClient::ClaudeCode, "/usr/bin/embral-mcp", true) {
        RegistrationRoute::Cli { cleanup, args, success } => {
            assert_eq!(cleanup.unwrap(), vec!["mcp", "remove", "--scope", "user", "embral"]);
            assert_eq!(args, vec!["mcp", "add", "--scope", "user", "embral", "--", "/usr/bin/embral-mcp"]);
            assert_eq!(success, format!("Registered with {} for every project", client_display_name(McpClient::ClaudeCode)));
        }
        _ => panic!("the code client registers through its CLI"),
    }
    match register_route(McpClient::ClaudeCode, "/x", false) {
        RegistrationRoute::Refused(why) => assert_eq!(why, format!("the {} CLI was not found on PATH", cli_name(McpClient::ClaudeCode))),
        _ => panic!("no CLI, no registration"),
    }
    match register_route(McpClient::Codex, "/x", true) {
        RegistrationRoute::Cli { cleanup, args, success } => {
            assert_eq!(cleanup.unwrap(), vec!["mcp", "remove", "embral"]);
            assert_eq!(args, vec!["mcp", "add", "embral", "--", "/x"]);
            assert_eq!(success, "Registered with ChatGPT and Codex");
        }
        _ => panic!("codex registers through its CLI when found"),
    }
    assert!(matches!(register_route(McpClient::Codex, "/x", false), RegistrationRoute::CodexFile));
    assert!(matches!(register_route(McpClient::ClaudeDesktop, "/x", true), RegistrationRoute::DesktopFile));
}

#[test]
fn unregistration_only_removes() {
    match unregister_route(McpClient::Codex, true) {
        RegistrationRoute::Cli { cleanup, args, success } => {
            assert!(cleanup.is_none());
            assert_eq!(args, vec!["mcp", "remove", "embral"]);
            assert_eq!(success, "Removed from ChatGPT and Codex");
        }
        _ => panic!("codex unregisters through its CLI when found"),
    }
    match unregister_route(McpClient::ClaudeCode, true) {
        RegistrationRoute::Cli { args, success, .. } => {
            assert_eq!(args, vec!["mcp", "remove", "--scope", "user", "embral"]);
            assert_eq!(success, format!("Removed from {}", client_display_name(McpClient::ClaudeCode)));
        }
        _ => panic!("the code client unregisters through its CLI"),
    }
}

#[test]
fn file_edits_report_what_happened() {
    let desktop = client_display_name(McpClient::ClaudeDesktop);
    assert_eq!(file_registered_message(McpClient::Codex), "Registered — restart ChatGPT to pick up embral");
    assert_eq!(file_registered_message(McpClient::ClaudeDesktop), format!("Registered — restart {desktop} to pick up embral"));
    assert_eq!(file_removed_message(McpClient::Codex, true), "Removed — restart ChatGPT to apply");
    assert_eq!(file_removed_message(McpClient::Codex, false), "embral wasn't registered with ChatGPT or Codex");
    assert_eq!(file_removed_message(McpClient::ClaudeDesktop, false), format!("embral wasn't registered with {desktop}"));
    assert_eq!(missing_config_message(McpClient::Codex), "no Codex config file to edit");
    assert_eq!(missing_config_message(McpClient::ClaudeDesktop), format!("no {desktop} config file to edit"));
}

#[test]
fn the_stable_copy_is_rewritten_only_when_it_differs() {
    assert!(matches!(stable_copy_check(Some(10), Some(10)), StableCopyCheck::CompareBytes));
    assert!(matches!(stable_copy_check(Some(10), Some(9)), StableCopyCheck::Copy));
    assert!(matches!(stable_copy_check(Some(10), None), StableCopyCheck::Copy));
    assert!(matches!(stable_copy_check(None, None), StableCopyCheck::Copy));
    assert!(hands_out_stable_copy(true, true, false));
    assert!(!hands_out_stable_copy(true, true, true));
    assert!(hands_out_stable_copy(true, false, true));
    assert!(!hands_out_stable_copy(false, true, false));
}

#[test]
fn the_stable_copy_is_rewritten_only_when_its_bytes_differ() {
    assert!(!stable_copy_differs(b"server-v1", b"server-v1"));
    assert!(stable_copy_differs(b"server-v1", b"server-v2"));
    assert!(stable_copy_differs(b"server", b"server-v2"));
}
