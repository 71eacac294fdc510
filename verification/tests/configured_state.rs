use nexo_plugin_email::config::{
    default_attachments_dir, default_outbound_queue_dir, EmailAccountConfig, EmailFilters,
    EmailFolders, EmailPluginConfig, EmailProvider, ImapEndpoint, LoopPreventionCfg,
    SmtpEndpoint, TlsMode,
};
use nexo_plugin_email::configured_state::{
    configured_account_instances, find_account, issue_credentials, list_tenant_rows,
};
use nexo_plugin_email::instance_registry::InstanceRegistry;

fn account(instance: &str, address: &str) -> EmailAccountConfig {
    EmailAccountConfig {
        instance: instance.to_string(),
        address: address.to_string(),
        provider: EmailProvider::Custom,
        imap: ImapEndpoint { host: "imap.example.com".into(), port: 993, tls: TlsMode::ImplicitTls },
        smtp: SmtpEndpoint { host: "smtp.example.com".into(), port: 587, tls: TlsMode::Starttls },
        folders: EmailFolders::default(),
        filters: EmailFilters::default(),
        bootstrap_limit: None,
    }
}

fn tenant(instance: Option<&str>, agents: &[&str], accounts: Vec<EmailAccountConfig>) -> EmailPluginConfig {
    EmailPluginConfig {
        instance: instance.map(|s| s.to_string()),
        allow_agents: agents.iter().map(|s| s.to_string()).collect(),
        enabled: true,
        max_body_bytes: 1048576,
        max_attachment_bytes: 26214400,
        attachment_retention_days: 7,
        max_dlq_lines: 1000,
        bounce_retention_days: 14,
        attachments_dir: default_attachments_dir(),
        outbound_queue_dir: default_outbound_queue_dir(),
        poll_fallback_seconds: 60,
        idle_reissue_minutes: 25,
        spf_dkim_warn: true,
        loop_prevention: LoopPreventionCfg::default(),
        accounts,
    }
}

fn fixture() -> Option<Vec<EmailPluginConfig>> {
    Some(vec![tenant(
        None,
        &[],
        vec![account("primary", "a@example.com"), account("secondary", "b@example.com")],
    )])
}

#[test]
fn list_returns_account_instance_names() {
    let accounts = configured_account_instances(&fixture());
    assert_eq!(accounts.len(), 2);
    assert!(accounts.contains(&"primary".to_string()));
    assert!(accounts.contains(&"secondary".to_string()));
}

#[test]
fn issue_accepts_known_instance() {
    issue_credentials(&fixture(), "primary").expect("accepted");
}

#[test]
fn issue_rejects_unknown_instance() {
    let err = issue_credentials(&fixture(), "ghost").expect_err("expected not_found");
    assert_eq!(err, "not_found");
}

#[test]
fn issue_rejects_when_no_configured_state() {
    let err = issue_credentials(&None, "primary").expect_err("expected not_found");
    assert_eq!(err, "not_found");
}

#[test]
fn resolve_finds_the_declared_account() {
    let state = fixture();
    let acct = find_account(&state, "primary").expect("resolve ok");
    assert_eq!(acct.instance, "primary");
    assert_eq!(acct.address, "a@example.com");
    assert_eq!(find_account(&state, "ghost").unwrap_err(), "not_found");
}

#[test]
fn accounts_flatten_across_tenants_in_order() {
    let state = Some(vec![
        tenant(Some("t1"), &[], vec![account("a", "a@x"), account("b", "b@x")]),
        tenant(Some("t2"), &[], vec![]),
        tenant(Some("t3"), &[], vec![account("c", "c@x"), account("a", "other@x")]),
    ]);
    assert_eq!(configured_account_instances(&state), vec!["a", "b", "c", "a"]);
    assert_eq!(find_account(&state, "a").unwrap().address, "a@x");
    assert_eq!(find_account(&state, "c").unwrap().address, "c@x");
    assert!(configured_account_instances(&None).is_empty());
}

#[test]
fn admin_list_tenants_enumerates_configured_tenants() {
    let state = Some(vec![
        tenant(Some("empresa_a"), &["ana"], vec![]),
        tenant(Some("empresa_b"), &[], vec![account("x", "x@y")]),
        tenant(None, &[], vec![]),
    ]);
    let mut reg = InstanceRegistry::new();
    reg.register("empresa_b", ());
    let rows = list_tenant_rows(&state, &reg);
    assert_eq!(rows.len(), 3);
    assert_eq!(rows[0].tenant, "empresa_a");
    assert_eq!(rows[0].allow_agents, vec!["ana".to_string()]);
    assert!(!rows[0].registered);
    assert_eq!(rows[0].accounts_count, 0);
    assert_eq!(rows[1].tenant, "empresa_b");
    assert!(rows[1].registered);
    assert_eq!(rows[1].accounts_count, 1);
    assert_eq!(rows[2].tenant, "default");
    assert!(list_tenant_rows(&None, &reg).is_empty());
}
