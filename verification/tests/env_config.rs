use nexo_plugin_email::config::{
    EmailAccountConfig, EmailFilters, EmailFolders, EmailPluginConfig, EmailPluginShape,
    EmailProvider, ImapEndpoint, LoopPreventionCfg, SmtpEndpoint, TlsMode,
};
use nexo_plugin_email::env_config::{
    bootstrap_config, broker_kind_for_url, declared_account_pairs, BrokerKind,
};

fn account(instance: &str, address: &str) -> EmailAccountConfig {
    EmailAccountConfig {
        instance: instance.into(),
        address: address.into(),
        provider: EmailProvider::Gmail,
        imap: ImapEndpoint { host: "h".into(), port: 993, tls: TlsMode::ImplicitTls },
        smtp: SmtpEndpoint { host: "h".into(), port: 465, tls: TlsMode::Plain },
        folders: EmailFolders::default(),
        filters: EmailFilters::default(),
        bootstrap_limit: Some(50),
    }
}

fn tenant(label: &str, accounts: Vec<EmailAccountConfig>) -> EmailPluginConfig {
    EmailPluginConfig {
        instance: Some(label.into()),
        allow_agents: vec![],
        enabled: true,
        max_body_bytes: 1,
        max_attachment_bytes: 1,
        attachment_retention_days: 1,
        max_dlq_lines: 1,
        bounce_retention_days: 1,
        attachments_dir: "/tmp/x".into(),
        outbound_queue_dir: "/tmp/y".into(),
        poll_fallback_seconds: 60,
        idle_reissue_minutes: 25,
        spf_dkim_warn: false,
        loop_prevention: LoopPreventionCfg::default(),
        accounts,
    }
}

#[test]
fn bootstrap_picks_the_first_tenant() {
    let shape = EmailPluginShape::Many(vec![tenant("a", vec![]), tenant("b", vec![])]);
    assert_eq!(bootstrap_config(shape).unwrap().instance.as_deref(), Some("a"));
    let single = EmailPluginShape::Single(tenant("only", vec![]));
    assert_eq!(bootstrap_config(single).unwrap().instance.as_deref(), Some("only"));
    assert!(bootstrap_config(EmailPluginShape::Many(vec![])).is_none());
}

#[test]
fn declared_pairs_follow_the_accounts() {
    let cfg = tenant("t", vec![account("primary", "a@example.com"), account("secondary", "b@example.com")]);
    assert_eq!(
        declared_account_pairs(&cfg),
        vec![
            ("primary".to_string(), "a@example.com".to_string()),
            ("secondary".to_string(), "b@example.com".to_string()),
        ]
    );
}

#[test]
fn broker_kind_follows_url_scheme() {
    assert_eq!(broker_kind_for_url("nats://127.0.0.1:4222"), BrokerKind::Nats);
    assert_eq!(broker_kind_for_url("local://test"), BrokerKind::Local);
    assert_eq!(broker_kind_for_url("nats:/x"), BrokerKind::Local);
}
