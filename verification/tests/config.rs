use nexo_plugin_email::config::{
    default_attachment_retention_days, default_attachments_dir, default_bounce_retention_days,
    default_email_enabled, default_folder_archive, default_folder_inbox, default_folder_sent,
    default_idle_reissue_minutes, default_imap_tls, default_max_attachment_bytes,
    default_max_body_bytes, default_max_dlq_lines, default_outbound_queue_dir,
    default_poll_fallback_seconds, default_provider, default_smtp_tls, default_spf_dkim_warn,
    default_true, EmailFilters, EmailFolders, EmailPluginConfig, EmailPluginShape, EmailProvider,
    LoopPreventionCfg, TlsMode,
};

fn tenant(max_body_bytes: usize) -> EmailPluginConfig {
    EmailPluginConfig {
        instance: None,
        allow_agents: vec![],
        enabled: default_email_enabled(),
        max_body_bytes,
        max_attachment_bytes: default_max_attachment_bytes(),
        attachment_retention_days: default_attachment_retention_days(),
        max_dlq_lines: default_max_dlq_lines(),
        bounce_retention_days: default_bounce_retention_days(),
        attachments_dir: default_attachments_dir(),
        outbound_queue_dir: default_outbound_queue_dir(),
        poll_fallback_seconds: default_poll_fallback_seconds(),
        idle_reissue_minutes: default_idle_reissue_minutes(),
        spf_dkim_warn: default_spf_dkim_warn(),
        loop_prevention: LoopPreventionCfg::default(),
        accounts: vec![],
    }
}

#[test]
fn defaults_match_the_documented_values() {
    assert!(default_true());
    assert!(default_email_enabled());
    assert_eq!(default_max_body_bytes(), 32 * 1024);
    assert_eq!(default_max_attachment_bytes(), 25 * 1024 * 1024);
    assert_eq!(default_attachment_retention_days(), 90);
    assert_eq!(default_max_dlq_lines(), 10_000);
    assert_eq!(default_bounce_retention_days(), 365);
    assert_eq!(default_attachments_dir(), "data/email-attachments");
    assert_eq!(default_outbound_queue_dir(), "data/email-outbound");
    assert_eq!(default_poll_fallback_seconds(), 60);
    assert_eq!(default_idle_reissue_minutes(), 28);
    assert!(default_spf_dkim_warn());
    assert_eq!(default_provider(), EmailProvider::Custom);
    assert_eq!(default_imap_tls(), TlsMode::ImplicitTls);
    assert_eq!(default_smtp_tls(), TlsMode::Starttls);
    assert_eq!(default_folder_inbox(), "INBOX");
    assert_eq!(default_folder_sent(), "Sent");
    assert_eq!(default_folder_archive(), "Archive");
}

#[test]
fn configure_loop_prevention_defaults_apply() {
    let cfg = LoopPreventionCfg::default();
    assert!(cfg.auto_submitted);
    assert!(cfg.list_headers);
    assert!(cfg.self_from);
    assert!(cfg.spam_flag);
    assert!(cfg.feedback_id);
    assert!(cfg.esp_mailer);
}

#[test]
fn folder_and_filter_defaults() {
    let f = EmailFolders::default();
    assert_eq!((f.inbox.as_str(), f.sent.as_str(), f.archive.as_str()), ("INBOX", "Sent", "Archive"));
    let filters = EmailFilters::default();
    assert!(filters.from_allowlist.is_empty() && filters.from_denylist.is_empty());
}

#[test]
fn into_vec_flattens_both_shapes() {
    let single = EmailPluginShape::Single(tenant(1024)).into_vec();
    assert_eq!(single.len(), 1);
    assert_eq!(single[0].max_body_bytes, 1024);
    let many = EmailPluginShape::Many(vec![tenant(1), tenant(2)]).into_vec();
    assert_eq!(many.iter().map(|c| c.max_body_bytes).collect::<Vec<_>>(), vec![1, 2]);
    assert!(EmailPluginShape::Many(vec![]).into_vec().is_empty());
}
