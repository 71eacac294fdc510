use std::path::PathBuf;

use nexo_plugin_email::boot::{
    apply_configure, resolve_tenant_data_dir, resolve_tenants, sanitize_tenant_label,
    ConfigureOutcome, ResolvedTenant,
};
use nexo_plugin_email::config::{
    default_attachment_retention_days, default_attachments_dir, default_bounce_retention_days,
    default_idle_reissue_minutes, default_max_attachment_bytes, default_max_body_bytes,
    default_max_dlq_lines, default_outbound_queue_dir, default_poll_fallback_seconds,
    EmailPluginConfig, EmailPluginShape, LoopPreventionCfg,
};
use nexo_plugin_email::instance_registry::InstanceRegistry;

fn tenant(instance: Option<&str>) -> EmailPluginConfig {
    EmailPluginConfig {
        instance: instance.map(|s| s.to_string()),
        allow_agents: vec![],
        enabled: true,
        max_body_bytes: default_max_body_bytes(),
        max_attachment_bytes: default_max_attachment_bytes(),
        attachment_retention_days: default_attachment_retention_days(),
        max_dlq_lines: default_max_dlq_lines(),
        bounce_retention_days: default_bounce_retention_days(),
        attachments_dir: default_attachments_dir(),
        outbound_queue_dir: default_outbound_queue_dir(),
        poll_fallback_seconds: default_poll_fallback_seconds(),
        idle_reissue_minutes: default_idle_reissue_minutes(),
        spf_dkim_warn: true,
        loop_prevention: LoopPreventionCfg::default(),
        accounts: vec![],
    }
}

/// The handle a stub factory builds: the tenant's label, config label and
/// data directory, as the plugin would see them.
#[derive(Debug, Clone, PartialEq)]
struct StubPlugin {
    label: String,
    instance: Option<String>,
    data_dir: String,
}

fn stub_factory(t: &ResolvedTenant) -> Result<StubPlugin, String> {
    Ok(StubPlugin {
        label: t.label.clone(),
        instance: t.config.instance.clone(),
        data_dir: t.data_dir.clone(),
    })
}

fn many(labels: &[Option<&str>]) -> EmailPluginShape {
    EmailPluginShape::Many(labels.iter().map(|l| tenant(*l)).collect())
}

const ROOT: &str = "/tmp/nexo-email-test";

#[test]
fn sanitize_accepts_canonical_label() {
    assert_eq!(sanitize_tenant_label("empresa_a").unwrap(), "empresa_a");
    assert_eq!(sanitize_tenant_label("Marketing").unwrap(), "marketing");
    assert_eq!(sanitize_tenant_label("t-01").unwrap(), "t-01");
}

#[test]
fn sanitize_rejects_empty_and_dotdot_and_unicode() {
    assert!(sanitize_tenant_label("").is_err());
    assert!(sanitize_tenant_label("   ").is_err());
    assert!(sanitize_tenant_label("..").is_err());
    assert!(sanitize_tenant_label("a/b").is_err());
    assert!(sanitize_tenant_label("ana.es").is_err());
    assert!(sanitize_tenant_label("ana-ñ").is_err());
}

#[test]
fn sanitize_rejects_too_long() {
    let s = "a".repeat(65);
    assert!(sanitize_tenant_label(&s).is_err());
}

#[test]
fn resolve_tenant_data_dir_joins_email_then_tenant() {
    let p = resolve_tenant_data_dir("/var/lib/nexo", "empresa_a");
    assert_eq!(PathBuf::from(p), PathBuf::from("/var/lib/nexo/email/empresa_a"));
}

#[test]
fn sanitize_helpers_exposed() {
    assert_eq!(sanitize_tenant_label("Empresa-1").unwrap(), "empresa-1");
    let p = resolve_tenant_data_dir("/x", "y");
    assert_eq!(PathBuf::from(p), PathBuf::from("/x/email/y"));
}

#[test]
fn sanitize_error_messages_name_the_reason() {
    assert_eq!(sanitize_tenant_label("  ").unwrap_err(), "tenant label is empty");
    assert_eq!(
        sanitize_tenant_label(" bad/label ").unwrap_err(),
        "tenant label `bad/label` has invalid characters (allowed: [A-Za-z0-9_-])"
    );
    let long = "b".repeat(65);
    assert_eq!(
        sanitize_tenant_label(&long).unwrap_err(),
        format!("tenant label `{long}` exceeds 64 characters")
    );
}

#[test]
fn sanitize_trims_unicode_white_space_and_keeps_64() {
    assert_eq!(sanitize_tenant_label("\u{3000}\tTeam_X \u{a0}\n").unwrap(), "team_x");
    let max = "Z".repeat(64);
    assert_eq!(sanitize_tenant_label(&max).unwrap(), "z".repeat(64));
    assert!(sanitize_tenant_label("a b").is_err());
}

#[test]
fn sanitize_is_idempotent_on_examples() {
    for raw in ["Empresa_A", "  t-01 ", "MARKETING", "x"] {
        let once = sanitize_tenant_label(raw).unwrap();
        assert_eq!(sanitize_tenant_label(&once).unwrap(), once);
    }
}

#[test]
fn data_dir_joins_as_posix_paths() {
    assert_eq!(resolve_tenant_data_dir("/var/lib/nexo/", "a"), "/var/lib/nexo/email/a");
    assert_eq!(resolve_tenant_data_dir("", "a"), "email/a");
    assert_eq!(resolve_tenant_data_dir("/base", "/abs"), "/abs");
    assert_ne!(resolve_tenant_data_dir("/r", "a"), resolve_tenant_data_dir("/r", "b"));
}

#[test]
fn resolve_tenants_writes_labels_back() {
    let ts = resolve_tenants(vec![tenant(Some(" Empresa_A ")), tenant(None)], "/d").unwrap();
    assert_eq!(ts.len(), 2);
    assert_eq!(ts[0].label, "empresa_a");
    assert_eq!(ts[0].config.instance.as_deref(), Some("empresa_a"));
    assert_eq!(ts[0].data_dir, "/d/email/empresa_a");
    assert_eq!(ts[1].label, "default");
    assert_eq!(ts[1].data_dir, "/d/email/default");
}

#[test]
fn configure_with_two_tenants_registers_both() {
    let mut reg = InstanceRegistry::new();
    let out = apply_configure(many(&[Some("empresa_a"), Some("empresa_b")]), ROOT, &mut reg, stub_factory)
        .expect("configure ok");
    assert_eq!(reg.len(), 2);
    assert!(reg.lookup("empresa_a").is_some());
    assert!(reg.lookup("empresa_b").is_some());
    match out {
        ConfigureOutcome::Tenants(ts) => assert_eq!(ts.len(), 2),
        ConfigureOutcome::Legacy(_) => panic!("sequence shape must resolve tenants"),
    }
}

#[test]
fn configure_reload_drops_removed_tenant() {
    let mut reg = InstanceRegistry::new();
    apply_configure(many(&[Some("a"), Some("b"), Some("c")]), ROOT, &mut reg, stub_factory)
        .expect("first configure");
    assert_eq!(reg.len(), 3);
    apply_configure(many(&[Some("a"), Some("c")]), ROOT, &mut reg, stub_factory).expect("reload");
    assert_eq!(reg.len(), 2);
    assert!(reg.lookup("a").is_some());
    assert!(reg.lookup("b").is_none());
    assert!(reg.lookup("c").is_some());
}

#[test]
fn configure_duplicate_tenant_label_errors() {
    let mut reg = InstanceRegistry::new();
    let err = apply_configure(many(&[Some("dup"), Some("dup")]), ROOT, &mut reg, stub_factory)
        .err()
        .expect("duplicate must fail");
    assert!(err.to_lowercase().contains("duplicate"), "error must mention duplicate: {err}");
    assert_eq!(err, "duplicate email tenant label: `dup`");
    assert_eq!(reg.len(), 0);
}

#[test]
fn configure_invalid_tenant_label_errors() {
    let mut reg = InstanceRegistry::new();
    let err = apply_configure(many(&[Some("bad/label")]), ROOT, &mut reg, stub_factory)
        .err()
        .expect("invalid label must fail");
    assert!(err.to_lowercase().contains("invalid"), "error must mention invalid: {err}");
    assert_eq!(reg.len(), 0);
}

#[test]
fn configure_resolved_label_lowercased_and_written_back() {
    let mut reg = InstanceRegistry::new();
    apply_configure(many(&[Some("Empresa_A")]), ROOT, &mut reg, stub_factory).expect("ok");
    let plugin = reg.lookup("empresa_a").expect("lowercased lookup");
    assert_eq!(plugin.instance.as_deref(), Some("empresa_a"));
    assert_eq!(plugin.data_dir, "/tmp/nexo-email-test/email/empresa_a");
}

#[test]
fn configure_legacy_single_object_skips_registry() {
    let mut reg = InstanceRegistry::new();
    apply_configure(many(&[Some("old")]), ROOT, &mut reg, stub_factory).unwrap();
    assert_eq!(reg.len(), 1);
    let mut single = tenant(None);
    single.max_body_bytes = 1024;
    let out = apply_configure(EmailPluginShape::Single(single), ROOT, &mut reg, stub_factory)
        .expect("configure ok");
    assert_eq!(reg.len(), 0);
    match out {
        ConfigureOutcome::Legacy(c) => assert_eq!(c.max_body_bytes, 1024),
        ConfigureOutcome::Tenants(_) => panic!("single shape is the legacy path"),
    }
}

#[test]
fn configure_default_label_when_instance_absent() {
    let mut reg = InstanceRegistry::new();
    apply_configure(many(&[None]), ROOT, &mut reg, stub_factory).expect("ok");
    assert_eq!(reg.len(), 1);
    assert!(reg.lookup("default").is_some());
}

#[test]
fn configure_failed_resolution_keeps_previous_tenants() {
    let mut reg = InstanceRegistry::new();
    apply_configure(many(&[Some("a"), Some("b")]), ROOT, &mut reg, stub_factory).unwrap();
    let err = apply_configure(many(&[Some("c"), Some("C")]), ROOT, &mut reg, stub_factory).unwrap_err();
    assert_eq!(err, "duplicate email tenant label: `c`");
    assert_eq!(reg.len(), 2);
    assert!(reg.lookup("a").is_some() && reg.lookup("b").is_some());
}

#[test]
fn configure_factory_failure_names_the_tenant() {
    let mut reg = InstanceRegistry::new();
    apply_configure(many(&[Some("old")]), ROOT, &mut reg, stub_factory).unwrap();
    let failing = |t: &ResolvedTenant| -> Result<StubPlugin, String> {
        if t.label == "b" {
            Err("no smtp".to_string())
        } else {
            stub_factory(t)
        }
    };
    let err = apply_configure(many(&[Some("a"), Some("b"), Some("c")]), ROOT, &mut reg, failing)
        .unwrap_err();
    assert_eq!(err, "factory failed for tenant `b`: no smtp");
    assert!(reg.lookup("old").is_none());
    assert!(reg.lookup("a").is_some());
    assert!(reg.lookup("b").is_none());
    assert!(reg.lookup("c").is_none());
}

#[test]
fn configure_replaces_handle_of_kept_tenant() {
    let mut reg = InstanceRegistry::new();
    apply_configure(many(&[Some("a")]), "/one", &mut reg, stub_factory).unwrap();
    apply_configure(many(&[Some("a")]), "/two", &mut reg, stub_factory).unwrap();
    assert_eq!(reg.lookup("a").unwrap().data_dir, "/two/email/a");
}

#[test]
fn configure_factory_failure_keeps_handles_of_later_tenants() {
    let mut reg = InstanceRegistry::new();
    apply_configure(many(&[Some("a"), Some("c")]), "/one", &mut reg, stub_factory).unwrap();
    let failing = |t: &ResolvedTenant| -> Result<StubPlugin, String> {
        if t.label == "b" {
            Err("no imap".to_string())
        } else {
            stub_factory(t)
        }
    };
    let err = apply_configure(many(&[Some("a"), Some("b"), Some("c")]), "/two", &mut reg, failing)
        .unwrap_err();
    assert_eq!(err, "factory failed for tenant `b`: no imap");
    assert_eq!(reg.lookup("a").unwrap().data_dir, "/two/email/a");
    assert_eq!(reg.lookup("c").unwrap().data_dir, "/one/email/c");
    assert!(reg.lookup("b").is_none());
    assert_eq!(reg.len(), 2);
}
