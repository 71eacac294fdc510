//! The plugin's own configuration types, with the defaults that an operator
//! YAML which leaves a field out falls back to.

use vstd::prelude::*;

verus! {

/// Operator YAML wire shape: the top-level `email:` key holds either one
/// tenant map (legacy single instance) or a sequence of tenant maps.
#[derive(Debug, Clone)]
pub struct EmailPluginConfigFile {
    pub email: EmailPluginShape,
}

/// One tenant map, or several.
#[derive(Debug, Clone)]
pub enum EmailPluginShape {
    /// Legacy bare map: one tenant with no label.
    Single(EmailPluginConfig),
    /// Multi-tenant sequence: each entry owns its accounts and state.
    Many(Vec<EmailPluginConfig>),
}

impl EmailPluginShape {
    /// The tenants this shape declares, in order.
    pub open spec fn tenants(self) -> Seq<EmailPluginConfig> {
        match self {
            EmailPluginShape::Single(c) => seq![c],
            EmailPluginShape::Many(v) => v@,
        }
    }

    /// Flatten to the tenant list the boot loop consumes: a single map
    /// becomes a one-element list, a sequence is kept as it is.
    pub fn into_vec(self) -> (v: Vec<EmailPluginConfig>)
        ensures
            v@ == self.tenants(),
    {
        match self {
            EmailPluginShape::Single(c) => vec![c],
            EmailPluginShape::Many(v) => v,
        }
    }
}

/// One tenant's configuration.
#[derive(Debug, Clone)]
pub struct EmailPluginConfig {
    /// Tenant label; `None` stands for the legacy tenant `"default"`.
    pub instance: Option<String>,
    /// Agents permitted to route email tools to this tenant; empty
    /// accepts any agent.
    pub allow_agents: Vec<String>,
    pub enabled: bool,
    pub max_body_bytes: usize,
    pub max_attachment_bytes: usize,
    pub attachment_retention_days: u64,
    pub max_dlq_lines: usize,
    pub bounce_retention_days: u64,
    pub attachments_dir: String,
    pub outbound_queue_dir: String,
    pub poll_fallback_seconds: u64,
    pub idle_reissue_minutes: u64,
    pub spf_dkim_warn: bool,
    pub loop_prevention: LoopPreventionCfg,
    pub accounts: Vec<EmailAccountConfig>,
}

/// Which loop-prevention checks run on inbound mail.
#[derive(Debug, Clone, Copy, PartialEq, Eq, Structural)]
pub struct LoopPreventionCfg {
    pub auto_submitted: bool,
    pub list_headers: bool,
    pub self_from: bool,
    pub spam_flag: bool,
    pub feedback_id: bool,
    pub esp_mailer: bool,
}

impl Default for LoopPreventionCfg {
    /// Every check is on.
    fn default() -> (cfg: Self)
        ensures
            cfg == (LoopPreventionCfg {
                auto_submitted: true,
                list_headers: true,
                self_from: true,
                spam_flag: true,
                feedback_id: true,
                esp_mailer: true,
            }),
    {
        LoopPreventionCfg {
            auto_submitted: true,
            list_headers: true,
            self_from: true,
            spam_flag: true,
            feedback_id: true,
            esp_mailer: true,
        }
    }
}

/// One mailbox of a tenant.
#[derive(Debug, Clone)]
pub struct EmailAccountConfig {
    /// Account label inside the tenant.
    pub instance: String,
    pub address: String,
    pub provider: EmailProvider,
    pub imap: ImapEndpoint,
    pub smtp: SmtpEndpoint,
    pub folders: EmailFolders,
    pub filters: EmailFilters,
    pub bootstrap_limit: Option<u32>,
}

#[derive(Debug, Clone, Copy, PartialEq, Eq, Structural)]
pub enum EmailProvider {
    Gmail,
    Outlook,
    Yahoo,
    Icloud,
    Custom,
}

#[derive(Debug, Clone)]
pub struct ImapEndpoint {
    pub host: String,
    pub port: u16,
    pub tls: TlsMode,
}

#[derive(Debug, Clone)]
pub struct SmtpEndpoint {
    pub host: String,
    pub port: u16,
    pub tls: TlsMode,
}

#[derive(Debug, Clone, Copy, PartialEq, Eq, Structural)]
pub enum TlsMode {
    Plain,
    Starttls,
    ImplicitTls,
}

/// Mailbox folder names.
#[derive(Debug, Clone)]
pub struct EmailFolders {
    pub inbox: String,
    pub sent: String,
    pub archive: String,
}

impl Default for EmailFolders {
    /// `INBOX`, `Sent` and `Archive`.
    fn default() -> (f: Self)
        ensures
            f.inbox@ == "INBOX"@,
            f.sent@ == "Sent"@,
            f.archive@ == "Archive"@,
    {
        EmailFolders {
            inbox: default_folder_inbox(),
            sent: default_folder_sent(),
            archive: default_folder_archive(),
        }
    }
}

/// Sender allow and deny lists.
#[derive(Debug, Clone)]
pub struct EmailFilters {
    pub from_allowlist: Vec<String>,
    pub from_denylist: Vec<String>,
}

impl Default for EmailFilters {
    /// Both lists empty.
    fn default() -> (f: Self)
        ensures
            f.from_allowlist@.len() == 0,
            f.from_denylist@.len() == 0,
    {
        EmailFilters { from_allowlist: Vec::new(), from_denylist: Vec::new() }
    }
}

/// Default of each loop-prevention switch.
pub fn default_true() -> (b: bool)
    ensures
        b,
{
    true
}

/// A tenant is enabled unless the YAML says otherwise.
pub fn default_email_enabled() -> (b: bool)
    ensures
        b,
{
    true
}

/// 32 KiB.
pub fn default_max_body_bytes() -> (n: usize)
    ensures
        n == 32 * 1024,
{
    32 * 1024
}

/// 25 MiB.
pub fn default_max_attachment_bytes() -> (n: usize)
    ensures
        n == 25 * 1024 * 1024,
{
    25 * 1024 * 1024
}

pub fn default_attachment_retention_days() -> (n: u64)
    ensures
        n == 90,
{
    90
}

pub fn default_max_dlq_lines() -> (n: usize)
    ensures
        n == 10_000,
{
    10_000
}

pub fn default_bounce_retention_days() -> (n: u64)
    ensures
        n == 365,
{
    365
}

pub fn default_attachments_dir() -> (s: String)
    ensures
        s@ == "data/email-attachments"@,
{
    String::from_str("data/email-attachments")
}

pub fn default_outbound_queue_dir() -> (s: String)
    ensures
        s@ == "data/email-outbound"@,
{
    String::from_str("data/email-outbound")
}

pub fn default_poll_fallback_seconds() -> (n: u64)
    ensures
        n == 60,
{
    60
}

pub fn default_idle_reissue_minutes() -> (n: u64)
    ensures
        n == 28,
{
    28
}

pub fn default_spf_dkim_warn() -> (b: bool)
    ensures
        b,
{
    true
}

pub fn default_provider() -> (p: EmailProvider)
    ensures
        p == EmailProvider::Custom,
{
    EmailProvider::Custom
}

pub fn default_imap_tls() -> (t: TlsMode)
    ensures
        t == TlsMode::ImplicitTls,
{
    TlsMode::ImplicitTls
}

pub fn default_smtp_tls() -> (t: TlsMode)
    ensures
        t == TlsMode::Starttls,
{
    TlsMode::Starttls
}

pub fn default_folder_inbox() -> (s: String)
    ensures
        s@ == "INBOX"@,
{
    String::from_str("INBOX")
}

pub fn default_folder_sent() -> (s: String)
    ensures
        s@ == "Sent"@,
{
    String::from_str("Sent")
}

pub fn default_folder_archive() -> (s: String)
    ensures
        s@ == "Archive"@,
{
    String::from_str("Archive")
}

} // verus!
