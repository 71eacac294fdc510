//! The `email_*` tools the subprocess serves over `tool.invoke`.

use vstd::prelude::*;
use crate::text::{concat3, str_equal};

verus! {

/// The twelve email tools, in the order the subprocess advertises them.
#[derive(Debug, Clone, Copy, PartialEq, Eq, Structural)]
pub enum EmailTool {
    Send,
    Reply,
    Archive,
    MoveTo,
    Label,
    Search,
    Get,
    Thread,
    BouncesSummary,
    AttachmentGet,
    Health,
    InstancesList,
}

/// The wire name of a tool.
pub open spec fn tool_name(t: EmailTool) -> Seq<char> {
    match t {
        EmailTool::Send => "email_send"@,
        EmailTool::Reply => "email_reply"@,
        EmailTool::Archive => "email_archive"@,
        EmailTool::MoveTo => "email_move_to"@,
        EmailTool::Label => "email_label"@,
        EmailTool::Search => "email_search"@,
        EmailTool::Get => "email_get"@,
        EmailTool::Thread => "email_thread"@,
        EmailTool::BouncesSummary => "email_bounces_summary"@,
        EmailTool::AttachmentGet => "email_attachment_get"@,
        EmailTool::Health => "email_health"@,
        EmailTool::InstancesList => "email_instances_list"@,
    }
}

impl EmailTool {
    /// The tool's wire name.
    pub fn name(&self) -> (s: &'static str)
        ensures
            s@ == tool_name(*self),
    {
        match self {
            EmailTool::Send => "email_send",
            EmailTool::Reply => "email_reply",
            EmailTool::Archive => "email_archive",
            EmailTool::MoveTo => "email_move_to",
            EmailTool::Label => "email_label",
            EmailTool::Search => "email_search",
            EmailTool::Get => "email_get",
            EmailTool::Thread => "email_thread",
            EmailTool::BouncesSummary => "email_bounces_summary",
            EmailTool::AttachmentGet => "email_attachment_get",
            EmailTool::Health => "email_health",
            EmailTool::InstancesList => "email_instances_list",
        }
    }
}

/// Every tool, in advertising order.
pub open spec fn tools_in_order() -> Seq<EmailTool> {
    seq![
        EmailTool::Send,
        EmailTool::Reply,
        EmailTool::Archive,
        EmailTool::MoveTo,
        EmailTool::Label,
        EmailTool::Search,
        EmailTool::Get,
        EmailTool::Thread,
        EmailTool::BouncesSummary,
        EmailTool::AttachmentGet,
        EmailTool::Health,
        EmailTool::InstancesList,
    ]
}

/// The tools the subprocess advertises, in order.
pub fn email_tools() -> (v: Vec<EmailTool>)
    ensures
        v@ == tools_in_order(),
{
    let v = vec![
        EmailTool::Send,
        EmailTool::Reply,
        EmailTool::Archive,
        EmailTool::MoveTo,
        EmailTool::Label,
        EmailTool::Search,
        EmailTool::Get,
        EmailTool::Thread,
        EmailTool::BouncesSummary,
        EmailTool::AttachmentGet,
        EmailTool::Health,
        EmailTool::InstancesList,
    ];
    assert(v@ =~= tools_in_order());
    v
}

/// The tool that `name` names, if any.
pub fn email_tool_from_name(name: &str) -> (r: Option<EmailTool>)
    ensures
        r matches Some(t) ==> tool_name(t) == name@,
        r is None ==> forall|t: EmailTool| tool_name(t) != name@,
{
    if str_equal(name, "email_send") {
        Some(EmailTool::Send)
    } else if str_equal(name, "email_reply") {
        Some(EmailTool::Reply)
    } else if str_equal(name, "email_archive") {
        Some(EmailTool::Archive)
    } else if str_equal(name, "email_move_to") {
        Some(EmailTool::MoveTo)
    } else if str_equal(name, "email_label") {
        Some(EmailTool::Label)
    } else if str_equal(name, "email_search") {
        Some(EmailTool::Search)
    } else if str_equal(name, "email_get") {
        Some(EmailTool::Get)
    } else if str_equal(name, "email_thread") {
        Some(EmailTool::Thread)
    } else if str_equal(name, "email_bounces_summary") {
        Some(EmailTool::BouncesSummary)
    } else if str_equal(name, "email_attachment_get") {
        Some(EmailTool::AttachmentGet)
    } else if str_equal(name, "email_health") {
        Some(EmailTool::Health)
    } else if str_equal(name, "email_instances_list") {
        Some(EmailTool::InstancesList)
    } else {
        None
    }
}

pub open spec fn unknown_tool_message(name: Seq<char>) -> Seq<char> {
    "unknown email tool: `"@ + name + "`"@
}

/// Resolve the tool a `tool.invoke` names before anything else happens, so
/// that an unknown name is refused even when the plugin has not booted.
pub fn classify_tool_invocation(name: &str) -> (r: Result<EmailTool, String>)
    ensures
        r matches Ok(t) ==> tool_name(t) == name@,
        r matches Err(e) ==> e@ == unknown_tool_message(name@) && forall|t: EmailTool|
            tool_name(t) != name@,
{
    match email_tool_from_name(name) {
        Some(t) => Ok(t),
        None => Err(concat3("unknown email tool: `", name, "`")),
    }
}

/// Distinct tools have distinct names, so a name picks one tool.
pub proof fn lemma_tool_names_distinct(a: EmailTool, b: EmailTool)
    ensures
        tool_name(a) == tool_name(b) ==> a == b,
{
    reveal_strlit("email_send");
    reveal_strlit("email_reply");
    reveal_strlit("email_archive");
    reveal_strlit("email_move_to");
    reveal_strlit("email_label");
    reveal_strlit("email_search");
    reveal_strlit("email_get");
    reveal_strlit("email_thread");
    reveal_strlit("email_bounces_summary");
    reveal_strlit("email_attachment_get");
    reveal_strlit("email_health");
    reveal_strlit("email_instances_list");
    if tool_name(a) == tool_name(b) && a != b {
        let x = tool_name(a);
        let y = tool_name(b);
        assert(x.len() == y.len());
        assert(x[6] == y[6]);
        assert(x[7] == y[7]);
        assert(x[8] == y[8]);
    }
}

/// The wire names, tool by tool, and the order the tools are advertised in:
/// `email_send`, `email_reply`, `email_archive`, `email_move_to`,
/// `email_label`, `email_search`, `email_get`, `email_thread`,
/// `email_bounces_summary`, `email_attachment_get`, `email_health`,
/// `email_instances_list`.
pub proof fn lemma_tool_name_table()
    ensures
        tool_name(EmailTool::Send) == "email_send"@,
        tool_name(EmailTool::Reply) == "email_reply"@,
        tool_name(EmailTool::Archive) == "email_archive"@,
        tool_name(EmailTool::MoveTo) == "email_move_to"@,
        tool_name(EmailTool::Label) == "email_label"@,
        tool_name(EmailTool::Search) == "email_search"@,
        tool_name(EmailTool::Get) == "email_get"@,
        tool_name(EmailTool::Thread) == "email_thread"@,
        tool_name(EmailTool::BouncesSummary) == "email_bounces_summary"@,
        tool_name(EmailTool::AttachmentGet) == "email_attachment_get"@,
        tool_name(EmailTool::Health) == "email_health"@,
        tool_name(EmailTool::InstancesList) == "email_instances_list"@,
        tools_in_order().map_values(|t: EmailTool| tool_name(t)) == seq![
            "email_send"@,
            "email_reply"@,
            "email_archive"@,
            "email_move_to"@,
            "email_label"@,
            "email_search"@,
            "email_get"@,
            "email_thread"@,
            "email_bounces_summary"@,
            "email_attachment_get"@,
            "email_health"@,
            "email_instances_list"@,
        ],
{
    assert(tools_in_order().map_values(|t: EmailTool| tool_name(t)) =~= seq![
        "email_send"@,
        "email_reply"@,
        "email_archive"@,
        "email_move_to"@,
        "email_label"@,
        "email_search"@,
        "email_get"@,
        "email_thread"@,
        "email_bounces_summary"@,
        "email_attachment_get"@,
        "email_health"@,
        "email_instances_list"@,
    ]);
}

/// A tool name outside the table is refused with
/// ``unknown email tool: `<name>` ``.
pub proof fn lemma_unknown_tool_text(name: Seq<char>)
    ensures
        unknown_tool_message(name) == "unknown email tool: `"@ + name + "`"@,
{
}

} // verus!
