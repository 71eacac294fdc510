use nexo_plugin_email::subprocess_dispatch::{
    classify_tool_invocation, email_tool_from_name, email_tools, EmailTool,
};

#[test]
fn twelve_tools_in_advertising_order() {
    let names: Vec<&str> = email_tools().iter().map(|t| t.name()).collect();
    assert_eq!(
        names,
        vec![
            "email_send",
            "email_reply",
            "email_archive",
            "email_move_to",
            "email_label",
            "email_search",
            "email_get",
            "email_thread",
            "email_bounces_summary",
            "email_attachment_get",
            "email_health",
            "email_instances_list",
        ]
    );
}

#[test]
fn every_name_maps_back_to_its_tool() {
    for t in email_tools() {
        assert_eq!(email_tool_from_name(t.name()), Some(t));
    }
}

#[test]
fn tool_invoke_for_unknown_name_returns_not_found() {
    let err = classify_tool_invocation("email_does_not_exist_zzz").unwrap_err();
    assert_eq!(err, "unknown email tool: `email_does_not_exist_zzz`");
    assert_eq!(classify_tool_invocation("email_get"), Ok(EmailTool::Get));
}
