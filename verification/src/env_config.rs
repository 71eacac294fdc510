//! Decisions of the environment-driven subprocess boot: which tenant the
//! env-var path boots, which accounts it asks secrets for, and which broker
//! kind a URL names.

use vstd::prelude::*;
use crate::config::{EmailAccountConfig, EmailPluginConfig, EmailPluginShape};
use crate::text::str_starts_with;

verus! {

/// The tenant the env-var bootstrap runs: the first one declared. The
/// env-var path is single-instance; `None` when the file declares no tenant.
pub fn bootstrap_config(shape: EmailPluginShape) -> (r: Option<EmailPluginConfig>)
    ensures
        shape.tenants().len() == 0 ==> r is None,
        shape.tenants().len() > 0 ==> r == Some(shape.tenants()[0]),
{
    let mut v = shape.into_vec();
    if v.len() == 0 {
        None
    } else {
        Some(v.remove(0))
    }
}

/// The `(account label, address)` pairs a tenant declares, in order; these
/// are what the secrets loader is asked for.
pub fn declared_account_pairs(cfg: &EmailPluginConfig) -> (r: Vec<(String, String)>)
    ensures
        r@.len() == cfg.accounts@.len(),
        forall|i: int|
            0 <= i < r@.len() ==> (#[trigger] r@[i]).0@ == cfg.accounts@[i].instance@ && r@[i].1@
                == cfg.accounts@[i].address@,
{
    let mut r: Vec<(String, String)> = Vec::new();
    let mut i: usize = 0;
    while i < cfg.accounts.len()
        invariant
            i <= cfg.accounts@.len(),
            r@.len() == i,
            forall|k: int|
                0 <= k < i ==> (#[trigger] r@[k]).0@ == cfg.accounts@[k].instance@ && r@[k].1@
                    == cfg.accounts@[k].address@,
        decreases cfg.accounts@.len() - i,
    {
        let a: &EmailAccountConfig = &cfg.accounts[i];
        r.push((a.instance.clone(), a.address.clone()));
        i = i + 1;
    }
    r
}

/// The broker transports the subprocess can reach.
#[derive(Debug, Clone, Copy, PartialEq, Eq, Structural)]
pub enum BrokerKind {
    Nats,
    Local,
}

/// A `nats://` URL names a NATS broker; any other URL the in-process one.
pub fn broker_kind_for_url(url: &str) -> (k: BrokerKind)
    ensures
        k == (if "nats://"@.is_prefix_of(url@) {
            BrokerKind::Nats
        } else {
            BrokerKind::Local
        }),
{
    if str_starts_with(url, "nats://") {
        BrokerKind::Nats
    } else {
        BrokerKind::Local
    }
}

} // verus!
