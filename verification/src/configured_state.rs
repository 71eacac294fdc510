//! Queries over the operator configuration that `plugin.configure`
//! delivered: the account labels the credential store serves and the
//! per-tenant rows the admin surface lists.

use vstd::prelude::*;
use crate::boot::requested_label;
use crate::config::{EmailAccountConfig, EmailPluginConfig};
use crate::instance_registry::InstanceRegistry;
use crate::text::str_equal;

verus! {

/// The tenants of a configured state; none before the first configure.
pub open spec fn state_tenants(state: Option<Vec<EmailPluginConfig>>) -> Seq<EmailPluginConfig> {
    match state {
        Some(v) => v@,
        None => seq![],
    }
}

/// Every account of every tenant, tenant by tenant, in declaration order.
pub open spec fn all_accounts(tenants: Seq<EmailPluginConfig>) -> Seq<EmailAccountConfig>
    decreases tenants.len(),
{
    if tenants.len() == 0 {
        seq![]
    } else {
        all_accounts(tenants.drop_last()) + tenants.last().accounts@
    }
}

/// The account labels of `all_accounts`.
pub open spec fn account_labels(tenants: Seq<EmailPluginConfig>) -> Seq<Seq<char>> {
    all_accounts(tenants).map_values(|a: EmailAccountConfig| a.instance@)
}

pub open spec fn not_found_message() -> Seq<char> {
    "not_found"@
}

/// The account labels of every configured tenant, flattened in order.
pub fn configured_account_instances(state: &Option<Vec<EmailPluginConfig>>) -> (r: Vec<String>)
    ensures
        r@.map_values(|s: String| s@) == account_labels(state_tenants(*state)),
{
    let mut r: Vec<String> = Vec::new();
    match state {
        None => {
            assert(r@.map_values(|s: String| s@) =~= Seq::<Seq<char>>::empty());
        },
        Some(tenants) => {
            let mut i: usize = 0;
            assert(tenants@.take(0) =~= Seq::<EmailPluginConfig>::empty());
            assert(r@.map_values(|s: String| s@) =~= Seq::<Seq<char>>::empty());
            while i < tenants.len()
                invariant
                    i <= tenants@.len(),
                    r@.map_values(|s: String| s@) == account_labels(tenants@.take(i as int)),
                decreases tenants@.len() - i,
            {
                let accounts = &tenants[i].accounts;
                let ghost base = r@.map_values(|s: String| s@);
                let mut j: usize = 0;
                while j < accounts.len()
                    invariant
                        j <= accounts@.len(),
                        r@.map_values(|s: String| s@) == base + accounts@.take(j as int).map_values(
                            |a: EmailAccountConfig| a.instance@,
                        ),
                    decreases accounts@.len() - j,
                {
                    let ghost before = r@.map_values(|s: String| s@);
                    r.push(accounts[j].instance.clone());
                    assert(r@.map_values(|s: String| s@) =~= before.push(accounts@[j as int].instance@));
                    assert(accounts@.take(j + 1).map_values(|a: EmailAccountConfig| a.instance@)
                        =~= accounts@.take(j as int).map_values(|a: EmailAccountConfig| a.instance@).push(
                        accounts@[j as int].instance@,
                    ));
                    j = j + 1;
                }
                proof {
                    let t = tenants@.take(i + 1);
                    assert(t.drop_last() =~= tenants@.take(i as int));
                    assert(t.last() == tenants@[i as int]);
                    assert(accounts@.take(j as int) =~= accounts@);
                    assert(all_accounts(t) == all_accounts(tenants@.take(i as int)) + accounts@);
                    assert(account_labels(t) =~= account_labels(tenants@.take(i as int))
                        + accounts@.map_values(|a: EmailAccountConfig| a.instance@));
                }
                i = i + 1;
            }
            assert(tenants@.take(i as int) =~= tenants@);
        },
    }
    r
}

} // verus!

verus! {

/// Flattening distributes over concatenation of tenant lists.
pub proof fn lemma_all_accounts_append(a: Seq<EmailPluginConfig>, b: Seq<EmailPluginConfig>)
    ensures
        all_accounts(a + b) == all_accounts(a) + all_accounts(b),
    decreases b.len(),
{
    if b.len() == 0 {
        assert(a + b =~= a);
        assert(all_accounts(a) + all_accounts(b) =~= all_accounts(a));
    } else {
        lemma_all_accounts_append(a, b.drop_last());
        assert((a + b).drop_last() =~= a + b.drop_last());
        assert((a + b).last() == b.last());
        assert(all_accounts(a) + all_accounts(b) =~= all_accounts(a) + all_accounts(b.drop_last())
            + b.last().accounts@);
    }
}

/// The account that `account_id` names: the first one, over all tenants in
/// order, whose label is `account_id`. `not_found` when there is none.
pub fn find_account<'a>(state: &'a Option<Vec<EmailPluginConfig>>, account_id: &str) -> (r: Result<
    &'a EmailAccountConfig,
    String,
>)
    ensures
        match r {
            Ok(a) => exists|k: int|
                0 <= k < all_accounts(state_tenants(*state)).len() && all_accounts(
                    state_tenants(*state),
                )[k] == *a && (#[trigger] account_labels(state_tenants(*state))[k]) == account_id@
                    && forall|j: int|
                    0 <= j < k ==> account_labels(state_tenants(*state))[j] != account_id@,
            Err(e) => {
                &&& e@ == not_found_message()
                &&& !account_labels(state_tenants(*state)).contains(account_id@)
            },
        },
{
    match state {
        None => Err(String::from_str("not_found")),
        Some(tenants) => {
            let ghost all = all_accounts(tenants@);
            let ghost labels = account_labels(tenants@);
            let mut i: usize = 0;
            while i < tenants.len()
                invariant
                    i <= tenants@.len(),
                    state_tenants(*state) == tenants@,
                    all == all_accounts(tenants@),
                    labels == account_labels(tenants@),
                    all_accounts(tenants@.take(i as int)).len() <= all.len(),
                    forall|j: int|
                        0 <= j < all_accounts(tenants@.take(i as int)).len() ==> labels[j]
                            != account_id@,
                decreases tenants@.len() - i,
            {
                let accounts = &tenants[i].accounts;
                let ghost offset = all_accounts(tenants@.take(i as int)).len();
                proof {
                    let t = tenants@.take(i + 1);
                    assert(t.drop_last() =~= tenants@.take(i as int));
                    assert(all_accounts(t) == all_accounts(tenants@.take(i as int)) + accounts@);
                    assert(tenants@ =~= t + tenants@.skip(i + 1));
                    lemma_all_accounts_append(t, tenants@.skip(i + 1));
                    assert forall|j: int| 0 <= j < accounts@.len() implies all[offset + j]
                        == accounts@[j] by {
                        assert(all_accounts(t)[offset + j] == accounts@[j]);
                    }
                }
                let mut j: usize = 0;
                while j < accounts.len()
                    invariant
                        j <= accounts@.len(),
                        state_tenants(*state) == tenants@,
                        all == all_accounts(tenants@),
                        labels == account_labels(tenants@),
                        offset + accounts@.len() <= all.len(),
                        forall|m: int| 0 <= m < accounts@.len() ==> all[offset + m] == accounts@[m],
                        forall|m: int| 0 <= m < offset + j ==> labels[m] != account_id@,
                    decreases accounts@.len() - j,
                {
                    if str_equal(accounts[j].instance.as_str(), account_id) {
                        assert(all[offset + j] == accounts@[j as int]);
                        assert(labels[offset + j] == account_id@);
                        assert(account_labels(state_tenants(*state))[offset + j] == account_id@);
                        return Ok(&accounts[j]);
                    }
                    assert(labels[offset + j] == all[offset + j].instance@);
                    j = j + 1;
                }
                proof {
                    let t = tenants@.take(i + 1);
                    assert(t.drop_last() =~= tenants@.take(i as int));
                    assert(all_accounts(t) == all_accounts(tenants@.take(i as int)) + accounts@);
                }
                i = i + 1;
            }
            proof {
                assert(tenants@.take(i as int) =~= tenants@);
                if labels.contains(account_id@) {
                    let k = choose|k: int| 0 <= k < labels.len() && labels[k] == account_id@;
                    assert(labels[k] != account_id@);
                }
            }
            Err(String::from_str("not_found"))
        },
    }
}

/// Accept a credential request for `account_id` when some configured
/// tenant declares that account; `not_found` otherwise.
pub fn issue_credentials(state: &Option<Vec<EmailPluginConfig>>, account_id: &str) -> (r: Result<
    (),
    String,
>)
    ensures
        r is Ok <==> account_labels(state_tenants(*state)).contains(account_id@),
        r matches Err(e) ==> e@ == not_found_message(),
{
    match find_account(state, account_id) {
        Ok(_) => Ok(()),
        Err(e) => Err(e),
    }
}

} // verus!

verus! {

/// One row of the admin tenant listing.
#[derive(Debug)]
pub struct TenantRow {
    /// The tenant's label as configured, `"default"` when it has none.
    pub tenant: String,
    pub accounts_count: usize,
    /// Whether a plugin is registered under that label.
    pub registered: bool,
    pub allow_agents: Vec<String>,
}

/// `row` describes `cfg` against the registry contents `registered`.
pub open spec fn describes<P>(row: TenantRow, cfg: EmailPluginConfig, registered: Map<Seq<char>, P>) -> bool {
    &&& row.tenant@ == requested_label(cfg)
    &&& row.accounts_count == cfg.accounts@.len()
    &&& row.registered == registered.contains_key(requested_label(cfg))
    &&& row.allow_agents@ == cfg.allow_agents@
}

/// A copy of a list of strings.
fn copy_strings(v: &Vec<String>) -> (r: Vec<String>)
    ensures
        r@ == v@,
{
    let mut r: Vec<String> = Vec::new();
    let mut i: usize = 0;
    while i < v.len()
        invariant
            i <= v@.len(),
            r@ == v@.take(i as int),
        decreases v@.len() - i,
    {
        r.push(v[i].clone());
        assert(v@.take(i + 1) =~= v@.take(i as int).push(v@[i as int]));
        i = i + 1;
    }
    assert(v@.take(i as int) =~= v@);
    r
}

/// One row per configured tenant, in order: its label (`"default"` when it
/// has none), how many accounts it declares, whether a plugin is
/// registered under that label, and the agents allowed to use it.
pub fn list_tenant_rows<P>(state: &Option<Vec<EmailPluginConfig>>, registry: &InstanceRegistry<P>) -> (r: Vec<TenantRow>)
    ensures
        r@.len() == state_tenants(*state).len(),
        forall|i: int|
            0 <= i < r@.len() ==> describes(#[trigger] r@[i], state_tenants(*state)[i], registry@),
{
    let mut r: Vec<TenantRow> = Vec::new();
    match state {
        None => {},
        Some(tenants) => {
            let mut i: usize = 0;
            while i < tenants.len()
                invariant
                    i <= tenants@.len(),
                    state_tenants(*state) == tenants@,
                    r@.len() == i,
                    forall|k: int| 0 <= k < i ==> describes(#[trigger] r@[k], tenants@[k], registry@),
                decreases tenants@.len() - i,
            {
                let cfg = &tenants[i];
                let tenant = match &cfg.instance {
                    Some(s) => s.clone(),
                    None => String::from_str("default"),
                };
                let registered = registry.lookup(tenant.as_str()).is_some();
                r.push(
                    TenantRow {
                        tenant,
                        accounts_count: cfg.accounts.len(),
                        registered,
                        allow_agents: copy_strings(&cfg.allow_agents),
                    },
                );
                i = i + 1;
            }
        },
    }
    r
}

} // verus!

verus! {

/// The credential handlers agree: an account label is listed exactly when
/// some configured account carries it, which is when issuing and resolving
/// succeed for it.
pub proof fn lemma_credentials_agree(tenants: Seq<EmailPluginConfig>, account_id: Seq<char>)
    ensures
        account_labels(tenants).contains(account_id) <==> exists|k: int|
            0 <= k < all_accounts(tenants).len() && (#[trigger] all_accounts(tenants)[k]).instance@
                == account_id,
{
    let labels = account_labels(tenants);
    let all = all_accounts(tenants);
    if labels.contains(account_id) {
        let k = choose|k: int| 0 <= k < labels.len() && labels[k] == account_id;
        assert(all[k].instance@ == account_id);
    }
    if exists|k: int| 0 <= k < all.len() && (#[trigger] all[k]).instance@ == account_id {
        let k = choose|k: int| 0 <= k < all.len() && (#[trigger] all[k]).instance@ == account_id;
        assert(labels[k] == account_id);
    }
}

/// No tenants have no accounts, and one tenant's accounts are its own, in
/// its order; with `lemma_all_accounts_append` this fixes the flattening.
pub proof fn lemma_all_accounts_base(t: EmailPluginConfig)
    ensures
        all_accounts(Seq::<EmailPluginConfig>::empty()) == Seq::<EmailAccountConfig>::empty(),
        all_accounts(seq![t]) == t.accounts@,
{
    assert(seq![t].drop_last() =~= Seq::<EmailPluginConfig>::empty());
    assert(all_accounts(seq![t].drop_last()) == Seq::<EmailAccountConfig>::empty());
    assert(seq![t].last() == t);
    assert(Seq::<EmailAccountConfig>::empty() + t.accounts@ =~= t.accounts@);
}

/// A credential request for an account nobody declares is answered
/// `not_found`.
pub proof fn lemma_not_found_text()
    ensures
        not_found_message() == "not_found"@,
{
}

} // verus!
