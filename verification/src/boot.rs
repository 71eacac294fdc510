//! Tenant labels, per-tenant data directories and the `plugin.configure`
//! boot loop.

use vstd::prelude::*;
use crate::config::{EmailPluginConfig, EmailPluginShape};
use crate::instance_registry::InstanceRegistry;
use crate::text::{
    ascii_lower, ascii_lowercase, chars_of, concat3, is_white_space, push_char, result_view,
    str_equal, string_from_chars, to_ascii_lower, trim_bounds, trim_end, trim_start, trimmed,
};

verus! {

/// Longest accepted tenant label, in characters.
pub const MAX_TENANT_LABEL_CHARS: usize = 64;

/// The characters a tenant label may hold: `[A-Za-z0-9_-]`.
pub open spec fn is_label_char(c: char) -> bool {
    ||| ('a' <= c && c <= 'z')
    ||| ('A' <= c && c <= 'Z')
    ||| ('0' <= c && c <= '9')
    ||| c == '_'
    ||| c == '-'
}

pub open spec fn empty_label_message() -> Seq<char> {
    "tenant label is empty"@
}

pub open spec fn too_long_label_message(t: Seq<char>) -> Seq<char> {
    "tenant label `"@ + t + "` exceeds 64 characters"@
}

pub open spec fn invalid_label_message(t: Seq<char>) -> Seq<char> {
    "tenant label `"@ + t + "` has invalid characters (allowed: [A-Za-z0-9_-])"@
}

/// What sanitising `raw` yields: the trimmed label in ASCII lowercase when
/// it is 1 to 64 characters of `[A-Za-z0-9_-]`, else the error message.
pub open spec fn sanitized_label(raw: Seq<char>) -> Result<Seq<char>, Seq<char>> {
    let t = trimmed(raw);
    if t.len() == 0 {
        Err(empty_label_message())
    } else if t.len() > MAX_TENANT_LABEL_CHARS {
        Err(too_long_label_message(t))
    } else if exists|i: int| 0 <= i < t.len() && !is_label_char(#[trigger] t[i]) {
        Err(invalid_label_message(t))
    } else {
        Ok(ascii_lowercase(t))
    }
}

/// A label as the sanitiser hands it out: 1 to 64 characters of
/// `[a-z0-9_-]`.
pub open spec fn is_canonical_label(l: Seq<char>) -> bool {
    &&& 0 < l.len() <= MAX_TENANT_LABEL_CHARS
    &&& forall|i: int|
        0 <= i < l.len() ==> {
            let c = #[trigger] l[i];
            ||| ('a' <= c && c <= 'z')
            ||| ('0' <= c && c <= '9')
            ||| c == '_'
            ||| c == '-'
        }
}

/// Sanitise a tenant label: white space around it is dropped, the rest must
/// be 1 to 64 characters of `[A-Za-z0-9_-]`, and it comes back in ASCII
/// lowercase. Empty labels, over-long labels and anything else (`..`, `/`,
/// non-ASCII) are refused with a message naming the reason.
pub fn sanitize_tenant_label(raw: &str) -> (r: Result<String, String>)
    ensures
        result_view(r) == sanitized_label(raw@),
{
    let chars = chars_of(raw);
    let (lo, hi) = trim_bounds(&chars);
    let ghost t = trimmed(raw@);
    if lo == hi {
        return Err(String::from_str("tenant label is empty"));
    }
    if hi - lo > MAX_TENANT_LABEL_CHARS {
        let trimmed_text = string_from_chars(&chars, lo, hi);
        return Err(
            concat3("tenant label `", trimmed_text.as_str(), "` exceeds 64 characters"),
        );
    }
    let mut i = lo;
    while i < hi
        invariant
            lo <= i <= hi <= chars@.len(),
            lo < hi,
            hi - lo <= MAX_TENANT_LABEL_CHARS,
            t == trimmed(raw@),
            chars@.subrange(lo as int, hi as int) == t,
            forall|k: int| 0 <= k < i - lo ==> is_label_char(#[trigger] t[k]),
        decreases hi - i,
    {
        let c = chars[i];
        if !(('a' <= c && c <= 'z') || ('A' <= c && c <= 'Z') || ('0' <= c && c <= '9') || c
            == '_' || c == '-') {
            assert(t[i - lo] == c);
            assert(0 <= i - lo < t.len() && !is_label_char(t[i - lo]));
            let trimmed_text = string_from_chars(&chars, lo, hi);
            return Err(
                concat3(
                    "tenant label `",
                    trimmed_text.as_str(),
                    "` has invalid characters (allowed: [A-Za-z0-9_-])",
                ),
            );
        }
        i = i + 1;
    }
    let mut out = String::new();
    let mut j = lo;
    while j < hi
        invariant
            lo <= j <= hi <= chars@.len(),
            chars@.subrange(lo as int, hi as int) == t,
            out@ == ascii_lowercase(t.subrange(0, j - lo)),
            t == trimmed(raw@),
            lo < hi,
            hi - lo <= MAX_TENANT_LABEL_CHARS,
            forall|k: int| 0 <= k < t.len() ==> is_label_char(#[trigger] t[k]),
        decreases hi - j,
    {
        let c = to_ascii_lower(chars[j]);
        push_char(&mut out, c);
        assert(ascii_lowercase(t.subrange(0, j + 1 - lo)) == ascii_lowercase(
            t.subrange(0, j - lo),
        ).push(ascii_lower(t[j - lo])));
        j = j + 1;
    }
    assert(t.subrange(0, hi - lo) == t);
    Ok(out)
}

} // verus!

verus! {

/// The label that sanitising `raw` yields, when it yields one, is canonical.
pub proof fn lemma_sanitized_label_is_canonical(raw: Seq<char>)
    ensures
        sanitized_label(raw) matches Ok(l) ==> is_canonical_label(l),
{
    let t = trimmed(raw);
    if sanitized_label(raw) is Ok {
        let l = ascii_lowercase(t);
        assert forall|i: int| 0 <= i < l.len() implies {
            let c = #[trigger] l[i];
            ||| ('a' <= c && c <= 'z')
            ||| ('0' <= c && c <= '9')
            ||| c == '_'
            ||| c == '-'
        } by {
            assert(is_label_char(t[i]));
        }
    }
}

/// Sanitising is idempotent: a sanitised label sanitises to itself.
pub proof fn lemma_sanitize_idempotent(raw: Seq<char>)
    ensures
        sanitized_label(raw) matches Ok(l) ==> sanitized_label(l) == Ok::<Seq<char>, Seq<char>>(l),
{
    lemma_sanitized_label_is_canonical(raw);
    if let Ok(l) = sanitized_label(raw) {
        assert(!is_white_space(l[0]));
        assert(trim_start(l) == l);
        assert(!is_white_space(l.last()));
        assert(trim_end(l) == l);
        assert(trimmed(l) == l);
        assert(forall|i: int| 0 <= i < l.len() ==> is_label_char(#[trigger] l[i]));
        assert(ascii_lowercase(l) =~= l);
    }
}

} // verus!

verus! {

/// POSIX path joining: an absolute `segment` replaces `base`; otherwise it
/// is appended, with one `/` between the two unless `base` is empty or
/// already ends in `/`.
pub open spec fn path_join(base: Seq<char>, segment: Seq<char>) -> Seq<char> {
    if segment.len() > 0 && segment[0] == '/' {
        segment
    } else if base.len() == 0 || base.last() == '/' {
        base + segment
    } else {
        base + seq!['/'] + segment
    }
}

/// Where a tenant keeps its state: `<base>/email/<tenant>`.
pub open spec fn tenant_data_dir(base: Seq<char>, tenant: Seq<char>) -> Seq<char> {
    path_join(path_join(base, "email"@), tenant)
}

/// Joins `segment` onto `base` as a POSIX path.
pub fn join_path(base: &str, segment: &str) -> (joined: String)
    ensures
        joined@ == path_join(base@, segment@),
{
    let b = chars_of(base);
    let s = chars_of(segment);
    if s.len() > 0 && s[0] == '/' {
        return String::from_str(segment);
    }
    let mut joined = String::from_str(base);
    if b.len() > 0 && b[b.len() - 1] != '/' {
        push_char(&mut joined, '/');
    }
    joined.append(segment);
    joined
}

/// Resolve the per-tenant `data_dir` rooted at `base`: tenants get
/// `<base>/email/<tenant>`.
pub fn resolve_tenant_data_dir(base: &str, tenant: &str) -> (dir: String)
    ensures
        dir@ == tenant_data_dir(base@, tenant@),
{
    let email_root = join_path(base, "email");
    join_path(email_root.as_str(), tenant)
}

} // verus!

verus! {

/// The label a tenant entry asks for: its `instance`, or `"default"` when
/// it has none.
pub open spec fn requested_label(c: EmailPluginConfig) -> Seq<char> {
    match c.instance {
        Some(s) => s@,
        None => "default"@,
    }
}

pub open spec fn duplicate_label_message(label: Seq<char>) -> Seq<char> {
    "duplicate email tenant label: `"@ + label + "`"@
}

/// The labels the tenants of `cfgs` get, in order, or the error of the
/// first entry whose label does not sanitise or repeats an earlier one.
pub open spec fn planned_labels(cfgs: Seq<EmailPluginConfig>) -> Result<Seq<Seq<char>>, Seq<char>>
    decreases cfgs.len(),
{
    if cfgs.len() == 0 {
        Ok(seq![])
    } else {
        match planned_labels(cfgs.drop_last()) {
            Err(e) => Err(e),
            Ok(prev) => match sanitized_label(requested_label(cfgs.last())) {
                Err(e) => Err(e),
                Ok(l) => if prev.contains(l) {
                    Err(duplicate_label_message(l))
                } else {
                    Ok(prev.push(l))
                },
            },
        }
    }
}

/// A declared tenant after label resolution: its canonical label, its
/// configuration with that label written back into `instance`, and its
/// data directory.
#[derive(Debug)]
pub struct ResolvedTenant {
    pub label: String,
    pub config: EmailPluginConfig,
    pub data_dir: String,
}

/// `t` is what resolving the entry `cfg` under `label` within `root` gives.
pub open spec fn resolves_to(
    t: ResolvedTenant,
    cfg: EmailPluginConfig,
    label: Seq<char>,
    root: Seq<char>,
) -> bool {
    &&& t.label@ == label
    &&& t.data_dir@ == tenant_data_dir(root, label)
    &&& t.config.instance matches Some(s) && s@ == label
    &&& t.config == EmailPluginConfig { instance: t.config.instance, ..cfg }
}

/// An error found in a prefix of the entries is the error of the whole.
proof fn lemma_plan_error_persists(cfgs: Seq<EmailPluginConfig>, k: int, n: int)
    requires
        0 <= k <= n <= cfgs.len(),
        planned_labels(cfgs.take(k)) is Err,
    ensures
        planned_labels(cfgs.take(n)) == planned_labels(cfgs.take(k)),
    decreases n - k,
{
    if n > k {
        lemma_plan_error_persists(cfgs, k, n - 1);
        assert(cfgs.take(n).drop_last() =~= cfgs.take(n - 1));
    }
}

/// The labels of a planned list have the length of the list.
proof fn lemma_plan_len(cfgs: Seq<EmailPluginConfig>)
    ensures
        planned_labels(cfgs) matches Ok(labels) ==> labels.len() == cfgs.len(),
    decreases cfgs.len(),
{
    if cfgs.len() > 0 {
        lemma_plan_len(cfgs.drop_last());
    }
}

/// `labels` holds `label`.
fn holds_label(labels: &Vec<String>, label: &str) -> (r: bool)
    ensures
        r == labels@.map_values(|s: String| s@).contains(label@),
{
    let ghost views = labels@.map_values(|s: String| s@);
    let mut i: usize = 0;
    while i < labels.len()
        invariant
            i <= labels@.len(),
            views == labels@.map_values(|s: String| s@),
            forall|k: int| 0 <= k < i ==> views[k] != label@,
        decreases labels@.len() - i,
    {
        if str_equal(labels[i].as_str(), label) {
            assert(views[i as int] == label@);
            return true;
        }
        i = i + 1;
    }
    false
}

/// Resolve every declared tenant: sanitise its label (absent labels become
/// `"default"`), refuse a label that repeats, write the label back into the
/// entry and give it the data directory `<data_root>/email/<label>`.
/// Nothing is resolved when one entry fails.
pub fn resolve_tenants(configs: Vec<EmailPluginConfig>, data_root: &str) -> (r: Result<
    Vec<ResolvedTenant>,
    String,
>)
    ensures
        match planned_labels(configs@) {
            Err(e) => r matches Err(m) && m@ == e,
            Ok(labels) => r matches Ok(ts) && ts@.len() == configs@.len() && forall|i: int|
                0 <= i < ts@.len() ==> resolves_to(
                    #[trigger] ts@[i],
                    configs@[i],
                    labels[i],
                    data_root@,
                ),
        },
{
    let ghost orig = configs@;
    let mut rest = configs;
    let total = rest.len();
    let mut seen: Vec<String> = Vec::new();
    let mut out: Vec<ResolvedTenant> = Vec::new();
    let mut i: usize = 0;
    assert(orig.skip(0) =~= orig);
    assert(orig.take(0) =~= Seq::<EmailPluginConfig>::empty());
    assert(seen@.map_values(|s: String| s@) =~= Seq::<Seq<char>>::empty());
    while rest.len() > 0
        invariant
            orig == configs@,
            orig.len() == total,
            i <= orig.len(),
            rest@ == orig.skip(i as int),
            planned_labels(orig.take(i as int)) == Ok::<Seq<Seq<char>>, Seq<char>>(
                seen@.map_values(|s: String| s@),
            ),
            seen@.len() == i,
            out@.len() == i,
            forall|k: int|
                0 <= k < i ==> resolves_to(
                    #[trigger] out@[k],
                    orig[k],
                    seen@.map_values(|s: String| s@)[k],
                    data_root@,
                ),
        decreases rest@.len(),
    {
        let ghost seen_before = seen@.map_values(|s: String| s@);
        assert(i < orig.len());
        let mut cfg = rest.remove(0);
        assert(cfg == orig[i as int]);
        assert(orig.take(i + 1).drop_last() =~= orig.take(i as int));
        assert(orig.take(i + 1).last() == cfg);
        let raw = match &cfg.instance {
            Some(s) => s.clone(),
            None => String::from_str("default"),
        };
        assert(raw@ == requested_label(cfg));
        let label = match sanitize_tenant_label(raw.as_str()) {
            Ok(l) => l,
            Err(e) => {
                proof {
                    assert(sanitized_label(requested_label(cfg)) == Err::<Seq<char>, Seq<char>>(e@));
                    assert(planned_labels(orig.take(i + 1)) == Err::<Seq<Seq<char>>, Seq<char>>(e@));
                    lemma_plan_error_persists(orig, i + 1, orig.len() as int);
                    assert(orig.take(orig.len() as int) =~= orig);
                    assert(orig == configs@);
                    assert(planned_labels(orig) == Err::<Seq<Seq<char>>, Seq<char>>(e@));
                }
                return Err(e);
            },
        };
        assert(sanitized_label(requested_label(cfg)) == Ok::<Seq<char>, Seq<char>>(label@));
        if holds_label(&seen, label.as_str()) {
            proof {
                assert(planned_labels(orig.take(i + 1)) == Err::<Seq<Seq<char>>, Seq<char>>(
                    duplicate_label_message(label@),
                ));
                lemma_plan_error_persists(orig, i + 1, orig.len() as int);
                assert(orig.take(orig.len() as int) =~= orig);
            }
            return Err(concat3("duplicate email tenant label: `", label.as_str(), "`"));
        }
        cfg.instance = Some(label.clone());
        let data_dir = resolve_tenant_data_dir(data_root, label.as_str());
        seen.push(label.clone());
        out.push(ResolvedTenant { label, config: cfg, data_dir });
        proof {
            assert(seen@.map_values(|s: String| s@) =~= seen_before.push(
                seen@[i as int]@,
            ));
            assert(rest@ =~= orig.skip(i + 1));
        }
        i = i + 1;
    }
    proof {
        assert(orig.take(i as int) =~= orig);
    }
    Ok(out)
}

} // verus!

verus! {

/// Every planned label is canonical, and no label is planned twice.
pub proof fn lemma_planned_labels_distinct(cfgs: Seq<EmailPluginConfig>)
    ensures
        planned_labels(cfgs) matches Ok(labels) ==> {
            &&& labels.no_duplicates()
            &&& forall|i: int| 0 <= i < labels.len() ==> is_canonical_label(#[trigger] labels[i])
        },
    decreases cfgs.len(),
{
    if cfgs.len() > 0 {
        lemma_planned_labels_distinct(cfgs.drop_last());
        lemma_sanitized_label_is_canonical(requested_label(cfgs.last()));
        if let (Ok(labels), Ok(prev), Ok(l)) = (
            planned_labels(cfgs),
            planned_labels(cfgs.drop_last()),
            sanitized_label(requested_label(cfgs.last())),
        ) {
            assert(labels == prev.push(l));
            assert forall|i: int, j: int| 0 <= i < labels.len() && 0 <= j < labels.len() && i != j
                implies labels[i] != labels[j] by {
                if i < prev.len() && j < prev.len() {
                    assert(labels[i] == prev[i]);
                    assert(labels[j] == prev[j]);
                } else if i < prev.len() {
                    assert(prev.contains(labels[i]));
                } else {
                    assert(prev.contains(labels[j]));
                }
            }
            assert forall|i: int| 0 <= i < labels.len() implies is_canonical_label(#[trigger] labels[i]) by {
                if i < prev.len() {
                    assert(labels[i] == prev[i]);
                }
            }
        }
    }
}

pub open spec fn factory_failed_message(label: Seq<char>, err: Seq<char>) -> Seq<char> {
    "factory failed for tenant `"@ + label + "`: "@ + err
}

/// What a `plugin.configure` call settled on: the legacy single-tenant
/// configuration, or the resolved tenants that are now registered.
#[derive(Debug)]
pub enum ConfigureOutcome {
    Legacy(EmailPluginConfig),
    Tenants(Vec<ResolvedTenant>),
}

/// The labels currently registered, each once.
fn registered_labels<P>(registry: &InstanceRegistry<P>) -> (r: Vec<String>)
    ensures
        r@.map_values(|s: String| s@).to_set() == registry@.dom(),
        r@.map_values(|s: String| s@).no_duplicates(),
{
    let entries = registry.entries();
    let ghost entry_views = entries@.map_values(|e: (String, &P)| e.0@);
    let mut r: Vec<String> = Vec::new();
    let mut i: usize = 0;
    while i < entries.len()
        invariant
            i <= entries@.len(),
            entry_views == entries@.map_values(|e: (String, &P)| e.0@),
            r@.map_values(|s: String| s@) == entry_views.take(i as int),
        decreases entries@.len() - i,
    {
        let label = entries[i].0.clone();
        assert(entry_views[i as int] == entries@[i as int].0@);
        let ghost old_r = r@.map_values(|s: String| s@);
        r.push(label);
        assert(r@.map_values(|s: String| s@) =~= old_r.push(entry_views[i as int]));
        assert(entry_views.take(i + 1) =~= entry_views.take(i as int).push(entry_views[i as int]));
        i = i + 1;
    }
    assert(entry_views.take(i as int) =~= entry_views);
    r
}

/// `s.take(j + 1)` holds what `s.take(j)` holds, and `s[j]`.
proof fn lemma_take_push_contains<A>(s: Seq<A>, j: int, x: A)
    requires
        0 <= j < s.len(),
    ensures
        s.take(j + 1).contains(x) <==> (s.take(j).contains(x) || x == s[j]),
{
    let t = s.take(j + 1);
    if t.contains(x) {
        let k = choose|k: int| 0 <= k < t.len() && t[k] == x;
        if k < j {
            assert(s.take(j)[k] == x);
        }
    }
    let u = s.take(j);
    if u.contains(x) {
        let k = choose|k: int| 0 <= k < u.len() && u[k] == x;
        assert(s.take(j + 1)[k] == x);
    }
    if x == s[j] {
        assert(s.take(j + 1)[j] == x);
    }
}

/// In a list without repeats, what lies at or after `k` does not lie
/// before it.
proof fn lemma_skip_take_disjoint<A>(s: Seq<A>, k: int, x: A)
    requires
        s.no_duplicates(),
        0 <= k <= s.len(),
        s.skip(k).contains(x),
    ensures
        !s.take(k).contains(x),
{
    let a = choose|a: int| 0 <= a < s.skip(k).len() && s.skip(k)[a] == x;
    assert(s[k + a] == x);
    if s.take(k).contains(x) {
        let b = choose|b: int| 0 <= b < s.take(k).len() && s.take(k)[b] == x;
        assert(s[b] == x);
    }
}

/// What lies at or after `k` lies in the list.
proof fn lemma_skip_in_seq<A>(s: Seq<A>, k: int, x: A)
    requires
        0 <= k <= s.len(),
        s.skip(k).contains(x),
    ensures
        s.contains(x),
{
    let a = choose|a: int| 0 <= a < s.skip(k).len() && s.skip(k)[a] == x;
    assert(s[k + a] == x);
}

/// Unregister every tenant.
fn shutdown_all_registered<P>(registry: &mut InstanceRegistry<P>)
    ensures
        final(registry)@ == Map::<Seq<char>, P>::empty(),
{
    let labels = registered_labels(registry);
    let ghost views = labels@.map_values(|s: String| s@);
    let ghost start = registry@;
    let mut j: usize = 0;
    while j < labels.len()
        invariant
            j <= labels@.len(),
            views == labels@.map_values(|s: String| s@),
            views.to_set() == start.dom(),
            forall|x: Seq<char>|
                #[trigger] registry@.contains_key(x) <==> start.contains_key(x) && !views.take(
                    j as int,
                ).contains(x),
        decreases labels@.len() - j,
    {
        let ghost before = registry@;
        let _gone = registry.unregister(labels[j].as_str());
        proof {
            assert(views[j as int] == labels@[j as int]@);
            assert forall|x: Seq<char>| #[trigger] registry@.contains_key(x) <==> start.contains_key(x)
                && !views.take(j + 1).contains(x) by {
                lemma_take_push_contains(views, j as int, x);
            }
        }
        j = j + 1;
    }
    proof {
        assert(views.take(j as int) =~= views);
        assert(registry@.dom() =~= Set::empty());
        assert(registry@ =~= Map::empty());
    }
}

/// Some resolved tenant has the label `label`.
fn tenants_hold_label(tenants: &Vec<ResolvedTenant>, label: &str) -> (r: bool)
    ensures
        r == tenants@.map_values(|t: ResolvedTenant| t.label@).contains(label@),
{
    let ghost views = tenants@.map_values(|t: ResolvedTenant| t.label@);
    let mut i: usize = 0;
    while i < tenants.len()
        invariant
            i <= tenants@.len(),
            views == tenants@.map_values(|t: ResolvedTenant| t.label@),
            forall|k: int| 0 <= k < i ==> views[k] != label@,
        decreases tenants@.len() - i,
    {
        if str_equal(tenants[i].label.as_str(), label) {
            assert(views[i as int] == label@);
            return true;
        }
        i = i + 1;
    }
    false
}

} // verus!

verus! {

/// The factory failed on the `k`-th declared tenant: the error names that
/// tenant and carries the factory's message, stale tenants are gone and the
/// tenants before the `k`-th are registered with what the factory built for
/// them, and a tenant registered before the call that is declared at the
/// `k`-th place or later keeps its previous handle.
pub open spec fn factory_failure<P, F: Fn(&ResolvedTenant) -> Result<P, String>>(
    factory: F,
    cfgs: Seq<EmailPluginConfig>,
    labels: Seq<Seq<char>>,
    root: Seq<char>,
    message: Seq<char>,
    before: Map<Seq<char>, P>,
    after: Map<Seq<char>, P>,
) -> bool {
    exists|k: int, t: ResolvedTenant, e: String|
        #![trigger factory.ensures((&t,), Err::<P, String>(e)), labels[k]]
        {
            &&& 0 <= k < labels.len()
            &&& resolves_to(t, cfgs[k], labels[k], root)
            &&& factory.ensures((&t,), Err::<P, String>(e))
            &&& message == factory_failed_message(labels[k], e@)
            &&& after.dom() == before.dom().intersect(labels.to_set()).union(
                labels.take(k).to_set(),
            )
            &&& forall|i: int|
                0 <= i < k ==> #[trigger] built_by(factory, cfgs[i], labels[i], root, after[labels[i]])
            &&& forall|x: Seq<char>|
                before.contains_key(x) && #[trigger] labels.skip(k).contains(x) ==> after[x]
                    == before[x]
        }
}

/// `plugin` is a handle `factory` returned for the entry `cfg` resolved
/// under `label` within `root`.
pub open spec fn built_by<P, F: Fn(&ResolvedTenant) -> Result<P, String>>(
    factory: F,
    cfg: EmailPluginConfig,
    label: Seq<char>,
    root: Seq<char>,
    plugin: P,
) -> bool {
    exists|t: ResolvedTenant|
        #![trigger factory.ensures((&t,), Ok::<P, String>(plugin))]
        {
            &&& resolves_to(t, cfg, label, root)
            &&& factory.ensures((&t,), Ok::<P, String>(plugin))
        }
}

/// Apply a `plugin.configure` payload to the tenant registry.
///
/// A single map is the legacy single-tenant path: every registered tenant
/// is dropped and the map is kept as it is. A sequence declares tenants:
/// their labels are resolved first (an invalid or repeated label aborts
/// before the registry is touched), tenants no longer declared are
/// unregistered, and each declared tenant is built by `factory` and
/// registered under its label.
pub fn apply_configure<P, F>(
    shape: EmailPluginShape,
    data_root: &str,
    registry: &mut InstanceRegistry<P>,
    factory: F,
) -> (r: Result<ConfigureOutcome, String>) where F: Fn(&ResolvedTenant) -> Result<P, String>
    requires
        forall|t: &ResolvedTenant| #[trigger] factory.requires((t,)),
    ensures
        match shape {
            EmailPluginShape::Single(c) => {
                &&& r == Ok::<ConfigureOutcome, String>(ConfigureOutcome::Legacy(c))
                &&& final(registry)@ == Map::<Seq<char>, P>::empty()
            },
            EmailPluginShape::Many(v) => match planned_labels(v@) {
                Err(e) => {
                    &&& r matches Err(m) && m@ == e
                    &&& final(registry)@ == old(registry)@
                },
                Ok(labels) => match r {
                    Ok(ConfigureOutcome::Tenants(ts)) => {
                        &&& ts@.len() == v@.len()
                        &&& forall|i: int|
                            0 <= i < ts@.len() ==> resolves_to(
                                #[trigger] ts@[i],
                                v@[i],
                                labels[i],
                                data_root@,
                            )
                        &&& final(registry)@.dom() == labels.to_set()
                        &&& forall|i: int|
                            0 <= i < ts@.len() ==> factory.ensures(
                                (&(#[trigger] ts@[i]),),
                                Ok::<P, String>(final(registry)@[labels[i]]),
                            )
                    },
                    Ok(ConfigureOutcome::Legacy(_)) => false,
                    Err(m) => factory_failure(
                        factory,
                        v@,
                        labels,
                        data_root@,
                        m@,
                        old(registry)@,
                        final(registry)@,
                    ),
                },
            },
        },
{
    match shape {
        EmailPluginShape::Single(c) => {
            shutdown_all_registered(registry);
            Ok(ConfigureOutcome::Legacy(c))
        },
        EmailPluginShape::Many(v) => {
            let ghost cfgs = v@;
            let tenants = match resolve_tenants(v, data_root) {
                Ok(t) => t,
                Err(e) => return Err(e),
            };
            let ghost labels = planned_labels(cfgs)->Ok_0;
            proof {
                lemma_plan_len(cfgs);
                lemma_planned_labels_distinct(cfgs);
                assert(tenants@.map_values(|t: ResolvedTenant| t.label@) =~= labels);
            }
            let ghost now = labels.to_set();
            let ghost start = registry@;
            // Unregister the tenants that are no longer declared.
            let prev = registered_labels(registry);
            let ghost prev_views = prev@.map_values(|s: String| s@);
            let mut j: usize = 0;
            while j < prev.len()
                invariant
                    j <= prev@.len(),
                    prev_views == prev@.map_values(|s: String| s@),
                    prev_views.to_set() == start.dom(),
                    labels == tenants@.map_values(|t: ResolvedTenant| t.label@),
                    now == labels.to_set(),
                    forall|x: Seq<char>|
                        #[trigger] registry@.contains_key(x) <==> start.contains_key(x) && !(
                        prev_views.take(j as int).contains(x) && !now.contains(x)),
                    forall|x: Seq<char>| #[trigger] registry@.contains_key(x) ==> registry@[x] == start[x],
                decreases prev@.len() - j,
            {
                let ghost before = registry@;
                let keep = tenants_hold_label(&tenants, prev[j].as_str());
                if !keep {
                    let _gone = registry.unregister(prev[j].as_str());
                }
                proof {
                    assert(prev_views[j as int] == prev@[j as int]@);
                    assert forall|x: Seq<char>| #[trigger] registry@.contains_key(x)
                        <==> start.contains_key(x) && !(prev_views.take(j + 1).contains(x)
                        && !now.contains(x)) by {
                        lemma_take_push_contains(prev_views, j as int, x);
                    }
                }
                j = j + 1;
            }
            proof {
                assert(prev_views.take(j as int) =~= prev_views);
                assert forall|x: Seq<char>| #[trigger] registry@.contains_key(x) <==> start.contains_key(
                    x,
                ) && now.contains(x) by {}
            }
            // Build and register every declared tenant.
            let n = tenants.len();
            let mut i: usize = 0;
            while i < n
                invariant
                    n == tenants@.len(),
                    n == labels.len(),
                    i <= n,
                    start == old(registry)@,
                    shape == EmailPluginShape::Many(v),
                    cfgs == v@,
                    planned_labels(cfgs) == Ok::<Seq<Seq<char>>, Seq<char>>(labels),
                    forall|k: int|
                        0 <= k < n ==> resolves_to(
                            #[trigger] tenants@[k],
                            cfgs[k],
                            labels[k],
                            data_root@,
                        ),
                    labels == tenants@.map_values(|t: ResolvedTenant| t.label@),
                    labels.no_duplicates(),
                    now == labels.to_set(),
                    forall|t: &ResolvedTenant| #[trigger] factory.requires((t,)),
                    forall|x: Seq<char>|
                        #[trigger] registry@.contains_key(x) <==> (start.contains_key(x)
                            && now.contains(x)) || labels.take(i as int).contains(x),
                    forall|x: Seq<char>|
                        #[trigger] registry@.contains_key(x) && !labels.take(i as int).contains(x)
                            ==> registry@[x] == start[x],
                    forall|k: int|
                        0 <= k < i ==> factory.ensures(
                            (&(#[trigger] tenants@[k]),),
                            Ok::<P, String>(registry@[labels[k]]),
                        ),
                decreases n - i,
            {
                let t = &tenants[i];
                assert(labels[i as int] == t.label@);
                match factory(t) {
                    Ok(plugin) => {
                        let ghost before = registry@;
                        registry.register(t.label.as_str(), plugin);
                        proof {
                            assert forall|x: Seq<char>| #[trigger] registry@.contains_key(x) <==> (
                            start.contains_key(x) && now.contains(x)) || labels.take(i + 1).contains(
                                x,
                            ) by {
                                lemma_take_push_contains(labels, i as int, x);
                            }
                            assert forall|x: Seq<char>|
                                #[trigger] registry@.contains_key(x) && !labels.take(i + 1).contains(x)
                                    implies registry@[x] == start[x] by {
                                lemma_take_push_contains(labels, i as int, x);
                                assert(x != labels[i as int]);
                                assert(before.contains_key(x));
                            }
                            assert forall|k: int| 0 <= k < i + 1 implies factory.ensures(
                                (&(#[trigger] tenants@[k]),),
                                Ok::<P, String>(registry@[labels[k]]),
                            ) by {
                                if k < i {
                                    assert(labels[k] != labels[i as int]);
                                }
                            }
                        }
                    },
                    Err(e) => {
                        let mut m = concat3(
                            "factory failed for tenant `",
                            t.label.as_str(),
                            "`: ",
                        );
                        m.append(e.as_str());
                        proof {
                            assert(registry@.dom() =~= start.dom().intersect(now).union(
                                labels.take(i as int).to_set(),
                            )) by {
                                assert forall|x: Seq<char>| labels.take(i as int).to_set().contains(x)
                                    <==> labels.take(i as int).contains(x) by {}
                            }
                            assert(tenants@[i as int] == *t);
                            assert(resolves_to(tenants@[i as int], v@[i as int], labels[i as int], data_root@));
                            assert(factory.ensures((&tenants@[i as int],), Err::<P, String>(e)));
                            assert(m@ == factory_failed_message(labels[i as int], e@));
                            assert forall|q: int| 0 <= q < i implies #[trigger] built_by(
                                factory,
                                v@[q],
                                labels[q],
                                data_root@,
                                registry@[labels[q]],
                            ) by {
                                assert(resolves_to(tenants@[q], v@[q], labels[q], data_root@));
                                assert(factory.ensures((&tenants@[q],), Ok::<P, String>(registry@[labels[q]])));
                            }
                            assert forall|x: Seq<char>|
                                old(registry)@.contains_key(x) && #[trigger] labels.skip(
                                    i as int,
                                ).contains(x) implies registry@[x] == old(registry)@[x] by {
                                lemma_skip_take_disjoint(labels, i as int, x);
                                lemma_skip_in_seq(labels, i as int, x);
                                assert(now.contains(x));
                                assert(registry@.contains_key(x));
                            }
                            assert(factory_failure(
                                factory,
                                v@,
                                labels,
                                data_root@,
                                m@,
                                old(registry)@,
                                registry@,
                            ));
                        }
                        return Err(m);
                    },
                }
                i = i + 1;
            }
            proof {
                assert(labels.take(n as int) =~= labels);
                assert(registry@.dom() =~= now);
            }
            Ok(ConfigureOutcome::Tenants(tenants))
        },
    }
}

} // verus!

verus! {

/// A canonical label's data directory is `<base>/email` followed by `/` and
/// the label.
pub proof fn lemma_tenant_data_dir_shape(base: Seq<char>, label: Seq<char>)
    requires
        is_canonical_label(label),
    ensures
        tenant_data_dir(base, label) == path_join(base, "email"@) + seq!['/'] + label,
        path_join(base, "email"@).len() > 0,
{
    reveal_strlit("email");
    let root = path_join(base, "email"@);
    assert(root.last() == 'l');
    assert(label[0] != '/');
}

/// Distinct tenants never share a data directory.
pub proof fn lemma_tenant_data_dirs_distinct(base: Seq<char>, a: Seq<char>, b: Seq<char>)
    requires
        is_canonical_label(a),
        is_canonical_label(b),
        a != b,
    ensures
        tenant_data_dir(base, a) != tenant_data_dir(base, b),
{
    lemma_tenant_data_dir_shape(base, a);
    lemma_tenant_data_dir_shape(base, b);
    let prefix = path_join(base, "email"@) + seq!['/'];
    assert(path_join(base, "email"@) + seq!['/'] + a == prefix + a);
    assert(path_join(base, "email"@) + seq!['/'] + b == prefix + b);
    if tenant_data_dir(base, a) == tenant_data_dir(base, b) {
        assert((prefix + a).len() == (prefix + b).len());
        assert(a.len() == b.len());
        assert forall|i: int| 0 <= i < a.len() implies a[i] == b[i] by {
            assert((prefix + a)[prefix.len() + i] == a[i]);
            assert((prefix + b)[prefix.len() + i] == b[i]);
        }
        assert(a =~= b);
    }
}

} // verus!

verus! {

/// Tenants declared in one configure payload never share a data directory.
pub proof fn lemma_configured_tenants_isolated(cfgs: Seq<EmailPluginConfig>, root: Seq<char>)
    ensures
        planned_labels(cfgs) matches Ok(labels) ==> forall|i: int, j: int|
            0 <= i < labels.len() && 0 <= j < labels.len() && i != j ==> tenant_data_dir(
                root,
                #[trigger] labels[i],
            ) != tenant_data_dir(root, #[trigger] labels[j]),
{
    lemma_planned_labels_distinct(cfgs);
    if let Ok(labels) = planned_labels(cfgs) {
        assert forall|i: int, j: int|
            0 <= i < labels.len() && 0 <= j < labels.len() && i != j implies tenant_data_dir(
                root,
                #[trigger] labels[i],
            ) != tenant_data_dir(root, #[trigger] labels[j]) by {
            lemma_tenant_data_dirs_distinct(root, labels[i], labels[j]);
        }
    }
}

} // verus!

verus! {

/// Only equal labels clash: when every entry's label sanitises and no two
/// entries sanitise to the same label, every entry is planned, in order,
/// under its own sanitised label. So a plan fails only on a label that does
/// not sanitise or that equals an earlier sanitised label.
pub proof fn lemma_only_equal_labels_clash(cfgs: Seq<EmailPluginConfig>)
    requires
        forall|i: int|
            0 <= i < cfgs.len() ==> #[trigger] sanitized_label(requested_label(cfgs[i])) is Ok,
        forall|i: int, j: int|
            0 <= i < j < cfgs.len() ==> sanitized_label(requested_label(#[trigger] cfgs[i]))
                != sanitized_label(requested_label(#[trigger] cfgs[j])),
    ensures
        planned_labels(cfgs) is Ok,
        planned_labels(cfgs)->Ok_0.len() == cfgs.len(),
        forall|i: int|
            0 <= i < cfgs.len() ==> planned_labels(cfgs)->Ok_0[i] == sanitized_label(
                requested_label(#[trigger] cfgs[i]),
            )->Ok_0,
    decreases cfgs.len(),
{
    if cfgs.len() > 0 {
        let init = cfgs.drop_last();
        let n = cfgs.len() - 1;
        assert forall|i: int| 0 <= i < init.len() implies #[trigger] sanitized_label(
            requested_label(init[i]),
        ) is Ok by {
            assert(init[i] == cfgs[i]);
        }
        assert forall|i: int, j: int| 0 <= i < j < init.len() implies sanitized_label(
            requested_label(#[trigger] init[i]),
        ) != sanitized_label(requested_label(#[trigger] init[j])) by {
            assert(init[i] == cfgs[i]);
            assert(init[j] == cfgs[j]);
        }
        lemma_only_equal_labels_clash(init);
        let prev = planned_labels(init)->Ok_0;
        assert(sanitized_label(requested_label(cfgs[n])) is Ok);
        let l = sanitized_label(requested_label(cfgs.last()))->Ok_0;
        if prev.contains(l) {
            let k = choose|k: int| 0 <= k < prev.len() && prev[k] == l;
            assert(init[k] == cfgs[k]);
            assert(sanitized_label(requested_label(cfgs[k])) is Ok);
            assert(sanitized_label(requested_label(cfgs[k])) != sanitized_label(
                requested_label(cfgs[n]),
            ));
        }
        assert forall|i: int| 0 <= i < cfgs.len() implies planned_labels(cfgs)->Ok_0[i]
            == sanitized_label(requested_label(#[trigger] cfgs[i]))->Ok_0 by {
            if i < n {
                assert(init[i] == cfgs[i]);
            }
        }
    }
}

/// Sanitising keeps the trimmed label character for character, except that
/// each ASCII uppercase letter becomes the character 32 code points above
/// it, its lowercase letter.
pub proof fn lemma_sanitized_label_lowercases(raw: Seq<char>)
    ensures
        sanitized_label(raw) matches Ok(l) ==> {
            let t = trimmed(raw);
            &&& l.len() == t.len()
            &&& forall|i: int|
                0 <= i < l.len() ==> if 'A' <= #[trigger] t[i] && t[i] <= 'Z' {
                    l[i] as u32 == t[i] as u32 + 32
                } else {
                    l[i] == t[i]
                }
        },
{
}

/// A label sanitises exactly when, trimmed, it is 1 to 64 characters, each
/// an ASCII letter, an ASCII digit, `_` or `-`.
pub proof fn lemma_sanitize_accepts(raw: Seq<char>)
    ensures
        sanitized_label(raw) is Ok <==> {
            let t = trimmed(raw);
            &&& 1 <= t.len() <= 64
            &&& forall|i: int|
                0 <= i < t.len() ==> {
                    let c = #[trigger] t[i];
                    ||| ('a' <= c && c <= 'z')
                    ||| ('A' <= c && c <= 'Z')
                    ||| ('0' <= c && c <= '9')
                    ||| c == '_'
                    ||| c == '-'
                }
        },
{
}

/// Joining a relative segment onto a non-empty base that does not end in
/// `/` puts exactly one `/` between them; onto a base that ends in `/`, or
/// an empty one, nothing is added; an absolute segment stands alone.
pub proof fn lemma_join_path_separator(base: Seq<char>, segment: Seq<char>)
    ensures
        base.len() > 0 && base[base.len() - 1] != '/' && !(segment.len() > 0 && segment[0]
            == '/') ==> path_join(base, segment) == base + seq!['/'] + segment,
        base.len() > 0 && base[base.len() - 1] == '/' && !(segment.len() > 0 && segment[0]
            == '/') ==> path_join(base, segment) == base + segment,
        base.len() == 0 ==> path_join(base, segment) == segment,
        segment.len() > 0 && segment[0] == '/' ==> path_join(base, segment) == segment,
{
    assert(Seq::<char>::empty() + segment =~= segment);
}

/// A tenant's data directory under a non-empty root that does not end in
/// `/` is the root, then `/email/`, then the label.
pub proof fn lemma_tenant_data_dir_under_root(root: Seq<char>, label: Seq<char>)
    requires
        root.len() > 0,
        root[root.len() - 1] != '/',
        is_canonical_label(label),
    ensures
        tenant_data_dir(root, label) == root + "/email/"@ + label,
{
    reveal_strlit("email");
    reveal_strlit("/email/");
    lemma_join_path_separator(root, "email"@);
    lemma_tenant_data_dir_shape(root, label);
    assert(root + seq!['/'] + "email"@ + seq!['/'] + label =~= root + "/email/"@ + label);
}

} // verus!

verus! {

/// The texts the label and configure errors carry, and the label an entry
/// without `instance` asks for.
pub proof fn lemma_label_error_texts(t: Seq<char>, label: Seq<char>, err: Seq<char>, c: EmailPluginConfig)
    ensures
        empty_label_message() == "tenant label is empty"@,
        too_long_label_message(t) == "tenant label `"@ + t + "` exceeds 64 characters"@,
        invalid_label_message(t) == "tenant label `"@ + t
            + "` has invalid characters (allowed: [A-Za-z0-9_-])"@,
        duplicate_label_message(label) == "duplicate email tenant label: `"@ + label + "`"@,
        factory_failed_message(label, err) == "factory failed for tenant `"@ + label + "`: "@ + err,
        c.instance is None ==> requested_label(c) == "default"@,
        c.instance matches Some(s) ==> requested_label(c) == s@,
{
}

} // verus!
