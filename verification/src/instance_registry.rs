//! Operator-declared tenant registry: each tenant label maps to the live
//! handle of that tenant's plugin.

use vstd::prelude::*;
use crate::text::str_equal;

verus! {

/// Maps tenant labels to plugin handles. Labels are unique; registering a
/// label again replaces its handle.
pub struct InstanceRegistry<P> {
    entries: Vec<(String, P)>,
    contents: Ghost<Map<Seq<char>, P>>,
}

/// The labels of a list of entries, in order.
pub open spec fn entry_labels<P>(entries: Seq<(String, P)>) -> Seq<Seq<char>> {
    entries.map_values(|e: (String, P)| e.0@)
}

/// Appending an entry whose label is new keeps the labels distinct.
proof fn lemma_labels_push<P>(entries: Seq<(String, P)>, e: (String, P))
    requires
        entry_labels(entries).no_duplicates(),
        !entry_labels(entries).to_set().contains(e.0@),
    ensures
        entry_labels(entries.push(e)) == entry_labels(entries).push(e.0@),
        entry_labels(entries.push(e)).no_duplicates(),
        entry_labels(entries.push(e)).to_set() == entry_labels(entries).to_set().insert(e.0@),
{
    let old_labels = entry_labels(entries);
    let labels = entry_labels(entries.push(e));
    assert(labels =~= old_labels.push(e.0@));
    assert forall|i: int, j: int| 0 <= i < labels.len() && 0 <= j < labels.len() && i != j
        implies labels[i] != labels[j] by {
        if i < old_labels.len() && j < old_labels.len() {
            assert(labels[i] == old_labels[i]);
            assert(labels[j] == old_labels[j]);
        } else if i < old_labels.len() {
            assert(old_labels.to_set().contains(old_labels[i]));
        } else {
            assert(old_labels.to_set().contains(old_labels[j]));
        }
    }
    assert(labels.to_set() =~= old_labels.to_set().insert(e.0@)) by {
        assert forall|x: Seq<char>| labels.to_set().contains(x) <==> old_labels.to_set().insert(e.0@).contains(x) by {
            if labels.to_set().contains(x) {
                let k = choose|k: int| 0 <= k < labels.len() && labels[k] == x;
                if k < old_labels.len() {
                    assert(old_labels[k] == x);
                }
            }
            if old_labels.to_set().contains(x) {
                let k = choose|k: int| 0 <= k < old_labels.len() && old_labels[k] == x;
                assert(labels[k] == x);
            }
            if x == e.0@ {
                assert(labels[old_labels.len() as int] == x);
            }
        }
    }
}

/// Removing the entry at `i` removes exactly its label.
proof fn lemma_labels_remove<P>(entries: Seq<(String, P)>, i: int)
    requires
        entry_labels(entries).no_duplicates(),
        0 <= i < entries.len(),
    ensures
        entry_labels(entries.remove(i)).no_duplicates(),
        entry_labels(entries.remove(i)).to_set() == entry_labels(entries).to_set().remove(
            entries[i].0@,
        ),
{
    let old_labels = entry_labels(entries);
    let labels = entry_labels(entries.remove(i));
    assert(labels =~= old_labels.remove(i));
    assert(old_labels[i] == entries[i].0@);
    assert forall|a: int, b: int| 0 <= a < labels.len() && 0 <= b < labels.len() && a != b
        implies labels[a] != labels[b] by {
        let a2 = if a < i { a } else { a + 1 };
        let b2 = if b < i { b } else { b + 1 };
        assert(labels[a] == old_labels[a2]);
        assert(labels[b] == old_labels[b2]);
    }
    assert(labels.to_set() =~= old_labels.to_set().remove(entries[i].0@)) by {
        assert forall|x: Seq<char>| labels.to_set().contains(x) <==> old_labels.to_set().remove(entries[i].0@).contains(x) by {
            if labels.to_set().contains(x) {
                let k = choose|k: int| 0 <= k < labels.len() && labels[k] == x;
                let k2 = if k < i { k } else { k + 1 };
                assert(old_labels[k2] == x);
                assert(k2 != i);
            }
            if old_labels.to_set().remove(entries[i].0@).contains(x) {
                let k = choose|k: int| 0 <= k < old_labels.len() && old_labels[k] == x;
                assert(k != i);
                if k < i {
                    assert(labels[k] == x);
                } else {
                    assert(labels[k - 1] == x);
                }
            }
        }
    }
}

impl<P> View for InstanceRegistry<P> {
    type V = Map<Seq<char>, P>;

    closed spec fn view(&self) -> Map<Seq<char>, P> {
        self.contents@
    }
}

impl<P> InstanceRegistry<P> {
    #[verifier::type_invariant]
    closed spec fn well_formed(self) -> bool {
        let labels = entry_labels(self.entries@);
        &&& labels.no_duplicates()
        &&& self.contents@.dom() == labels.to_set()
        &&& forall|i: int|
            0 <= i < self.entries@.len() ==> self.contents@[#[trigger] self.entries@[i].0@]
                == self.entries@[i].1
    }

    /// An empty registry.
    pub fn new() -> (r: Self)
        ensures
            r@ == Map::<Seq<char>, P>::empty(),
    {
        let entries: Vec<(String, P)> = Vec::new();
        assert(entry_labels(entries@).to_set() =~= Set::empty());
        InstanceRegistry { entries, contents: Ghost(Map::empty()) }
    }

    /// Index of the entry for `label`, if there is one.
    fn position(&self, label: &str) -> (r: Option<usize>)
        ensures
            match r {
                Some(i) => i < self.entries@.len() && self.entries@[i as int].0@ == label@,
                None => !self@.contains_key(label@),
            },
    {
        proof {
            use_type_invariant(self);
        }
        let mut i: usize = 0;
        while i < self.entries.len()
            invariant
                i <= self.entries@.len(),
                forall|k: int| 0 <= k < i ==> self.entries@[k].0@ != label@,
            decreases self.entries@.len() - i,
        {
            if str_equal(self.entries[i].0.as_str(), label) {
                return Some(i);
            }
            i = i + 1;
        }
        proof {
            if self@.contains_key(label@) {
                let labels = entry_labels(self.entries@);
                assert(labels.to_set().contains(label@));
                let k = choose|k: int| 0 <= k < labels.len() && labels[k] == label@;
                assert(self.entries@[k].0@ == label@);
            }
        }
        None
    }

    proof fn lemma_entry_registered(&self, i: int)
        requires
            self.well_formed(),
            0 <= i < self.entries@.len(),
        ensures
            self@.contains_key(self.entries@[i].0@),
            self@[self.entries@[i].0@] == self.entries@[i].1,
    {
        let labels = entry_labels(self.entries@);
        assert(labels[i] == self.entries@[i].0@);
        assert(labels.to_set().contains(labels[i]));
    }

    /// Look up the handle registered for `label`.
    pub fn lookup(&self, label: &str) -> (r: Option<&P>)
        ensures
            r is Some <==> self@.contains_key(label@),
            r matches Some(p) ==> *p == self@[label@],
    {
        proof {
            use_type_invariant(self);
        }
        match self.position(label) {
            Some(i) => {
                proof {
                    self.lemma_entry_registered(i as int);
                }
                Some(&self.entries[i].1)
            },
            None => None,
        }
    }

    /// Register `plugin` under `label`, replacing any handle the label had.
    pub fn register(&mut self, label: &str, plugin: P)
        ensures
            final(self)@ == old(self)@.insert(label@, plugin),
    {
        let _replaced = self.unregister(label);
        proof {
            use_type_invariant(&*self);
        }
        let ghost before = self.entries@;
        let ghost new_contents = self@.insert(label@, plugin);
        let entry = (String::from_str(label), plugin);
        let mut taken = InstanceRegistry::new();
        std::mem::swap(&mut taken, self);
        let InstanceRegistry { entries, contents: _ } = taken;
        let mut entries = entries;
        entries.push(entry);
        proof {
            lemma_labels_push(before, entry);
            assert(entries@ == before.push(entry));
            assert forall|k: int| 0 <= k < entries@.len() implies new_contents[#[trigger] entries@[k].0@]
                == entries@[k].1 by {
                if k < before.len() {
                    assert(entries@[k] == before[k]);
                    assert(entry_labels(before)[k] == before[k].0@);
                    assert(entry_labels(before).to_set().contains(before[k].0@));
                }
            }
        }
        *self = InstanceRegistry { entries, contents: Ghost(new_contents) };
    }

    /// Drop the entry for `label`, handing back the handle it had.
    pub fn unregister(&mut self, label: &str) -> (r: Option<P>)
        ensures
            final(self)@ == old(self)@.remove(label@),
            r is Some <==> old(self)@.contains_key(label@),
            r matches Some(p) ==> p == old(self)@[label@],
    {
        proof {
            use_type_invariant(&*self);
        }
        match self.position(label) {
            None => {
                assert(self@.remove(label@) =~= self@);
                None
            },
            Some(i) => {
                proof {
                    self.lemma_entry_registered(i as int);
                }
                let ghost before = self.entries@;
                let ghost new_contents = self@.remove(label@);
                let mut taken = InstanceRegistry::new();
                std::mem::swap(&mut taken, self);
                let InstanceRegistry { entries, contents: _ } = taken;
                let mut entries = entries;
                let (_label, p) = entries.remove(i);
                proof {
                    lemma_labels_remove(before, i as int);
                    assert(entries@ == before.remove(i as int));
                    assert forall|k: int| 0 <= k < entries@.len() implies new_contents[#[trigger] entries@[k].0@]
                        == entries@[k].1 by {
                        let j = if k < i { k } else { k + 1 };
                        assert(entries@[k] == before[j]);
                        assert(entry_labels(before)[j] == before[j].0@);
                        assert(entry_labels(before).to_set().contains(before[j].0@));
                        assert(entry_labels(before)[i as int] == before[i as int].0@);
                        assert(entry_labels(before)[j] != entry_labels(before)[i as int]);
                    }
                }
                *self = InstanceRegistry { entries, contents: Ghost(new_contents) };
                Some(p)
            },
        }
    }

    /// Every `(label, handle)` pair, each label once.
    pub fn entries(&self) -> (r: Vec<(String, &P)>)
        ensures
            r@.len() == self@.len(),
            r@.map_values(|e: (String, &P)| e.0@).to_set() == self@.dom(),
            r@.map_values(|e: (String, &P)| e.0@).no_duplicates(),
            forall|i: int| 0 <= i < r@.len() ==> *(#[trigger] r@[i]).1 == self@[r@[i].0@],
    {
        proof {
            use_type_invariant(self);
            entry_labels(self.entries@).unique_seq_to_set();
        }
        let ghost labels = entry_labels(self.entries@);
        let mut r: Vec<(String, &P)> = Vec::new();
        let mut i: usize = 0;
        while i < self.entries.len()
            invariant
                i <= self.entries@.len(),
                labels == entry_labels(self.entries@),
                r@.len() == i,
                forall|k: int| 0 <= k < i ==> (#[trigger] r@[k]).0@ == self.entries@[k].0@ && *r@[k].1 == self.entries@[k].1,
            decreases self.entries@.len() - i,
        {
            let e = &self.entries[i];
            r.push((e.0.clone(), &e.1));
            i = i + 1;
        }
        proof {
            assert(r@.map_values(|e: (String, &P)| e.0@) =~= labels);
            assert forall|k: int| 0 <= k < r@.len() implies *(#[trigger] r@[k]).1 == self@[r@[k].0@] by {
                self.lemma_entry_registered(k);
            }
        }
        r
    }

    /// Drop every entry.
    pub fn clear(&mut self)
        ensures
            final(self)@ == Map::<Seq<char>, P>::empty(),
    {
        *self = InstanceRegistry::new();
    }

    /// Number of registered tenants.
    pub fn len(&self) -> (n: usize)
        ensures
            n == self@.len(),
            self@.dom().finite(),
    {
        proof {
            use_type_invariant(self);
            let labels = entry_labels(self.entries@);
            labels.unique_seq_to_set();
        }
        self.entries.len()
    }
}

/// Looking a label up right after registering it finds the handle just
/// registered.
pub proof fn lemma_lookup_after_register<P>(m: Map<Seq<char>, P>, label: Seq<char>, plugin: P)
    ensures
        m.insert(label, plugin).contains_key(label),
        m.insert(label, plugin)[label] == plugin,
{
}

/// Registering or unregistering one label leaves every other label's
/// handle as it was.
pub proof fn lemma_other_labels_untouched<P>(
    m: Map<Seq<char>, P>,
    label: Seq<char>,
    other: Seq<char>,
    plugin: P,
)
    requires
        label != other,
    ensures
        m.insert(label, plugin).contains_key(other) == m.contains_key(other),
        m.remove(label).contains_key(other) == m.contains_key(other),
        m.contains_key(other) ==> m.insert(label, plugin)[other] == m[other] && m.remove(label)[other]
            == m[other],
{
}

/// After unregistering a label, looking it up finds nothing.
pub proof fn lemma_lookup_after_unregister<P>(m: Map<Seq<char>, P>, label: Seq<char>)
    ensures
        !m.remove(label).contains_key(label),
{
}

/// Registering a new label adds one tenant; registering a known label
/// again keeps the count.
pub proof fn lemma_register_len<P>(m: Map<Seq<char>, P>, label: Seq<char>, plugin: P)
    requires
        m.dom().finite(),
    ensures
        m.contains_key(label) ==> m.insert(label, plugin).len() == m.len(),
        !m.contains_key(label) ==> m.insert(label, plugin).len() == m.len() + 1,
{
    if m.contains_key(label) {
        assert(m.insert(label, plugin).dom() =~= m.dom());
    }
}

/// One operation on the registry, as the map it acts on sees it.
pub enum RegistryOp<P> {
    Register(Seq<char>, P),
    Unregister(Seq<char>),
    Clear,
}

/// The registry's contents after `op`, following the contracts of
/// `register`, `unregister` and `clear`.
pub open spec fn apply_registry_op<P>(m: Map<Seq<char>, P>, op: RegistryOp<P>) -> Map<Seq<char>, P> {
    match op {
        RegistryOp::Register(label, plugin) => m.insert(label, plugin),
        RegistryOp::Unregister(label) => m.remove(label),
        RegistryOp::Clear => Map::empty(),
    }
}

/// The registry's contents after the operations `ops`, in order.
pub open spec fn apply_registry_ops<P>(m: Map<Seq<char>, P>, ops: Seq<RegistryOp<P>>) -> Map<
    Seq<char>,
    P,
>
    decreases ops.len(),
{
    if ops.len() == 0 {
        m
    } else {
        apply_registry_op(apply_registry_ops(m, ops.drop_last()), ops.last())
    }
}

/// `op` can change what a lookup of `label` finds.
pub open spec fn touches_label<P>(op: RegistryOp<P>, label: Seq<char>) -> bool {
    match op {
        RegistryOp::Register(l, _) => l == label,
        RegistryOp::Unregister(l) => l == label,
        RegistryOp::Clear => true,
    }
}

/// After any sequence of operations, a lookup of `label` is settled by the
/// last operation that touches it: when that is `register(label, p)`, the
/// lookup finds `p`; when it is `unregister(label)` or `clear()`, the lookup
/// finds nothing.
pub proof fn lemma_lookup_after_ops<P>(
    m: Map<Seq<char>, P>,
    ops: Seq<RegistryOp<P>>,
    label: Seq<char>,
    k: int,
)
    requires
        0 <= k < ops.len(),
        touches_label(ops[k], label),
        forall|j: int| k < j < ops.len() ==> !touches_label(#[trigger] ops[j], label),
    ensures
        match ops[k] {
            RegistryOp::Register(_, p) => {
                &&& apply_registry_ops(m, ops).contains_key(label)
                &&& apply_registry_ops(m, ops)[label] == p
            },
            _ => !apply_registry_ops(m, ops).contains_key(label),
        },
    decreases ops.len(),
{
    if k < ops.len() - 1 {
        let init = ops.drop_last();
        assert forall|j: int| k < j < init.len() implies !touches_label(#[trigger] init[j], label) by {
            assert(init[j] == ops[j]);
        }
        assert(init[k] == ops[k]);
        lemma_lookup_after_ops(m, init, label, k);
        assert(!touches_label(ops[ops.len() - 1], label));
    }
}

/// After operations none of which touches `label`, a lookup of `label`
/// finds what it found before them.
pub proof fn lemma_lookup_untouched<P>(m: Map<Seq<char>, P>, ops: Seq<RegistryOp<P>>, label: Seq<char>)
    requires
        forall|j: int| 0 <= j < ops.len() ==> !touches_label(#[trigger] ops[j], label),
    ensures
        apply_registry_ops(m, ops).contains_key(label) == m.contains_key(label),
        m.contains_key(label) ==> apply_registry_ops(m, ops)[label] == m[label],
    decreases ops.len(),
{
    if ops.len() > 0 {
        let init = ops.drop_last();
        assert forall|j: int| 0 <= j < init.len() implies !touches_label(#[trigger] init[j], label) by {
            assert(init[j] == ops[j]);
        }
        lemma_lookup_untouched(m, init, label);
        assert(!touches_label(ops[ops.len() - 1], label));
    }
}

} // verus!
