//! The template table: the field layouts that data records are decoded
//! with, keyed by observation domain and template id.

use vstd::prelude::*;
use std::collections::HashMap;
use crate::message::{
    views, FieldSpec, FieldSpecView, TemplateOp, TemplateUpdate, TemplateUpdateView,
};

verus! {

broadcast use vstd::std_specs::hash::group_hash_axioms;

/// A template as the table holds it: the ordered fields and the revision
/// that its definition was given.
#[derive(Debug, PartialEq, Eq)]
pub struct Template {
    pub fields: Vec<FieldSpec>,
    pub revision: u64,
}

/// The value of a `Template`.
pub struct TemplateView {
    pub fields: Seq<FieldSpecView>,
    pub revision: u64,
}

impl View for Template {
    type V = TemplateView;

    open spec fn view(&self) -> TemplateView {
        TemplateView { fields: views(self.fields@), revision: self.revision }
    }
}

/// The revision that follows `issued`. Revisions grow by one with every
/// definition and stay at the largest 64-bit value once they reach it.
pub open spec fn next_revision(issued: u64) -> u64 {
    if issued < u64::MAX {
        (issued + 1) as u64
    } else {
        issued
    }
}

/// The value of a `TemplateTable`: the templates by (observation domain,
/// template id), and the revision most recently given out.
pub struct TableView {
    pub templates: Map<(u32, u16), TemplateView>,
    pub issued: u64,
}

impl TableView {
    /// The table with no template, before any definition.
    pub open spec fn empty() -> TableView {
        TableView { templates: Map::empty(), issued: 0 }
    }

    /// The table after `fields` are defined under the key: the entry is
    /// inserted or replaced, and carries the next revision.
    pub open spec fn define(self, domain: u32, id: u16, fields: Seq<FieldSpecView>) -> TableView {
        TableView {
            templates: self.templates.insert(
                (domain, id),
                TemplateView { fields, revision: next_revision(self.issued) },
            ),
            issued: next_revision(self.issued),
        }
    }

    /// The table after the key's template is removed.
    pub open spec fn withdraw(self, domain: u32, id: u16) -> TableView {
        TableView { templates: self.templates.remove((domain, id)), issued: self.issued }
    }

    /// The table after an update is applied.
    pub open spec fn apply(self, update: TemplateUpdateView) -> TableView {
        match update.op {
            TemplateOp::Define => self.define(
                update.observation_domain,
                update.template_id,
                update.fields,
            ),
            TemplateOp::Withdraw => self.withdraw(update.observation_domain, update.template_id),
        }
    }

    /// The template under the key, if there is one.
    pub open spec fn lookup(self, domain: u32, id: u16) -> Option<TemplateView> {
        if self.templates.contains_key((domain, id)) {
            Some(self.templates[(domain, id)])
        } else {
            None
        }
    }
}

/// The live templates of the decoding engine.
pub struct TemplateTable {
    entries: HashMap<u64, Template>,
    issued: u64,
}

/// The slot of a key in the table's map.
pub closed spec fn slot(domain: u32, id: u16) -> u64 {
    (domain as u64 * 65536 + id as u64) as u64
}

fn slot_of(domain: u32, id: u16) -> (key: u64)
    ensures
        key == slot(domain, id),
{
    domain as u64 * 65536 + id as u64
}

proof fn lemma_slot_injective(d1: u32, i1: u16, d2: u32, i2: u16)
    ensures
        slot(d1, i1) == slot(d2, i2) <==> (d1 == d2 && i1 == i2),
{
}

impl View for TemplateTable {
    type V = TableView;

    closed spec fn view(&self) -> TableView {
        TableView {
            templates: Map::new(
                |k: (u32, u16)| self.entries@.contains_key(slot(k.0, k.1)),
                |k: (u32, u16)| self.entries@[slot(k.0, k.1)]@,
            ),
            issued: self.issued,
        }
    }
}

impl TemplateTable {
    /// A table without templates.
    pub fn new() -> (table: TemplateTable)
        ensures
            table@ == TableView::empty(),
    {
        let table = TemplateTable { entries: HashMap::new(), issued: 0 };
        assert(table@.templates =~= Map::empty());
        table
    }

    /// Inserts the template under (`domain`, `id`), or replaces the one that
    /// is there, and returns the revision that the definition was given.
    pub fn define(&mut self, domain: u32, id: u16, fields: Vec<FieldSpec>) -> (revision: u64)
        ensures
            final(self)@ == old(self)@.define(domain, id, views(fields@)),
            revision == next_revision(old(self)@.issued),
    {
        let revision: u64 = if self.issued < u64::MAX {
            self.issued + 1
        } else {
            self.issued
        };
        let key = slot_of(domain, id);
        let ghost before = self.entries@;
        self.entries.insert(key, Template { fields, revision });
        self.issued = revision;
        proof {
            let expected = old(self)@.define(domain, id, views(fields@));
            assert forall|k: (u32, u16)| #[trigger] self@.templates.contains_key(k)
                == expected.templates.contains_key(k) by {
                lemma_slot_injective(k.0, k.1, domain, id);
            }
            assert forall|k: (u32, u16)| #[trigger]
                self@.templates.contains_key(k) implies self@.templates[k]
                == expected.templates[k] by {
                lemma_slot_injective(k.0, k.1, domain, id);
            }
            assert(self@.templates =~= expected.templates);
        }
        revision
    }

    /// Removes the template under (`domain`, `id`); tells whether there was
    /// one.
    pub fn withdraw(&mut self, domain: u32, id: u16) -> (removed: bool)
        ensures
            final(self)@ == old(self)@.withdraw(domain, id),
            removed == old(self)@.templates.contains_key((domain, id)),
    {
        let key = slot_of(domain, id);
        let removed = self.entries.remove(&key).is_some();
        proof {
            let expected = old(self)@.withdraw(domain, id);
            assert forall|k: (u32, u16)| #[trigger] self@.templates.contains_key(k)
                == expected.templates.contains_key(k) by {
                lemma_slot_injective(k.0, k.1, domain, id);
            }
            assert forall|k: (u32, u16)| #[trigger]
                self@.templates.contains_key(k) implies self@.templates[k]
                == expected.templates[k] by {
                lemma_slot_injective(k.0, k.1, domain, id);
            }
            assert(self@.templates =~= expected.templates);
        }
        removed
    }

    /// Applies an update: a definition or a withdrawal.
    pub fn apply(&mut self, update: TemplateUpdate)
        ensures
            final(self)@ == old(self)@.apply(update@),
    {
        match update.op {
            TemplateOp::Define => {
                self.define(update.observation_domain, update.template_id, update.fields);
            },
            TemplateOp::Withdraw => {
                self.withdraw(update.observation_domain, update.template_id);
            },
        }
    }

    /// The template under (`domain`, `id`), if there is one.
    pub fn lookup(&self, domain: u32, id: u16) -> (found: Option<&Template>)
        ensures
            match found {
                Some(template) => self@.lookup(domain, id) == Some(template@),
                None => self@.lookup(domain, id).is_none(),
            },
    {
        let key = slot_of(domain, id);
        self.entries.get(&key)
    }

    /// The revision most recently given out; 0 before any definition.
    pub fn issued(&self) -> (revision: u64)
        ensures
            revision == self@.issued,
    {
        self.issued
    }
}

/// The table after the updates of `updates` are applied in order.
pub open spec fn apply_all(table: TableView, updates: Seq<TemplateUpdateView>) -> TableView
    decreases updates.len(),
{
    if updates.len() == 0 {
        table
    } else {
        apply_all(table, updates.drop_last()).apply(updates.last())
    }
}

/// Whether `update` is about the key (`domain`, `id`).
pub open spec fn touches(update: TemplateUpdateView, domain: u32, id: u16) -> bool {
    update.observation_domain == domain && update.template_id == id
}

/// A definition is what a lookup of its key finds afterwards, under a
/// revision of its own; every other key keeps what it had.
pub proof fn lemma_define_is_found(
    table: TableView,
    domain: u32,
    id: u16,
    fields: Seq<FieldSpecView>,
    other_domain: u32,
    other_id: u16,
)
    ensures
        table.define(domain, id, fields).lookup(domain, id) == Some(
            TemplateView { fields, revision: next_revision(table.issued) },
        ),
        (other_domain != domain || other_id != id) ==> table.define(domain, id, fields).lookup(
            other_domain,
            other_id,
        ) == table.lookup(other_domain, other_id),
{
}

/// After a withdrawal a lookup of the key finds nothing; every other key
/// keeps what it had.
pub proof fn lemma_withdraw_is_not_found(
    table: TableView,
    domain: u32,
    id: u16,
    other_domain: u32,
    other_id: u16,
)
    ensures
        table.withdraw(domain, id).lookup(domain, id).is_none(),
        (other_domain != domain || other_id != id) ==> table.withdraw(domain, id).lookup(
            other_domain,
            other_id,
        ) == table.lookup(other_domain, other_id),
{
}

/// Template precedence: after any sequence of updates, a key holds the
/// fields of the last definition among the updates about it, and holds
/// nothing where the last update about it is a withdrawal. `last` is the
/// index of the last update about the key.
pub proof fn lemma_last_update_wins(
    table: TableView,
    updates: Seq<TemplateUpdateView>,
    domain: u32,
    id: u16,
    last: int,
)
    requires
        0 <= last < updates.len(),
        touches(updates[last], domain, id),
        forall|later: int| last < later < updates.len() ==> !touches(updates[later], domain, id),
    ensures
        updates[last].op == TemplateOp::Define ==> (apply_all(table, updates).lookup(domain, id)
            matches Some(template) && template.fields == updates[last].fields),
        updates[last].op == TemplateOp::Withdraw ==> apply_all(table, updates).lookup(
            domain,
            id,
        ).is_none(),
    decreases updates.len(),
{
    let before = apply_all(table, updates.drop_last());
    let newest = updates.last();
    if last < updates.len() - 1 {
        assert(!touches(updates[updates.len() - 1], domain, id));
        lemma_last_update_wins(table, updates.drop_last(), domain, id, last);
        match newest.op {
            TemplateOp::Define => {
                lemma_define_is_found(
                    before,
                    newest.observation_domain,
                    newest.template_id,
                    newest.fields,
                    domain,
                    id,
                );
            },
            TemplateOp::Withdraw => {
                lemma_withdraw_is_not_found(
                    before,
                    newest.observation_domain,
                    newest.template_id,
                    domain,
                    id,
                );
            },
        }
    }
}

/// Updates never lower the revision that was given out last.
pub proof fn lemma_revisions_never_fall(table: TableView, updates: Seq<TemplateUpdateView>)
    ensures
        table.issued <= apply_all(table, updates).issued,
    decreases updates.len(),
{
    if updates.len() > 0 {
        lemma_revisions_never_fall(table, updates.drop_last());
    }
}

/// Revisions tell definitions apart: a definition made after an earlier
/// one, with any updates between the two, carries a larger revision, as
/// long as the revisions have not run out.
pub proof fn lemma_later_definition_has_larger_revision(
    table: TableView,
    first: TemplateUpdateView,
    between: Seq<TemplateUpdateView>,
    second: TemplateUpdateView,
)
    requires
        first.op == TemplateOp::Define,
        second.op == TemplateOp::Define,
    ensures
        ({
            let defined = table.apply(first);
            let redefined = apply_all(defined, between).apply(second);
            defined.issued <= redefined.issued && (defined.issued < u64::MAX ==> defined.issued
                < redefined.issued)
        }),
{
    lemma_revisions_never_fall(table.apply(first), between);
}

/// Applying an update and then others is applying all of them in order.
pub proof fn lemma_apply_all_prepend(
    table: TableView,
    first: TemplateUpdateView,
    rest: Seq<TemplateUpdateView>,
)
    ensures
        apply_all(table, seq![first] + rest) == apply_all(table.apply(first), rest),
    decreases rest.len(),
{
    let all = seq![first] + rest;
    if rest.len() == 0 {
        assert(all.drop_last() =~= Seq::<TemplateUpdateView>::empty());
        assert(apply_all(table, all.drop_last()) == table);
    } else {
        lemma_apply_all_prepend(table, first, rest.drop_last());
        assert(all.drop_last() =~= seq![first] + rest.drop_last());
        assert(all.last() == rest.last());
    }
}

/// Applying updates and then others is applying all of them in order.
pub proof fn lemma_apply_all_concat(
    table: TableView,
    first: Seq<TemplateUpdateView>,
    second: Seq<TemplateUpdateView>,
)
    ensures
        apply_all(table, first + second) == apply_all(apply_all(table, first), second),
    decreases second.len(),
{
    if second.len() == 0 {
        assert(first + second =~= first);
    } else {
        lemma_apply_all_concat(table, first, second.drop_last());
        assert((first + second).drop_last() =~= first + second.drop_last());
        assert((first + second).last() == second.last());
    }
}

} // verus!
