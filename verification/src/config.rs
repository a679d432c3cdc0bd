//! Groups: the local copy of a set of properties that are updated at once, and the shared
//! context that every instance of a group reads from.
use vstd::prelude::*;

use std::sync::Arc;

use crate::common::GroupID;
use crate::entity::{same_value, EntityData, EntityValue, Metadata};
use crate::noti::Receiver;

verus! {

/// A property of a template: its position and its metadata.
#[derive(Debug)]
pub struct PropData {
    pub index: usize,
    pub type_id: u64,
    pub meta: Arc<Metadata>,
}

/// A group template: the set of properties a `Template` struct declares, as the derive
/// macro describes them.
#[derive(Debug)]
pub struct Template {
    /// Module path of the struct.
    pub module: String,
    /// Name of the struct.
    pub struct_name: String,
    /// Identifies the struct type.
    pub type_id: u64,
    /// The properties, in field order.
    pub props: Vec<PropData>,
    /// The default value of each property, environment overrides applied.
    pub default_config: Vec<EntityValue>,
}

impl Template {
    /// Properties are numbered in order, and each has a default.
    pub open spec fn wf(self) -> bool {
        &&& self.default_config@.len() == self.props@.len()
        &&& forall|i: int| 0 <= i < self.props@.len() ==> (#[trigger] self.props@[i]).index == i
    }

    /// Path of this template: module path and struct name.
    pub fn template_name(&self) -> (r: (&str, &str))
        ensures
            r.0@ == self.module@,
            r.1@ == self.struct_name@,
    {
        (self.module.as_str(), self.struct_name.as_str())
    }

    /// The property table.
    pub fn prop_desc_table__(&self) -> (r: &Vec<PropData>)
        ensures
            r == self.props,
    {
        &self.props
    }

    /// A copy of the default values.
    pub fn make_default_config(&self) -> (r: Vec<EntityValue>)
        ensures
            r@.len() == self.default_config@.len(),
            forall|i: int| 0 <= i < r@.len() ==> same_value(#[trigger] r@[i], self.default_config@[i]),
    {
        let mut r: Vec<EntityValue> = Vec::new();
        let mut i: usize = 0;
        while i < self.default_config.len()
            invariant
                i <= self.default_config@.len(),
                r@.len() == i,
                forall|j: int| 0 <= j < i ==> same_value(#[trigger] r@[j], self.default_config@[j]),
            decreases self.default_config@.len() - i,
        {
            r.push(self.default_config[i].duplicate());
            i = i + 1;
        }
        r
    }
}

/// The shared part of a group: the central value of each property, and a version that
/// moves on with every change that instances should pick up.
#[derive(Debug)]
pub struct GroupContext {
    pub group_id: GroupID,
    pub template_type_id: u64,
    pub sources: Vec<EntityData>,
    pub version: usize,
    /// Path of instantiated config set.
    pub path: Vec<String>,
    /// Receiver of update notifications from the storage.
    pub update_receiver_channel: Receiver,
}

/// Local state of one property in a group instance.
#[derive(Debug, Clone, Copy)]
pub struct PropLocalContext {
    /// Locally cached update fence.
    pub update_fence: usize,
    /// Updated recently.
    pub dirty_flag: bool,
}

impl PropLocalContext {
    /// Fence 0 and dirty, which makes the first check of the property report an update.
    pub fn default() -> (r: PropLocalContext)
        ensures
            r.update_fence == 0,
            r.dirty_flag,
    {
        PropLocalContext { update_fence: 0, dirty_flag: true }
    }
}

/// An instance of a group: a local copy of every property, kept in step with the shared
/// context by [`Group::update`].
#[derive(Debug)]
pub struct Group {
    /// Cached local content.
    pub body: Vec<EntityValue>,
    /// Cached update fence of the group.
    pub version_cached: usize,
    /// Property-wise contexts.
    pub local: Vec<PropLocalContext>,
    pub group_id: GroupID,
    pub path: Vec<String>,
}

/// How a group instance relates to its context after `update` has run.
pub open spec fn updated_from(old: Group, new: Group, core: GroupContext, r: bool) -> bool {
    &&& new.group_id == old.group_id
    &&& new.path == old.path
    &&& new.body@.len() == old.body@.len()
    &&& new.local@.len() == old.local@.len()
    &&& if core.version == old.version_cached {
        &&& !r
        &&& new.version_cached == old.version_cached
        &&& new.local@ == old.local@
        &&& new.body@ == old.body@
    } else {
        &&& new.version_cached == core.version
        &&& forall|i: int|
            0 <= i < old.local@.len() ==> if (#[trigger] core.sources@[i]).version == old.local@[i].update_fence {
                new.local@[i] == old.local@[i] && new.body@[i] == old.body@[i]
            } else {
                new.local@[i].update_fence == core.sources@[i].version && new.local@[i].dirty_flag
                    && same_value(new.body@[i], core.sources@[i].value)
            }
        &&& r == (old.version_cached == 0 || exists|i: int|
            0 <= i < old.local@.len() && (#[trigger] core.sources@[i]).version != old.local@[i].update_fence)
    }
}

/// `new` is the instance `old` after the dirty flag of property `index` was consumed,
/// which `r` reports; nothing changes for an index that names no property.
pub open spec fn consumed(old: Group, new: Group, index: usize, r: bool) -> bool {
    &&& new.body == old.body
    &&& new.version_cached == old.version_cached
    &&& new.group_id == old.group_id
    &&& new.path == old.path
    &&& new.local@.len() == old.local@.len()
    &&& if index < old.local@.len() {
        &&& r == old.local@[index as int].dirty_flag
        &&& new.local@ == old.local@.update(
            index as int,
            PropLocalContext { update_fence: old.local@[index as int].update_fence, dirty_flag: false },
        )
    } else {
        !r && new.local@ == old.local@
    }
}

/// `new` is the instance `old` with every property marked dirty.
pub open spec fn all_marked(old: Group, new: Group) -> bool {
    &&& new.body == old.body
    &&& new.version_cached == old.version_cached
    &&& new.group_id == old.group_id
    &&& new.path == old.path
    &&& new.local@.len() == old.local@.len()
    &&& forall|i: int|
        0 <= i < new.local@.len() ==> (#[trigger] new.local@[i]).dirty_flag && new.local@[i].update_fence
            == old.local@[i].update_fence
}

impl Group {
    /// Local contexts and values match the context's properties one to one.
    pub open spec fn matches(self, core: GroupContext) -> bool {
        &&& self.local@.len() == core.sources@.len()
        &&& self.body@.len() == core.sources@.len()
        &&& self.group_id == core.group_id
    }

    /// A fresh instance of the group: default values, version 0, every property dirty.
    pub fn create_with__(core: &GroupContext, defaults: Vec<EntityValue>) -> (r: Group)
        requires
            defaults@.len() == core.sources@.len(),
        ensures
            r.matches(*core),
            r.body == defaults,
            r.version_cached == 0,
            r.path@ == core.path@,
            forall|i: int| 0 <= i < r.local@.len() ==> (#[trigger] r.local@[i]).update_fence == 0 && r.local@[i].dirty_flag,
    {
        let mut local: Vec<PropLocalContext> = Vec::new();
        let mut i: usize = 0;
        while i < core.sources.len()
            invariant
                i <= core.sources@.len(),
                local@.len() == i,
                forall|j: int| 0 <= j < i ==> (#[trigger] local@[j]).update_fence == 0 && local@[j].dirty_flag,
            decreases core.sources@.len() - i,
        {
            local.push(PropLocalContext::default());
            i = i + 1;
        }
        Group {
            body: defaults,
            version_cached: 0,
            local,
            group_id: core.group_id,
            path: core.path.clone(),
        }
    }

    /// Fetches the context's updates into the local copy. Returns true when there was an
    /// update: always on the first call, and whenever some property changed since.
    pub fn update(&mut self, core: &GroupContext) -> (r: bool)
        requires
            old(self).matches(*core),
        ensures
            final(self).matches(*core),
            updated_from(*old(self), *final(self), *core, r),
    {
        let ghost old_self = *self;
        let mut has_update = self.version_cached == 0;
        if core.version == self.version_cached {
            return false;
        }
        self.version_cached = core.version;
        let mut i: usize = 0;
        while i < self.local.len()
            invariant
                self.matches(*core),
                old_self.matches(*core),
                self.version_cached == core.version,
                self.group_id == old_self.group_id,
                self.path == old_self.path,
                i <= self.local@.len(),
                forall|j: int|
                    i <= j < self.local@.len() ==> self.local@[j] == old_self.local@[j] && self.body@[j]
                        == old_self.body@[j],
                forall|j: int|
                    0 <= j < i ==> if (#[trigger] core.sources@[j]).version == old_self.local@[j].update_fence {
                        self.local@[j] == old_self.local@[j] && self.body@[j] == old_self.body@[j]
                    } else {
                        self.local@[j].update_fence == core.sources@[j].version && self.local@[j].dirty_flag
                            && same_value(self.body@[j], core.sources@[j].value)
                    },
                has_update == (old_self.version_cached == 0 || exists|j: int|
                    0 <= j < i && (#[trigger] core.sources@[j]).version != old_self.local@[j].update_fence),
            decreases self.local@.len() - i,
        {
            let v = core.sources[i].get_update_fence();
            if v != self.local[i].update_fence {
                self.local.set(i, PropLocalContext { update_fence: v, dirty_flag: true });
                has_update = true;
                let (_meta, value) = core.sources[i].get_value();
                self.body.set(i, value);
            }
            i = i + 1;
        }
        has_update
    }

    /// Clears the dirty flag of property `index` and tells whether it was set; false for
    /// an index that names no property.
    pub fn consume_update(&mut self, index: usize) -> (r: bool)
        ensures
            consumed(*old(self), *final(self), index, r),
    {
        if index >= self.local.len() {
            return false;
        }
        let prev = self.local[index];
        self.local.set(index, PropLocalContext { update_fence: prev.update_fence, dirty_flag: false });
        prev.dirty_flag
    }

    /// The same as [`Group::consume_update`].
    pub fn check_elem_update(&mut self, index: usize) -> (r: bool)
        ensures
            consumed(*old(self), *final(self), index, r),
    {
        self.consume_update(index)
    }

    /// Marks every property dirty; does not make the next `update` report an update.
    pub fn mark_all_elem_dirty(&mut self)
        ensures
            all_marked(*old(self), *final(self)),
    {
        let mut i: usize = 0;
        let ghost old_local = self.local@;
        let ghost old_self = *self;
        while i < self.local.len()
            invariant
                self.body == old_self.body,
                self.version_cached == old_self.version_cached,
                self.group_id == old_self.group_id,
                self.path == old_self.path,
                i <= self.local@.len(),
                self.local@.len() == old_local.len(),
                forall|j: int| 0 <= j < i ==> (#[trigger] self.local@[j]).dirty_flag && self.local@[j].update_fence == old_local[j].update_fence,
                forall|j: int| i <= j < self.local@.len() ==> self.local@[j] == old_local[j],
            decreases self.local@.len() - i,
        {
            let prev = self.local[i];
            self.local.set(i, PropLocalContext { update_fence: prev.update_fence, dirty_flag: true });
            i = i + 1;
        }
    }

    /// Makes the next `update` report an update, whether or not anything changed.
    pub fn mark_group_dirty(&mut self)
        ensures
            final(self).version_cached == 0,
            final(self).body == old(self).body,
            final(self).local == old(self).local,
            final(self).group_id == old(self).group_id,
            final(self).path == old(self).path,
    {
        self.version_cached = 0;
    }

    /// Marks property `index` dirty.
    pub fn mark_dirty(&mut self, index: usize)
        requires
            index < old(self).local@.len(),
        ensures
            final(self).body == old(self).body,
            final(self).version_cached == old(self).version_cached,
            final(self).group_id == old(self).group_id,
            final(self).path == old(self).path,
            final(self).local@ == old(self).local@.update(
                index as int,
                PropLocalContext { update_fence: old(self).local@[index as int].update_fence, dirty_flag: true },
            ),
    {
        let prev = self.local[index];
        self.local.set(index, PropLocalContext { update_fence: prev.update_fence, dirty_flag: true });
    }

    /// The metadata of property `index`.
    pub fn metadata<'a>(&self, core: &'a GroupContext, index: usize) -> (r: &'a Metadata)
        requires
            index < core.sources@.len(),
        ensures
            *r == core.sources@[index as int].meta,
    {
        core.sources[index].get_meta()
    }

    /// Another instance, in the same state as this one.
    pub fn duplicate(&self) -> (r: Group)
        ensures
            r.body@.len() == self.body@.len(),
            forall|i: int| 0 <= i < r.body@.len() ==> same_value(#[trigger] r.body@[i], self.body@[i]),
            r.version_cached == self.version_cached,
            r.local@ == self.local@,
            r.group_id == self.group_id,
            r.path@ == self.path@,
    {
        let mut body: Vec<EntityValue> = Vec::new();
        let mut i: usize = 0;
        while i < self.body.len()
            invariant
                i <= self.body@.len(),
                body@.len() == i,
                forall|j: int| 0 <= j < i ==> same_value(#[trigger] body@[j], self.body@[j]),
            decreases self.body@.len() - i,
        {
            body.push(self.body[i].duplicate());
            i = i + 1;
        }
        let mut local: Vec<PropLocalContext> = Vec::new();
        let mut k: usize = 0;
        while k < self.local.len()
            invariant
                k <= self.local@.len(),
                local@ == self.local@.subrange(0, k as int),
            decreases self.local@.len() - k,
        {
            local.push(self.local[k]);
            k = k + 1;
            proof {
                assert(local@ =~= self.local@.subrange(0, k as int));
            }
        }
        proof {
            assert(local@ =~= self.local@);
        }
        Group { body, version_cached: self.version_cached, local, group_id: self.group_id, path: self.path.clone() }
    }

    /// Instance path of this group.
    pub fn path(&self) -> (r: &Vec<String>)
        ensures
            r == self.path,
    {
        &self.path
    }

    /// The local value of property `index`.
    pub fn get(&self, index: usize) -> (r: &EntityValue)
        requires
            index < self.body@.len(),
        ensures
            *r == self.body@[index as int],
    {
        &self.body[index]
    }

    /// Changes the local value of property `index`; [`crate::storage::Storage::commit_elem`]
    /// hands it on to the other instances.
    pub fn set(&mut self, index: usize, value: EntityValue)
        requires
            index < old(self).body@.len(),
        ensures
            final(self).body@ == old(self).body@.update(index as int, value),
            final(self).local == old(self).local,
            final(self).version_cached == old(self).version_cached,
            final(self).group_id == old(self).group_id,
            final(self).path == old(self).path,
    {
        self.body.set(index, value);
    }

    /// A receiver of the group's update notifications that reports an update at once.
    pub fn watch_update(&self, core: &GroupContext) -> (r: Receiver)
        ensures
            r.fence == 0,
    {
        let mut x = core.update_receiver_channel;
        x.invalidate();
        x
    }
}

/// After an update that found the group's version unchanged, nothing is reported and
/// nothing changes; and a second update right after any update reports nothing.
pub proof fn lemma_update_twice(g0: Group, g1: Group, g2: Group, core: GroupContext, r1: bool, r2: bool)
    requires
        updated_from(g0, g1, core, r1),
        updated_from(g1, g2, core, r2),
    ensures
        !r2,
        g2.body@ == g1.body@,
        g2.local@ == g1.local@,
{
}

/// Consuming the same property twice: the second time reports nothing.
pub proof fn lemma_consume_twice(g0: Group, g1: Group, g2: Group, index: usize, r1: bool, r2: bool)
    requires
        consumed(g0, g1, index, r1),
        consumed(g1, g2, index, r2),
    ensures
        !r2,
        g2.local@ == g1.local@,
        g2.body == g1.body,
{
    assert(g2.local@ =~= g1.local@);
}

/// After every property was marked dirty, consuming any of them reports it.
pub proof fn lemma_marked_then_consumed(g0: Group, g1: Group, g2: Group, index: usize, r: bool)
    requires
        all_marked(g0, g1),
        consumed(g1, g2, index, r),
        index < g0.local@.len(),
    ensures
        r,
{
}

/// A property that an update changed reports it when consumed.
pub proof fn lemma_updated_then_consumed(g0: Group, g1: Group, g2: Group, core: GroupContext, index: usize, u: bool, r: bool)
    requires
        updated_from(g0, g1, core, u),
        consumed(g1, g2, index, r),
        index < g0.local@.len(),
        core.version != g0.version_cached,
        core.sources@[index as int].version != g0.local@[index as int].update_fence,
    ensures
        u,
        r,
{
}

/// The first update of a fresh instance reports an update, since the shared version is
/// never 0.
pub proof fn lemma_first_update(g0: Group, g1: Group, core: GroupContext, r: bool)
    requires
        g0.version_cached == 0,
        core.version != 0,
        updated_from(g0, g1, core, r),
    ensures
        r,
        g1.version_cached == core.version,
{
}

} // verus!
