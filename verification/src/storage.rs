//! The storage: the shared context of every registered group, the archive cache that
//! groups are loaded from and dumped into, and the events that a monitor is told of.
use vstd::prelude::*;

use crate::archive::{segs, Archive, ArchiveView};
use crate::common::{spec_path_hash, GroupID, IdGenerator, ItemID, PathHash};
use crate::config::{Group, GroupContext, Template};
use crate::entity::{
    next_version, same_value, share, spec_update_from, value_text, EntityData, EntityValue, Metadata,
    NO_EXPORT, NO_IMPORT,
};
use crate::noti::Sender;

verus! {

/// The names of a path of strings.
pub open spec fn path_view(p: Seq<String>) -> Seq<Seq<char>> {
    p.map_values(|s: String| s@)
}

/// A registered group: its shared context, the sender that announces its updates, and
/// the hash of its path.
#[derive(Debug)]
pub struct GroupRegistration {
    pub context: GroupContext,
    pub evt_on_update: Sender,
    pub path_hash: PathHash,
}

impl GroupRegistration {
    /// The sender keeps its fence odd, the path is not empty, and the hash is the path's.
    pub open spec fn wf(self) -> bool {
        &&& self.evt_on_update.wf()
        &&& self.context.path@.len() > 0
        &&& self.path_hash == spec_path_hash(path_view(self.context.path@))
    }
}

/// What a monitor of the storage is told.
#[derive(Debug, Clone, Copy, PartialEq, Eq, Structural)]
pub enum ReplicationEvent {
    GroupAdded(GroupID),
    GroupRemoved(GroupID),
    EntityValueUpdated { group_id: GroupID, item_id: ItemID },
}

/// Why a group was not found.
#[derive(Debug, Clone, Copy, PartialEq, Eq, Structural)]
pub enum GroupFindError {
    /// Given path was not found.
    PathNotFound,
    /// Type ID mismatch from original registration.
    MismatchedTypeID,
}

/// Why a group was neither found nor created.
#[derive(Debug, Clone, Copy, PartialEq, Eq, Structural)]
pub enum GroupFindOrCreateError {
    /// Type ID mismatch from original registration.
    MismatchedTypeID,
}

/// Why a group was not created; each variant hands the path back.
#[derive(Debug)]
pub enum GroupCreationError {
    /// Path name duplicated, found before the group was built.
    PathCollisionEarly(Vec<String>),
    /// Path name duplication found during registration.
    PathCollisionRace(Vec<String>),
}

/// Storage manages multiple groups registered by path.
pub struct Storage {
    /// Every registered group.
    pub groups: Vec<GroupRegistration>,
    /// Cached archive. May hold contents for groups that do not exist at the moment.
    pub archive: Archive,
    /// Whether a monitor is installed; events are recorded only then.
    pub monitor_enabled: bool,
    /// Events for the monitor, oldest first.
    pub events: Vec<ReplicationEvent>,
    pub group_ids: IdGenerator,
    pub item_ids: IdGenerator,
}

/// A fresh instance of a group on the context `c`, holding the defaults of `t`.
pub open spec fn fresh_instance(g: Group, c: GroupContext, t: Template) -> bool {
    &&& g.matches(c)
    &&& g.version_cached == 0
    &&& g.path@ == c.path@
    &&& forall|i: int|
        0 <= i < g.local@.len() ==> (#[trigger] g.local@[i]).update_fence == 0 && g.local@[i].dirty_flag
            && same_value(g.body@[i], t.default_config@[i])
}

impl Storage {
    /// Archive sorted; registrations well formed, with ids already handed out, and no
    /// two with the same path hash or the same id.
    pub open spec fn wf(self) -> bool {
        &&& self.archive.wf()
        &&& forall|i: int|
            0 <= i < self.groups@.len() ==> (#[trigger] self.groups@[i]).wf() && self.groups@[i].context.group_id.0
                < self.group_ids@
        &&& forall|i: int, j: int|
            0 <= i < self.groups@.len() && 0 <= j < self.groups@.len() && i != j ==> (#[trigger] self.groups@[i]).path_hash
                != (#[trigger] self.groups@[j]).path_hash && self.groups@[i].context.group_id
                != self.groups@[j].context.group_id
    }

    /// Some group is registered under the path hash `h`.
    pub open spec fn has_path(self, h: PathHash) -> bool {
        exists|i: int| 0 <= i < self.groups@.len() && (#[trigger] self.groups@[i]).path_hash == h
    }

    /// The position of the group registered under `h`.
    pub open spec fn path_index(self, h: PathHash) -> int {
        choose|i: int| 0 <= i < self.groups@.len() && (#[trigger] self.groups@[i]).path_hash == h
    }

    /// Some group is registered with the id `id`.
    pub open spec fn has_group(self, id: GroupID) -> bool {
        exists|i: int| 0 <= i < self.groups@.len() && (#[trigger] self.groups@[i]).context.group_id == id
    }

    /// The position of the group with the id `id`.
    pub open spec fn group_index(self, id: GroupID) -> int {
        choose|i: int| 0 <= i < self.groups@.len() && (#[trigger] self.groups@[i]).context.group_id == id
    }

    /// The context of the group registered under `h`.
    pub open spec fn context_at(self, h: PathHash) -> GroupContext {
        self.groups@[self.path_index(h)].context
    }

    /// `self` with `e` recorded, when a monitor is installed.
    pub open spec fn events_with(self, e: Seq<ReplicationEvent>) -> Seq<ReplicationEvent> {
        if self.monitor_enabled {
            self.events@ + e
        } else {
            self.events@
        }
    }
}

/// A registration found by its path hash is the one `path_index` names.
pub proof fn lemma_path_index(s: Storage, i: int)
    requires
        s.wf(),
        0 <= i < s.groups@.len(),
    ensures
        s.has_path(s.groups@[i].path_hash),
        s.path_index(s.groups@[i].path_hash) == i,
{
    let h = s.groups@[i].path_hash;
    assert(s.groups@[i].path_hash == h);
    let j = s.path_index(h);
    assert(0 <= j < s.groups@.len() && s.groups@[j].path_hash == h);
}

/// A registration found by its id is the one `group_index` names.
pub proof fn lemma_group_index(s: Storage, i: int)
    requires
        s.wf(),
        0 <= i < s.groups@.len(),
    ensures
        s.has_group(s.groups@[i].context.group_id),
        s.group_index(s.groups@[i].context.group_id) == i,
{
    let id = s.groups@[i].context.group_id;
    assert(s.groups@[i].context.group_id == id);
    let j = s.group_index(id);
    assert(0 <= j < s.groups@.len() && s.groups@[j].context.group_id == id);
}

impl Storage {
    /// An empty storage without a monitor, whose group and item ids start at 1.
    pub fn new() -> (r: Storage)
        ensures
            r.wf(),
            r.groups@.len() == 0,
            r.archive@ == crate::archive::empty_view(),
            !r.monitor_enabled,
            r.events@.len() == 0,
            r.group_ids@ == 1,
            r.item_ids@ == 1,
    {
        Storage {
            groups: Vec::new(),
            archive: Archive::new(),
            monitor_enabled: false,
            events: Vec::new(),
            group_ids: IdGenerator::new(),
            item_ids: IdGenerator::new(),
        }
    }

    /// Records `e` for the monitor, if one is installed.
    fn emit(&mut self, e: ReplicationEvent)
        ensures
            final(self).events@ == old(self).events_with(seq![e]),
            final(self).groups == old(self).groups,
            final(self).archive == old(self).archive,
            final(self).monitor_enabled == old(self).monitor_enabled,
            final(self).group_ids == old(self).group_ids,
            final(self).item_ids == old(self).item_ids,
    {
        if self.monitor_enabled {
            self.events.push(e);
        }
    }

    /// The position of the group registered under `path_hash`.
    fn find_index(&self, path_hash: PathHash) -> (r: Option<usize>)
        requires
            self.wf(),
        ensures
            match r {
                Some(i) => i < self.groups@.len() && self.has_path(path_hash) && self.path_index(path_hash) == i,
                None => !self.has_path(path_hash),
            },
    {
        let mut i: usize = 0;
        while i < self.groups.len()
            invariant
                self.wf(),
                i <= self.groups@.len(),
                forall|j: int| 0 <= j < i ==> (#[trigger] self.groups@[j]).path_hash != path_hash,
            decreases self.groups@.len() - i,
        {
            if self.groups[i].path_hash == path_hash {
                proof {
                    lemma_path_index(*self, i as int);
                }
                return Some(i);
            }
            i = i + 1;
        }
        None
    }

    /// The position of the group with the id `group_id`.
    fn group_position(&self, group_id: GroupID) -> (r: Option<usize>)
        requires
            self.wf(),
        ensures
            match r {
                Some(i) => i < self.groups@.len() && self.has_group(group_id) && self.group_index(group_id) == i,
                None => !self.has_group(group_id),
            },
    {
        let mut i: usize = 0;
        while i < self.groups.len()
            invariant
                self.wf(),
                i <= self.groups@.len(),
                forall|j: int| 0 <= j < i ==> (#[trigger] self.groups@[j]).context.group_id != group_id,
            decreases self.groups@.len() - i,
        {
            if self.groups[i].context.group_id == group_id {
                proof {
                    lemma_group_index(*self, i as int);
                }
                return Some(i);
            }
            i = i + 1;
        }
        None
    }

    /// The context of the group registered under `path_hash`.
    pub fn find_group(&self, path_hash: &PathHash) -> (r: Option<&GroupContext>)
        requires
            self.wf(),
        ensures
            match r {
                Some(c) => self.has_path(*path_hash) && *c == self.context_at(*path_hash),
                None => !self.has_path(*path_hash),
            },
    {
        match self.find_index(*path_hash) {
            Some(i) => Some(&self.groups[i].context),
            None => None,
        }
    }

    /// The context of the group with the id `group_id`.
    pub fn context(&self, group_id: GroupID) -> (r: Option<&GroupContext>)
        requires
            self.wf(),
        ensures
            match r {
                Some(c) => self.has_group(group_id) && *c == self.groups@[self.group_index(group_id)].context,
                None => !self.has_group(group_id),
            },
    {
        match self.group_position(group_id) {
            Some(i) => Some(&self.groups[i].context),
            None => None,
        }
    }

    /// The sender that announces the updates of the group with the id `group_id`.
    pub fn sender(&self, group_id: GroupID) -> (r: Option<&Sender>)
        requires
            self.wf(),
        ensures
            match r {
                Some(s) => self.has_group(group_id) && *s == self.groups@[self.group_index(group_id)].evt_on_update,
                None => !self.has_group(group_id),
            },
    {
        match self.group_position(group_id) {
            Some(i) => Some(&self.groups[i].evt_on_update),
            None => None,
        }
    }

    /// A new instance of the group registered under `path_hash`, holding the defaults of
    /// `template`. A template whose type id or property count differs from the group's
    /// is refused as a type mismatch.
    pub fn find(&self, path_hash: PathHash, template: &Template) -> (r: Result<Group, GroupFindError>)
        requires
            self.wf(),
        ensures
            !self.has_path(path_hash) ==> r == Err::<Group, GroupFindError>(GroupFindError::PathNotFound),
            self.has_path(path_hash) ==> {
                let c = self.context_at(path_hash);
                if c.template_type_id != template.type_id || template.default_config@.len() != c.sources@.len() {
                    r == Err::<Group, GroupFindError>(GroupFindError::MismatchedTypeID)
                } else {
                    r is Ok && fresh_instance(r->Ok_0, c, *template)
                }
            },
    {
        match self.find_index(path_hash) {
            None => Err(GroupFindError::PathNotFound),
            Some(i) => {
                let c = &self.groups[i].context;
                if c.template_type_id != template.type_id || template.default_config.len() != c.sources.len() {
                    Err(GroupFindError::MismatchedTypeID)
                } else {
                    let defaults = template.make_default_config();
                    Ok(Group::create_with__(c, defaults))
                }
            },
        }
    }
}

/* ------------------------------------------------------------------------------------------ */
/*                                     Loading from archives                                  */
/* ------------------------------------------------------------------------------------------ */

/// Whether loading from `node` changes an entity with metadata `m`: it may be imported,
/// the node holds a value under its name, and that value is accepted.
pub open spec fn meta_loads(m: Metadata, node: ArchiveView) -> bool {
    &&& !m.props.flags.spec_contains(NO_IMPORT)
    &&& node.values.contains_key(m.props.name@)
    &&& spec_update_from(m, node.values[m.props.name@]) is Ok
}

/// The value that loading from `node` gives an entity with metadata `m`.
pub open spec fn loaded_value(m: Metadata, node: ArchiveView) -> EntityValue {
    spec_update_from(m, node.values[m.props.name@])->Ok_0.0
}

/// Whether loading from `node` changes the entity `e`.
pub open spec fn load_applies(e: EntityData, node: ArchiveView) -> bool {
    meta_loads(*e.meta, node)
}

/// `new` is the entity `old` after loading from `node`.
pub open spec fn loaded(old: EntityData, new: EntityData, node: ArchiveView) -> bool {
    &&& new.id == old.id
    &&& new.meta == old.meta
    &&& if load_applies(old, node) {
        &&& same_value(new.value, loaded_value(*old.meta, node))
        &&& new.version == next_version(old.version)
    } else {
        &&& new.value == old.value
        &&& new.version == old.version
    }
}

/// The ids of the entities that loading from `node` changes, in order.
pub open spec fn loaded_ids(s: Seq<EntityData>, node: ArchiveView) -> Seq<ItemID>
    decreases s.len(),
{
    if s.len() == 0 {
        Seq::empty()
    } else if load_applies(s.last(), node) {
        loaded_ids(s.drop_last(), node).push(s.last().id)
    } else {
        loaded_ids(s.drop_last(), node)
    }
}

/// `new` is the context `old` after loading from `node`: every entity loaded, and the
/// version moved on by one where some entity changed.
pub open spec fn context_loaded(old: GroupContext, new: GroupContext, node: ArchiveView) -> bool {
    &&& new.group_id == old.group_id
    &&& new.template_type_id == old.template_type_id
    &&& new.path == old.path
    &&& new.update_receiver_channel == old.update_receiver_channel
    &&& new.sources@.len() == old.sources@.len()
    &&& forall|k: int| 0 <= k < old.sources@.len() ==> loaded(old.sources@[k], #[trigger] new.sources@[k], node)
    &&& new.version == if loaded_ids(old.sources@, node).len() > 0 {
        next_version(old.version)
    } else {
        old.version
    }
}

/// Loads every importable entity of `ctx` from the value of its name in `node`; values
/// that are refused are left as they were. Returns the ids of the entities changed, and
/// moves the context's version on where there are any.
pub fn load_node(ctx: &mut GroupContext, node: &Archive) -> (r: Vec<ItemID>)
    requires
        node.wf(),
    ensures
        context_loaded(*old(ctx), *final(ctx), node@),
        r@ == loaded_ids(old(ctx).sources@, node@),
{
    let ghost old_ctx = *ctx;
    let mut ids: Vec<ItemID> = Vec::new();
    let mut i: usize = 0;
    proof {
        assert(old_ctx.sources@.subrange(0, 0) =~= Seq::<EntityData>::empty());
    }
    while i < ctx.sources.len()
        invariant
            node.wf(),
            i <= ctx.sources@.len(),
            ctx.sources@.len() == old_ctx.sources@.len(),
            ctx.group_id == old_ctx.group_id,
            ctx.template_type_id == old_ctx.template_type_id,
            ctx.path == old_ctx.path,
            ctx.update_receiver_channel == old_ctx.update_receiver_channel,
            ctx.version == old_ctx.version,
            forall|k: int| 0 <= k < i ==> loaded(old_ctx.sources@[k], #[trigger] ctx.sources@[k], node@),
            forall|k: int| i <= k < ctx.sources@.len() ==> #[trigger] ctx.sources@[k] == old_ctx.sources@[k],
            ids@ == loaded_ids(old_ctx.sources@.subrange(0, i as int), node@),
        decreases ctx.sources@.len() - i,
    {
        let ghost e = old_ctx.sources@[i as int];
        proof {
            assert(old_ctx.sources@.subrange(0, i + 1).drop_last() =~= old_ctx.sources@.subrange(0, i as int));
            assert(old_ctx.sources@.subrange(0, i + 1).last() == e);
        }
        let found: Option<&String> = {
            let meta = ctx.sources[i].get_meta();
            if !meta.props.flags.contains(NO_IMPORT) {
                node.value(meta.props.name.as_str())
            } else {
                None
            }
        };
        match found {
            Some(text) => {
                let outcome = ctx.sources[i].update_value_from(text.as_str());
                if outcome.is_ok() {
                    ids.push(ctx.sources[i].get_id());
                }
            },
            None => {},
        }
        i = i + 1;
    }
    proof {
        assert(old_ctx.sources@.subrange(0, i as int) =~= old_ctx.sources@);
    }
    if ids.len() > 0 {
        ctx.version = ctx.version.wrapping_add(1);
    }
    ids
}

/// Loading changes some entity exactly when it changes one at some position.
pub proof fn lemma_loaded_ids(s: Seq<EntityData>, node: ArchiveView)
    ensures
        loaded_ids(s, node).len() > 0 <==> exists|k: int| 0 <= k < s.len() && load_applies(#[trigger] s[k], node),
        loaded_ids(s, node).len() <= s.len(),
    decreases s.len(),
{
    if s.len() > 0 {
        lemma_loaded_ids(s.drop_last(), node);
        if exists|k: int| 0 <= k < s.drop_last().len() && load_applies(#[trigger] s.drop_last()[k], node) {
            let k = choose|k: int| 0 <= k < s.drop_last().len() && load_applies(#[trigger] s.drop_last()[k], node);
            assert(s[k] == s.drop_last()[k]);
        }
        if exists|k: int| 0 <= k < s.len() && load_applies(#[trigger] s[k], node) {
            let k = choose|k: int| 0 <= k < s.len() && load_applies(#[trigger] s[k], node);
            if k < s.len() - 1 {
                assert(s.drop_last()[k] == s[k]);
            }
        }
    }
}

/// `new` is the context `old` once registered with the archive `archive`: loaded from the
/// node at its path, where there is one.
pub open spec fn registered_context(old: GroupContext, new: GroupContext, archive: ArchiveView) -> bool {
    match crate::archive::spec_find_path(archive, path_view(old.path@)) {
        Some(node) => context_loaded(old, new, node),
        None => new == old,
    }
}

/// The strings of a path, as slices.
fn path_strs(p: &Vec<String>) -> (r: Vec<&str>)
    ensures
        r@.len() == p@.len(),
        segs(r@) == path_view(p@),
{
    let mut r: Vec<&str> = Vec::new();
    let mut i: usize = 0;
    while i < p.len()
        invariant
            i <= p@.len(),
            r@.len() == i,
            forall|j: int| 0 <= j < i ==> (#[trigger] r@[j])@ == p@[j]@,
        decreases p@.len() - i,
    {
        r.push(p[i].as_str());
        i = i + 1;
    }
    proof {
        assert(segs(r@) =~= path_view(p@));
    }
    r
}

/// The segments of a path, as owned strings.
fn path_strings(path: &[&str]) -> (r: Vec<String>)
    ensures
        path_view(r@) == segs(path@),
{
    let mut r: Vec<String> = Vec::new();
    let mut i: usize = 0;
    while i < path.len()
        invariant
            i <= path@.len(),
            r@.len() == i,
            forall|j: int| 0 <= j < i ==> (#[trigger] r@[j])@ == path@[j]@,
        decreases path@.len() - i,
    {
        r.push(path[i].to_string());
        i = i + 1;
    }
    proof {
        assert(path_view(r@) =~= segs(path@));
    }
    r
}

/// What `create` leaves behind on success: one more registration, for the path `p`,
/// whose entities hold the template's defaults or what the archive holds for them, and
/// an instance `g` of it.
pub open spec fn spec_created(old: Storage, new: Storage, t: Template, p: Seq<Seq<char>>, g: Group) -> bool {
    let reg = new.groups@.last();
    let c = reg.context;
    let node = crate::archive::spec_find_path(old.archive@, p);
    &&& new.groups@.len() == old.groups@.len() + 1
    &&& new.groups@.drop_last() == old.groups@
    &&& reg.path_hash == spec_path_hash(p)
    &&& path_view(c.path@) == p
    &&& c.group_id == GroupID(old.group_ids@)
    &&& c.template_type_id == t.type_id
    &&& reg.evt_on_update.fence == 1
    &&& c.update_receiver_channel.fence == 0
    &&& c.sources@.len() == t.props@.len()
    &&& forall|k: int|
        0 <= k < c.sources@.len() ==> {
            let e = #[trigger] c.sources@[k];
            let m = *t.props@[k].meta;
            &&& e.id == ItemID((old.item_ids@ + k) as u64)
            &&& e.meta == t.props@[k].meta
            &&& if node is Some && meta_loads(m, node->0) {
                same_value(e.value, loaded_value(m, node->0)) && e.version == 1
            } else {
                same_value(e.value, m.vtable.default_value) && e.version == 0
            }
        }
    &&& c.version == if node is Some && exists|k: int|
        0 <= k < t.props@.len() && meta_loads(*(#[trigger] t.props@[k]).meta, node->0) {
        2usize
    } else {
        1usize
    }
    &&& new.archive == old.archive
    &&& new.monitor_enabled == old.monitor_enabled
    &&& new.events@ == old.events_with(seq![ReplicationEvent::GroupAdded(c.group_id)])
    &&& new.group_ids@ == old.group_ids@ + 1
    &&& new.item_ids@ == old.item_ids@ + t.props@.len()
    &&& fresh_instance(g, c, t)
}

impl Storage {
    /// Registers a group whose context and sender are built, loading it first from the
    /// node of the cached archive at its path. Refused where its path hash is taken.
    pub(crate) fn register_group(&mut self, path_hash: PathHash, context: GroupContext, evt_on_update: Sender) -> (r:
        Result<usize, GroupCreationError>)
        requires
            old(self).wf(),
            (GroupRegistration { context, evt_on_update, path_hash }).wf(),
            context.group_id.0 < old(self).group_ids@,
            !old(self).has_group(context.group_id),
        ensures
            final(self).wf(),
            old(self).has_path(path_hash) ==> *final(self) == *old(self) && match r {
                Err(GroupCreationError::PathCollisionRace(p)) => p@ == context.path@,
                _ => false,
            },
            !old(self).has_path(path_hash) ==> {
                let reg = final(self).groups@.last();
                &&& r is Ok && r->Ok_0 == old(self).groups@.len()
                &&& final(self).groups@.len() == old(self).groups@.len() + 1
                &&& final(self).groups@.drop_last() == old(self).groups@
                &&& reg.path_hash == path_hash
                &&& reg.evt_on_update == evt_on_update
                &&& registered_context(context, reg.context, old(self).archive@)
                &&& final(self).archive == old(self).archive
                &&& final(self).monitor_enabled == old(self).monitor_enabled
                &&& final(self).group_ids == old(self).group_ids
                &&& final(self).item_ids == old(self).item_ids
                &&& final(self).events@ == old(self).events_with(seq![ReplicationEvent::GroupAdded(context.group_id)])
            },
    {
        if self.find_index(path_hash).is_some() {
            return Err(GroupCreationError::PathCollisionRace(context.path));
        }
        let mut context = context;
        let ghost before = context;
        let node_opt: Option<&Archive> = {
            let strs = path_strs(&context.path);
            self.archive.find_path(strs.as_slice())
        };
        match node_opt {
            Some(node) => {
                let _ids = load_node(&mut context, node);
            },
            None => {},
        }
        let group_id = context.group_id;
        let ghost old_self = *self;
        self.groups.push(GroupRegistration { context, evt_on_update, path_hash });
        proof {
            let n = old_self.groups@.len() as int;
            assert(self.groups@.drop_last() =~= old_self.groups@);
            assert forall|i: int, j: int|
                0 <= i < self.groups@.len() && 0 <= j < self.groups@.len() && i != j implies (
                #[trigger] self.groups@[i]).path_hash != (#[trigger] self.groups@[j]).path_hash
                && self.groups@[i].context.group_id != self.groups@[j].context.group_id by {
                if i < n && j < n {
                    assert(self.groups@[i] == old_self.groups@[i]);
                    assert(self.groups@[j] == old_self.groups@[j]);
                } else if i < n {
                    assert(self.groups@[i] == old_self.groups@[i]);
                    assert(old_self.groups@[i].context.group_id != group_id);
                } else {
                    assert(self.groups@[j] == old_self.groups@[j]);
                    assert(old_self.groups@[j].path_hash != path_hash);
                    assert(old_self.groups@[j].context.group_id != group_id);
                }
            }
            assert forall|i: int| 0 <= i < self.groups@.len() implies (#[trigger] self.groups@[i]).wf()
                && self.groups@[i].context.group_id.0 < self.group_ids@ by {
                if i < n {
                    assert(self.groups@[i] == old_self.groups@[i]);
                }
            }
        }
        self.emit(ReplicationEvent::GroupAdded(group_id));
        Ok(self.groups.len() - 1)
    }
}

impl Storage {
    /// Creates and registers the group of `template` at `path`, loading its values from
    /// the cached archive where it holds them, and returns an instance of it. Refused,
    /// with nothing changed, where a group is registered under the same path hash.
    pub fn create(&mut self, template: &Template, path: &[&str]) -> (r: Result<Group, GroupCreationError>)
        requires
            old(self).wf(),
            template.wf(),
            path@.len() > 0,
            forall|i: int| 0 <= i < path@.len() ==> (#[trigger] path@[i])@.len() > 0,
            old(self).group_ids@ < u64::MAX,
            old(self).item_ids@ + template.props@.len() < u64::MAX,
        ensures
            final(self).wf(),
            final(self).has_path(spec_path_hash(segs(path@))),
            old(self).has_path(spec_path_hash(segs(path@))) ==> *final(self) == *old(self) && match r {
                Err(GroupCreationError::PathCollisionEarly(p)) => path_view(p@) == segs(path@),
                _ => false,
            },
            !old(self).has_path(spec_path_hash(segs(path@))) ==> r is Ok && spec_created(
                *old(self),
                *final(self),
                *template,
                segs(path@),
                r->Ok_0,
            ),
    {
        let path_hash = PathHash::new(path);
        proof {
            assert(path@.map_values(|s: &str| s@) == segs(path@));
        }
        if self.find_index(path_hash).is_some() {
            return Err(GroupCreationError::PathCollisionEarly(path_strings(path)));
        }
        let ghost old_self = *self;
        let names = path_strings(path);
        let group_id = GroupID::new_unique(&mut self.group_ids);
        let mut sources: Vec<EntityData> = Vec::new();
        let mut k: usize = 0;
        while k < template.props.len()
            invariant
                template.wf(),
                old_self.wf(),
                self.groups == old_self.groups,
                self.archive == old_self.archive,
                self.monitor_enabled == old_self.monitor_enabled,
                self.events == old_self.events,
                self.group_ids@ == old_self.group_ids@ + 1,
                group_id.0 == old_self.group_ids@,
                k <= template.props@.len(),
                sources@.len() == k,
                self.item_ids@ == old_self.item_ids@ + k,
                old_self.item_ids@ + template.props@.len() < u64::MAX,
                forall|j: int|
                    0 <= j < k ==> {
                        let e = #[trigger] sources@[j];
                        &&& e.id == ItemID((old_self.item_ids@ + j) as u64)
                        &&& e.meta == template.props@[j].meta
                        &&& e.version == 0
                        &&& same_value(e.value, template.props@[j].meta.vtable.default_value)
                    },
            decreases template.props@.len() - k,
        {
            let meta = share(&template.props[k].meta);
            let id = ItemID::new_unique(&mut self.item_ids);
            sources.push(EntityData::new(meta, id));
            k = k + 1;
        }
        let tx = Sender::new();
        let context = GroupContext {
            group_id,
            template_type_id: template.type_id,
            sources,
            version: 1,
            path: names,
            update_receiver_channel: tx.receiver(true),
        };
        let ghost fresh = context;
        proof {
            assert forall|g: int| 0 <= g < self.groups@.len() implies (#[trigger] self.groups@[g]).context.group_id
                != group_id by {
                assert(self.groups@[g].context.group_id.0 < old_self.group_ids@);
            }
        }
        assert(!self.has_path(path_hash));
        let ghost before_reg = *self;
        match self.register_group(path_hash, context, tx) {
            Ok(i) => {
                proof {
                    let c = self.groups@.last().context;
                    let p = segs(path@);
                    assert(i == before_reg.groups@.len());
                    assert(self.groups@[i as int] == self.groups@.last());
                    match crate::archive::spec_find_path(old_self.archive@, p) {
                        Some(node) => {
                            assert(path_view(fresh.path@) == p);
                            assert(context_loaded(fresh, c, node));
                            lemma_loaded_ids(fresh.sources@, node);
                            if exists|k: int| 0 <= k < template.props@.len() && meta_loads(*(#[trigger] template.props@[k]).meta, node) {
                                let k = choose|k: int| 0 <= k < template.props@.len() && meta_loads(*(#[trigger] template.props@[k]).meta, node);
                                assert(load_applies(fresh.sources@[k], node));
                            }
                            if loaded_ids(fresh.sources@, node).len() > 0 {
                                let k = choose|k: int| 0 <= k < fresh.sources@.len() && load_applies(#[trigger] fresh.sources@[k], node);
                                assert(meta_loads(*template.props@[k].meta, node));
                            }
                            assert forall|k: int| 0 <= k < c.sources@.len() implies {
                                let e = #[trigger] c.sources@[k];
                                let m = *template.props@[k].meta;
                                &&& e.id == ItemID((old_self.item_ids@ + k) as u64)
                                &&& e.meta == template.props@[k].meta
                                &&& if meta_loads(m, node) {
                                    same_value(e.value, loaded_value(m, node)) && e.version == 1
                                } else {
                                    same_value(e.value, m.vtable.default_value) && e.version == 0
                                }
                            } by {
                                assert(loaded(fresh.sources@[k], c.sources@[k], node));
                            }
                        },
                        None => {
                            assert(path_view(fresh.path@) == p);
                            assert(c == fresh);
                        },
                    }
                    assert(c.sources@.len() == template.default_config@.len());
                    assert(self.groups@[i as int].path_hash == spec_path_hash(p));
                }
                let defaults = template.make_default_config();
                let g = Group::create_with__(&self.groups[i].context, defaults);
                Ok(g)
            },
            Err(e) => Err(e),
        }
    }

    /// The group at `path`: an instance of the registered one where there is one, else a
    /// newly created one.
    pub fn find_or_create(&mut self, template: &Template, path: &[&str]) -> (r: Result<Group, GroupFindOrCreateError>)
        requires
            old(self).wf(),
            template.wf(),
            path@.len() > 0,
            forall|i: int| 0 <= i < path@.len() ==> (#[trigger] path@[i])@.len() > 0,
            old(self).group_ids@ < u64::MAX,
            old(self).item_ids@ + template.props@.len() < u64::MAX,
        ensures
            final(self).wf(),
            old(self).has_path(spec_path_hash(segs(path@))) ==> {
                let c = old(self).context_at(spec_path_hash(segs(path@)));
                &&& *final(self) == *old(self)
                &&& if c.template_type_id != template.type_id || template.default_config@.len() != c.sources@.len() {
                    r == Err::<Group, GroupFindOrCreateError>(GroupFindOrCreateError::MismatchedTypeID)
                } else {
                    r is Ok && fresh_instance(r->Ok_0, c, *template)
                }
            },
            !old(self).has_path(spec_path_hash(segs(path@))) ==> r is Ok && spec_created(
                *old(self),
                *final(self),
                *template,
                segs(path@),
                r->Ok_0,
            ),
    {
        let path_hash = PathHash::new(path);
        proof {
            assert(path@.map_values(|s: &str| s@) == segs(path@));
        }
        match self.find(path_hash, template) {
            Ok(found) => {
                return Ok(found);
            },
            Err(GroupFindError::MismatchedTypeID) => {
                return Err(GroupFindOrCreateError::MismatchedTypeID);
            },
            Err(GroupFindError::PathNotFound) => {},
        }
        match self.create(template, path) {
            Ok(created) => Ok(created),
            Err(_) => Err(GroupFindOrCreateError::MismatchedTypeID),
        }
    }
}

/* ------------------------------------------------------------------------------------------ */
/*                                       Dumping to archives                                  */
/* ------------------------------------------------------------------------------------------ */

/// The values that dumping the entities `s` writes, by name: the JSON text of every entity
/// that may be exported; a later entity replaces an earlier one of the same name.
pub open spec fn dumped_values(s: Seq<EntityData>) -> Map<Seq<char>, Seq<char>>
    decreases s.len(),
{
    if s.len() == 0 {
        Map::empty()
    } else if !s.last().meta.props.flags.spec_contains(NO_EXPORT) {
        dumped_values(s.drop_last()).insert(s.last().meta.props.name@, value_text(s.last().value))
    } else {
        dumped_values(s.drop_last())
    }
}

/// The archive `a` with the context `c` dumped into it: the node at the context's path,
/// created where missing, keeps its categories, and its values become the dumped ones.
pub open spec fn dump_into(a: ArchiveView, c: GroupContext) -> ArchiveView {
    let p = path_view(c.path@);
    crate::archive::put_at(
        a,
        p,
        ArchiveView { paths: crate::archive::node_at(a, p).paths, values: dumped_values(c.sources@) },
    )
}

/// Dumping a group into an archive changes only the values of the node at the group's
/// path, which become the group's exportable values: that node keeps every child
/// category, every node off the path is kept as it was, and the nodes on the way keep
/// their values.
pub proof fn lemma_dump_changes_only_values(a: ArchiveView, c: GroupContext, q: Seq<Seq<char>>)
    requires
        c.path@.len() > 0,
    ensures
        crate::archive::node_at(dump_into(a, c), path_view(c.path@)).values == dumped_values(c.sources@),
        crate::archive::node_at(dump_into(a, c), path_view(c.path@)).paths == crate::archive::node_at(
            a,
            path_view(c.path@),
        ).paths,
        q != path_view(c.path@) ==> crate::archive::node_at(dump_into(a, c), q).values
            == crate::archive::node_at(a, q).values,
        !q.is_prefix_of(path_view(c.path@)) ==> crate::archive::node_at(dump_into(a, c), q)
            == crate::archive::node_at(a, q),
{
    let p = path_view(c.path@);
    let x = ArchiveView { paths: crate::archive::node_at(a, p).paths, values: dumped_values(c.sources@) };
    crate::archive::lemma_node_at_put(a, p, x, p);
    assert(p.is_prefix_of(p));
    assert(p.skip(p.len() as int) =~= Seq::<Seq<char>>::empty());
    crate::archive::lemma_node_at_put(a, p, x, q);
    if p.is_prefix_of(q) && q != p {
        let r = q.skip(p.len() as int);
        assert(r.len() > 0) by {
            if r.len() == 0 {
                assert(q =~= p);
            }
        }
        assert(q =~= p + r);
        crate::archive::lemma_node_at_concat(a, p, r);
        assert(crate::archive::child_or_empty(x, r[0]) == crate::archive::child_or_empty(
            crate::archive::node_at(a, p),
            r[0],
        ));
        assert(crate::archive::node_at(x, r) == crate::archive::node_at(crate::archive::node_at(a, p), r));
    }
}

/// Writes the exportable values of `ctx` into the node of `archive` at the context's
/// path, replacing every value the node held.
pub fn dump_node(ctx: &GroupContext, archive: &mut Archive)
    requires
        old(archive).wf(),
        ctx.path@.len() > 0,
    ensures
        final(archive).wf(),
        final(archive)@ == dump_into(old(archive)@, *ctx),
{
    let mut fresh = Archive::new();
    let mut i: usize = 0;
    proof {
        assert(ctx.sources@.subrange(0, 0) =~= Seq::<EntityData>::empty());
    }
    while i < ctx.sources.len()
        invariant
            i <= ctx.sources@.len(),
            fresh.wf(),
            fresh@.paths == Map::<Seq<char>, ArchiveView>::empty(),
            fresh@.values == dumped_values(ctx.sources@.subrange(0, i as int)),
        decreases ctx.sources@.len() - i,
    {
        proof {
            assert(ctx.sources@.subrange(0, i + 1).drop_last() =~= ctx.sources@.subrange(0, i as int));
        }
        let (meta, value) = ctx.sources[i].get_value();
        if !meta.props.flags.contains(NO_EXPORT) {
            fresh.insert_value(meta.props.name.clone(), value.to_json());
            proof {
                crate::entity::lemma_same_value(meta.vtable, value, ctx.sources@[i as int].value);
            }
        }
        i = i + 1;
    }
    proof {
        assert(ctx.sources@.subrange(0, i as int) =~= ctx.sources@);
    }
    let strs = path_strs(&ctx.path);
    let node = archive.find_or_create_path_mut(strs.as_slice());
    node.values = fresh.values;
}

/* ------------------------------------------------------------------------------------------ */
/*                                   Removal and notifications                                */
/* ------------------------------------------------------------------------------------------ */

/// `new` is the registration `old` after an announced change: the context's version and
/// the sender's fence move on.
pub open spec fn notified(old: GroupRegistration, new: GroupRegistration) -> bool {
    &&& new.context.version == next_version(old.context.version)
    &&& new.evt_on_update.fence == (old.evt_on_update.fence + 2) % (usize::MAX as int + 1)
    &&& new.path_hash == old.path_hash
    &&& new.context.group_id == old.context.group_id
    &&& new.context.template_type_id == old.context.template_type_id
    &&& new.context.sources == old.context.sources
    &&& new.context.path == old.context.path
    &&& new.context.update_receiver_channel == old.context.update_receiver_channel
}

/// Removing a registration keeps the others well formed and apart.
proof fn lemma_remove_keeps_wf(s: Storage, t: Storage, i: int)
    requires
        s.wf(),
        0 <= i < s.groups@.len(),
        t.groups@ == s.groups@.remove(i),
        t.archive.wf(),
        t.group_ids == s.group_ids,
    ensures
        t.wf(),
{
    assert forall|a: int| 0 <= a < t.groups@.len() implies (#[trigger] t.groups@[a]).wf()
        && t.groups@[a].context.group_id.0 < t.group_ids@ by {
        if a < i {
            assert(t.groups@[a] == s.groups@[a]);
        } else {
            assert(t.groups@[a] == s.groups@[a + 1]);
        }
    }
    assert forall|a: int, b: int|
        0 <= a < t.groups@.len() && 0 <= b < t.groups@.len() && a != b implies (#[trigger] t.groups@[a]).path_hash
        != (#[trigger] t.groups@[b]).path_hash && t.groups@[a].context.group_id != t.groups@[b].context.group_id by {
        let sa = if a < i { a } else { a + 1 };
        let sb = if b < i { b } else { b + 1 };
        assert(t.groups@[a] == s.groups@[sa]);
        assert(t.groups@[b] == s.groups@[sb]);
    }
}

/// Replacing a registration by a notified one keeps the storage well formed.
proof fn lemma_notify_keeps_wf(s: Storage, t: Storage, i: int)
    requires
        s.wf(),
        0 <= i < s.groups@.len(),
        t.groups@.len() == s.groups@.len(),
        notified(s.groups@[i], t.groups@[i]),
        t.groups@[i].evt_on_update.wf(),
        forall|j: int| 0 <= j < s.groups@.len() && j != i ==> t.groups@[j] == s.groups@[j],
        t.archive == s.archive,
        t.group_ids == s.group_ids,
    ensures
        t.wf(),
{
    assert forall|a: int| 0 <= a < t.groups@.len() implies (#[trigger] t.groups@[a]).wf()
        && t.groups@[a].context.group_id.0 < t.group_ids@ by {
        assert(s.groups@[a].wf());
    }
    assert forall|a: int, b: int|
        0 <= a < t.groups@.len() && 0 <= b < t.groups@.len() && a != b implies (#[trigger] t.groups@[a]).path_hash
        != (#[trigger] t.groups@[b]).path_hash && t.groups@[a].context.group_id != t.groups@[b].context.group_id by {
        assert(s.groups@[a].path_hash != s.groups@[b].path_hash);
    }
}

impl Storage {
    /// Unregisters the group with the id `group_id`, dumping its values into the cached
    /// archive first; nothing happens where no such group is registered.
    pub fn unregister_group(&mut self, group_id: GroupID)
        requires
            old(self).wf(),
        ensures
            final(self).wf(),
            !final(self).has_group(group_id),
            old(self).has_group(group_id) ==> {
                let i = old(self).group_index(group_id);
                &&& final(self).groups@ == old(self).groups@.remove(i)
                &&& final(self).archive@ == dump_into(old(self).archive@, old(self).groups@[i].context)
                &&& final(self).events@ == old(self).events_with(seq![ReplicationEvent::GroupRemoved(group_id)])
                &&& final(self).monitor_enabled == old(self).monitor_enabled
                &&& final(self).group_ids == old(self).group_ids
                &&& final(self).item_ids == old(self).item_ids
            },
            !old(self).has_group(group_id) ==> *final(self) == *old(self),
    {
        match self.group_position(group_id) {
            Some(i) => {
                let ghost old_self = *self;
                let reg = self.groups.remove(i);
                proof {
                    assert(old_self.groups@[i as int].wf());
                }
                dump_node(&reg.context, &mut self.archive);
                proof {
                    lemma_remove_keeps_wf(old_self, *self, i as int);
                    assert forall|j: int| 0 <= j < self.groups@.len() implies (#[trigger] self.groups@[j]).context.group_id
                        != group_id by {
                        if j < i {
                            assert(self.groups@[j] == old_self.groups@[j]);
                        } else {
                            assert(self.groups@[j] == old_self.groups@[j + 1]);
                        }
                    }
                }
                self.emit(ReplicationEvent::GroupRemoved(group_id));
            },
            None => {},
        }
    }

    /// Announces a change of the group at position `i`.
    fn notify_at(&mut self, i: usize)
        requires
            old(self).wf(),
            i < old(self).groups@.len(),
        ensures
            final(self).wf(),
            final(self).groups@.len() == old(self).groups@.len(),
            notified(old(self).groups@[i as int], final(self).groups@[i as int]),
            forall|j: int| 0 <= j < old(self).groups@.len() && j != i ==> final(self).groups@[j] == old(self).groups@[j],
            final(self).archive == old(self).archive,
            final(self).events == old(self).events,
            final(self).monitor_enabled == old(self).monitor_enabled,
            final(self).group_ids == old(self).group_ids,
            final(self).item_ids == old(self).item_ids,
    {
        let ghost old_self = *self;
        proof {
            assert(old_self.groups@[i as int].wf());
        }
        let v = self.groups[i].context.version;
        self.groups[i].context.version = v.wrapping_add(1);
        self.groups[i].evt_on_update.notify();
        proof {
            lemma_notify_keeps_wf(old_self, *self, i as int);
        }
    }

    /// Announces a change of the group with the id `group_id` to its instances: its
    /// version and its sender's fence move on. Nothing happens for an unknown id.
    pub fn notify_edition(&mut self, group_id: GroupID)
        requires
            old(self).wf(),
        ensures
            final(self).wf(),
            old(self).has_group(group_id) ==> {
                let i = old(self).group_index(group_id);
                &&& final(self).groups@.len() == old(self).groups@.len()
                &&& notified(old(self).groups@[i], final(self).groups@[i])
                &&& forall|j: int| 0 <= j < old(self).groups@.len() && j != i ==> final(self).groups@[j] == old(self).groups@[j]
                &&& final(self).archive == old(self).archive
                &&& final(self).events == old(self).events
                &&& final(self).monitor_enabled == old(self).monitor_enabled
                &&& final(self).group_ids == old(self).group_ids
                &&& final(self).item_ids == old(self).item_ids
            },
            !old(self).has_group(group_id) ==> *final(self) == *old(self),
    {
        match self.group_position(group_id) {
            Some(i) => self.notify_at(i),
            None => {},
        }
    }

    /// Tells the monitor that the entity `item_id` of group `group_id` changed; unless
    /// `silent`, also announces the change to the group's instances.
    pub fn on_value_update(&mut self, group_id: GroupID, item_id: ItemID, silent: bool)
        requires
            old(self).wf(),
        ensures
            final(self).wf(),
            final(self).events@ == old(self).events_with(
                seq![ReplicationEvent::EntityValueUpdated { group_id, item_id }],
            ),
            final(self).archive == old(self).archive,
            final(self).monitor_enabled == old(self).monitor_enabled,
            final(self).group_ids == old(self).group_ids,
            final(self).item_ids == old(self).item_ids,
            final(self).groups@.len() == old(self).groups@.len(),
            if !silent && old(self).has_group(group_id) {
                let i = old(self).group_index(group_id);
                &&& notified(old(self).groups@[i], final(self).groups@[i])
                &&& forall|j: int| 0 <= j < old(self).groups@.len() && j != i ==> final(self).groups@[j] == old(self).groups@[j]
            } else {
                final(self).groups == old(self).groups
            },
    {
        self.emit(ReplicationEvent::EntityValueUpdated { group_id, item_id });
        if silent {
            return;
        }
        match self.group_position(group_id) {
            Some(i) => self.notify_at(i),
            None => {},
        }
    }
}

/// Changing registrations without touching their hashes, ids, paths or senders keeps the
/// storage well formed.
proof fn lemma_same_shape_keeps_wf(s: Storage, t: Storage)
    requires
        s.wf(),
        t.groups@.len() == s.groups@.len(),
        forall|j: int|
            0 <= j < s.groups@.len() ==> {
                &&& (#[trigger] t.groups@[j]).path_hash == s.groups@[j].path_hash
                &&& t.groups@[j].context.group_id == s.groups@[j].context.group_id
                &&& t.groups@[j].context.path == s.groups@[j].context.path
                &&& t.groups@[j].evt_on_update.wf()
            },
        t.archive == s.archive,
        t.group_ids == s.group_ids,
    ensures
        t.wf(),
{
    assert forall|a: int| 0 <= a < t.groups@.len() implies (#[trigger] t.groups@[a]).wf()
        && t.groups@[a].context.group_id.0 < t.group_ids@ by {
        assert(s.groups@[a].wf());
    }
    assert forall|a: int, b: int|
        0 <= a < t.groups@.len() && 0 <= b < t.groups@.len() && a != b implies (#[trigger] t.groups@[a]).path_hash
        != (#[trigger] t.groups@[b]).path_hash && t.groups@[a].context.group_id != t.groups@[b].context.group_id by {
        assert(s.groups@[a].path_hash != s.groups@[b].path_hash);
    }
}

/// `new` is the registration `old` after the value `value` was committed to its entity
/// `index`; where `notify`, the change is also announced to the group's instances.
pub open spec fn committed(old: GroupRegistration, new: GroupRegistration, index: int, value: EntityValue, notify: bool) -> bool {
    let e = old.context.sources@[index];
    let f = new.context.sources@[index];
    &&& new.path_hash == old.path_hash
    &&& new.context.group_id == old.context.group_id
    &&& new.context.template_type_id == old.context.template_type_id
    &&& new.context.path == old.context.path
    &&& new.context.update_receiver_channel == old.context.update_receiver_channel
    &&& new.context.sources@.len() == old.context.sources@.len()
    &&& forall|k: int|
        0 <= k < old.context.sources@.len() && k != index ==> #[trigger] new.context.sources@[k]
            == old.context.sources@[k]
    &&& f.id == e.id
    &&& f.meta == e.meta
    &&& f.version == next_version(e.version)
    &&& same_value(f.value, value)
    &&& if notify {
        &&& new.context.version == next_version(old.context.version)
        &&& new.evt_on_update.fence == (old.evt_on_update.fence + 2) % (usize::MAX as int + 1)
    } else {
        &&& new.context.version == old.context.version
        &&& new.evt_on_update == old.evt_on_update
    }
}

impl Group {
    /// Commits the local value of property `index` to the shared context, from where the
    /// other instances of the group pick it up; the monitor is told. Unless `notify`, the
    /// group's version stays, so that instances see the change only with a later one.
    /// Returns false, changing nothing, where the group is not registered or `index`
    /// names no property.
    pub fn commit_elem(&self, storage: &mut Storage, index: usize, notify: bool) -> (r: bool)
        requires
            old(storage).wf(),
        ensures
            final(storage).wf(),
            r == (old(storage).has_group(self.group_id) && index < self.body@.len() && index
                < old(storage).groups@[old(storage).group_index(self.group_id)].context.sources@.len()),
            r ==> {
                let i = old(storage).group_index(self.group_id);
                let e = old(storage).groups@[i].context.sources@[index as int];
                &&& final(storage).groups@.len() == old(storage).groups@.len()
                &&& committed(old(storage).groups@[i], final(storage).groups@[i], index as int, self.body@[index as int], notify)
                &&& forall|j: int| 0 <= j < old(storage).groups@.len() && j != i ==> final(storage).groups@[j] == old(storage).groups@[j]
                &&& final(storage).events@ == old(storage).events_with(
                    seq![ReplicationEvent::EntityValueUpdated { group_id: self.group_id, item_id: e.id }],
                )
                &&& final(storage).archive == old(storage).archive
                &&& final(storage).monitor_enabled == old(storage).monitor_enabled
                &&& final(storage).group_ids == old(storage).group_ids
                &&& final(storage).item_ids == old(storage).item_ids
            },
            !r ==> *final(storage) == *old(storage),
    {
        let pos = match storage.group_position(self.group_id) {
            Some(i) => i,
            None => {
                return false;
            },
        };
        if index >= self.body.len() || index >= storage.groups[pos].context.sources.len() {
            return false;
        }
        let value = self.body[index].duplicate();
        let ghost old_s = *storage;
        storage.groups[pos].context.sources[index].apply_value(value);
        let id = storage.groups[pos].context.sources[index].get_id();
        proof {
            assert forall|j: int| 0 <= j < old_s.groups@.len() implies {
                &&& (#[trigger] storage.groups@[j]).path_hash == old_s.groups@[j].path_hash
                &&& storage.groups@[j].context.group_id == old_s.groups@[j].context.group_id
                &&& storage.groups@[j].context.path == old_s.groups@[j].context.path
                &&& storage.groups@[j].evt_on_update.wf()
            } by {
                assert(old_s.groups@[j].wf());
            }
            lemma_same_shape_keeps_wf(old_s, *storage);
            lemma_group_index(*storage, pos as int);
        }
        let ghost mid = *storage;
        storage.on_value_update(self.group_id, id, !notify);
        proof {
            assert forall|k: int|
                0 <= k < old_s.groups@[pos as int].context.sources@.len() && k != index implies #[trigger] mid.groups@[pos as int].context.sources@[k]
                    == old_s.groups@[pos as int].context.sources@[k] by {}
        }
        true
    }

    /// Announces property `index` of the group as changed, without changing its value:
    /// the monitor is told and the group's instances see an update. Returns false,
    /// changing nothing, where the group is not registered or `index` names no property.
    pub fn touch_elem(&self, storage: &mut Storage, index: usize) -> (r: bool)
        requires
            old(storage).wf(),
        ensures
            final(storage).wf(),
            r == (old(storage).has_group(self.group_id) && index
                < old(storage).groups@[old(storage).group_index(self.group_id)].context.sources@.len()),
            r ==> {
                let i = old(storage).group_index(self.group_id);
                let e = old(storage).groups@[i].context.sources@[index as int];
                &&& final(storage).groups@.len() == old(storage).groups@.len()
                &&& notified(old(storage).groups@[i], final(storage).groups@[i])
                &&& forall|j: int| 0 <= j < old(storage).groups@.len() && j != i ==> final(storage).groups@[j] == old(storage).groups@[j]
                &&& final(storage).events@ == old(storage).events_with(
                    seq![ReplicationEvent::EntityValueUpdated { group_id: self.group_id, item_id: e.id }],
                )
                &&& final(storage).archive == old(storage).archive
                &&& final(storage).monitor_enabled == old(storage).monitor_enabled
                &&& final(storage).group_ids == old(storage).group_ids
                &&& final(storage).item_ids == old(storage).item_ids
            },
            !r ==> *final(storage) == *old(storage),
    {
        let pos = match storage.group_position(self.group_id) {
            Some(i) => i,
            None => {
                return false;
            },
        };
        if index >= storage.groups[pos].context.sources.len() {
            return false;
        }
        let id = storage.groups[pos].context.sources[index].get_id();
        storage.on_value_update(self.group_id, id, false);
        true
    }
}

/// How often `id` occurs in `items`.
pub open spec fn count_of(items: Seq<GroupID>, id: GroupID) -> nat
    decreases items.len(),
{
    if items.len() == 0 {
        0
    } else {
        count_of(items.drop_last(), id) + if items.last() == id {
            1nat
        } else {
            0nat
        }
    }
}

/// The version after `x`, counted modulo the size of `usize`.
proof fn lemma_next_version_mod(x: usize, c: int)
    requires
        0 <= c,
        x == (c % (usize::MAX as int + 1)),
    ensures
        next_version(x) == (c + 1) % (usize::MAX as int + 1),
{
    let m = usize::MAX as int + 1;
    vstd::arithmetic::div_mod::lemma_add_mod_noop(c, 1, m);
    vstd::arithmetic::div_mod::lemma_small_mod(1nat, m as nat);
    if x as int == usize::MAX as int {
        vstd::arithmetic::div_mod::lemma_mod_self_0(m);
    } else {
        vstd::arithmetic::div_mod::lemma_small_mod((x + 1) as nat, m as nat);
    }
}

/// Two more on the fence, counted modulo the size of `usize`.
proof fn lemma_fence_mod(f: usize, c: int)
    requires
        0 <= c,
        f == (c % (usize::MAX as int + 1)),
    ensures
        (f + 2) % (usize::MAX as int + 1) == (c + 2) % (usize::MAX as int + 1),
{
    let m = usize::MAX as int + 1;
    vstd::arithmetic::div_mod::lemma_add_mod_noop(c, 2, m);
    vstd::arithmetic::div_mod::lemma_small_mod(2nat, m as nat);
}

impl Storage {
    /// Announces a change of every group named in `items`, once per mention; unknown ids
    /// are passed over.
    pub fn notify_editions(&mut self, items: &[GroupID])
        requires
            old(self).wf(),
        ensures
            final(self).wf(),
            final(self).groups@.len() == old(self).groups@.len(),
            forall|j: int|
                0 <= j < old(self).groups@.len() ==> {
                    let o = old(self).groups@[j];
                    let n = #[trigger] final(self).groups@[j];
                    let c = count_of(items@, o.context.group_id);
                    &&& n.context.version == (o.context.version + c) % (usize::MAX as int + 1)
                    &&& n.evt_on_update.fence == (o.evt_on_update.fence + 2 * c) % (usize::MAX as int + 1)
                    &&& n.path_hash == o.path_hash
                    &&& n.context.group_id == o.context.group_id
                    &&& n.context.template_type_id == o.context.template_type_id
                    &&& n.context.sources == o.context.sources
                    &&& n.context.path == o.context.path
                    &&& n.context.update_receiver_channel == o.context.update_receiver_channel
                },
            final(self).archive == old(self).archive,
            final(self).events == old(self).events,
            final(self).monitor_enabled == old(self).monitor_enabled,
            final(self).group_ids == old(self).group_ids,
            final(self).item_ids == old(self).item_ids,
    {
        let ghost old_self = *self;
        let ghost m = usize::MAX as int + 1;
        let mut i: usize = 0;
        proof {
            assert(items@.subrange(0, 0) =~= Seq::<GroupID>::empty());
            assert forall|j: int| 0 <= j < old_self.groups@.len() implies {
                let o = #[trigger] old_self.groups@[j];
                &&& o.context.version == (o.context.version + 0) % m
                &&& o.evt_on_update.fence == (o.evt_on_update.fence + 2 * 0) % m
            } by {
                let o = old_self.groups@[j];
                vstd::arithmetic::div_mod::lemma_small_mod(o.context.version as nat, m as nat);
                vstd::arithmetic::div_mod::lemma_small_mod(o.evt_on_update.fence as nat, m as nat);
            }
        }
        while i < items.len()
            invariant
                self.wf(),
                old_self.wf(),
                m == usize::MAX as int + 1,
                i <= items@.len(),
                self.groups@.len() == old_self.groups@.len(),
                forall|j: int|
                    0 <= j < old_self.groups@.len() ==> {
                        let o = old_self.groups@[j];
                        let n = #[trigger] self.groups@[j];
                        let c = count_of(items@.subrange(0, i as int), o.context.group_id);
                        &&& n.context.version == (o.context.version + c) % m
                        &&& n.evt_on_update.fence == (o.evt_on_update.fence + 2 * c) % m
                        &&& n.path_hash == o.path_hash
                        &&& n.context.group_id == o.context.group_id
                        &&& n.context.template_type_id == o.context.template_type_id
                        &&& n.context.sources == o.context.sources
                        &&& n.context.path == o.context.path
                        &&& n.context.update_receiver_channel == o.context.update_receiver_channel
                    },
                self.archive == old_self.archive,
                self.events == old_self.events,
                self.monitor_enabled == old_self.monitor_enabled,
                self.group_ids == old_self.group_ids,
                self.item_ids == old_self.item_ids,
            decreases items@.len() - i,
        {
            let ghost before = *self;
            let id = items[i];
            self.notify_edition(id);
            proof {
                let pre = items@.subrange(0, i as int);
                let post = items@.subrange(0, i + 1);
                assert(post.drop_last() =~= pre);
                assert(post.last() == id);
                assert forall|j: int| 0 <= j < old_self.groups@.len() implies {
                    let o = old_self.groups@[j];
                    let n = #[trigger] self.groups@[j];
                    let c = count_of(post, o.context.group_id);
                    &&& n.context.version == (o.context.version + c) % m
                    &&& n.evt_on_update.fence == (o.evt_on_update.fence + 2 * c) % m
                    &&& n.path_hash == o.path_hash
                    &&& n.context.group_id == o.context.group_id
                    &&& n.context.template_type_id == o.context.template_type_id
                    &&& n.context.sources == o.context.sources
                    &&& n.context.path == o.context.path
                    &&& n.context.update_receiver_channel == o.context.update_receiver_channel
                } by {
                    let o = old_self.groups@[j];
                    let b = before.groups@[j];
                    let c = count_of(pre, o.context.group_id);
                    if o.context.group_id == id {
                        lemma_group_index(before, j);
                        lemma_next_version_mod(b.context.version, o.context.version + c);
                        lemma_fence_mod(b.evt_on_update.fence, o.evt_on_update.fence + 2 * c);
                        assert(o.evt_on_update.fence + 2 * c + 2 == o.evt_on_update.fence + 2 * (c + 1));
                    } else {
                        if before.has_group(id) {
                            let k = before.group_index(id);
                            assert(k != j);
                        }
                    }
                }
            }
            i = i + 1;
        }
        proof {
            assert(items@.subrange(0, i as int) =~= items@);
        }
    }

    /// Installs a monitor: from now on events are recorded. Returns whether one was
    /// installed before.
    pub fn reset_monitor(&mut self) -> (r: bool)
        ensures
            r == old(self).monitor_enabled,
            final(self).monitor_enabled,
            final(self).groups == old(self).groups,
            final(self).archive == old(self).archive,
            final(self).events == old(self).events,
            final(self).group_ids == old(self).group_ids,
            final(self).item_ids == old(self).item_ids,
    {
        let r = self.monitor_enabled;
        self.monitor_enabled = true;
        r
    }

    /// Removes the monitor: from now on no event is recorded.
    pub fn unset_monitor(&mut self)
        ensures
            !final(self).monitor_enabled,
            final(self).groups == old(self).groups,
            final(self).archive == old(self).archive,
            final(self).events == old(self).events,
            final(self).group_ids == old(self).group_ids,
            final(self).item_ids == old(self).item_ids,
    {
        self.monitor_enabled = false;
    }

    /// Hands out the recorded events, oldest first, and forgets them.
    pub fn take_events(&mut self) -> (r: Vec<ReplicationEvent>)
        ensures
            r@ == old(self).events@,
            final(self).events@.len() == 0,
            final(self).monitor_enabled == old(self).monitor_enabled,
            final(self).groups == old(self).groups,
            final(self).archive == old(self).archive,
            final(self).group_ids == old(self).group_ids,
            final(self).item_ids == old(self).item_ids,
    {
        let mut r: Vec<ReplicationEvent> = Vec::new();
        std::mem::swap(&mut r, &mut self.events);
        r
    }
}

/* ------------------------------------------------------------------------------------------ */
/*                                           Export                                           */
/* ------------------------------------------------------------------------------------------ */

/// The archive that dumping the contexts of `regs` in order into an empty archive gives.
pub open spec fn dump_all(regs: Seq<GroupRegistration>) -> ArchiveView
    decreases regs.len(),
{
    if regs.len() == 0 {
        crate::archive::empty_view()
    } else {
        dump_into(dump_all(regs.drop_last()), regs.last().context)
    }
}

/// Settings of an export.
#[derive(Debug, Clone, Copy)]
pub struct ExportTask {
    /// On export, the storage collects only the registered groups. When set, the
    /// result is merged onto the cached archive, which keeps the archived data of groups
    /// that are not registered; otherwise only the registered groups are exported.
    pub merge_onto_dumped: bool,
    /// When set, the cached archive is replaced by the exported data. This affects the
    /// next group creation.
    pub replace_import_cache: bool,
}

impl Storage {
    /// An export of this storage, with both settings on.
    pub fn export(&self) -> (r: ExportTask)
        ensures
            r.merge_onto_dumped,
            r.replace_import_cache,
    {
        ExportTask { merge_onto_dumped: true, replace_import_cache: true }
    }
}

impl ExportTask {
    /// Chooses whether the export is merged onto the cached archive.
    pub fn merge_onto_dumped(self, value: bool) -> (r: ExportTask)
        ensures
            r.merge_onto_dumped == value,
            r.replace_import_cache == self.replace_import_cache,
    {
        ExportTask { merge_onto_dumped: value, replace_import_cache: self.replace_import_cache }
    }

    /// Chooses whether the export replaces the cached archive.
    pub fn replace_import_cache(self, value: bool) -> (r: ExportTask)
        ensures
            r.replace_import_cache == value,
            r.merge_onto_dumped == self.merge_onto_dumped,
    {
        ExportTask { merge_onto_dumped: self.merge_onto_dumped, replace_import_cache: value }
    }

    /// Dumps every registered group into a new archive and combines it with the cached
    /// archive as the settings say: merged onto the cache (the live values win over the
    /// cached ones) or not, replacing the cache or not. Returns the exported archive.
    pub fn perform(self, storage: &mut Storage) -> (r: Archive)
        requires
            old(storage).wf(),
        ensures
            final(storage).wf(),
            r.wf(),
            ({
                let d = dump_all(old(storage).groups@);
                let c = old(storage).archive@;
                if !self.merge_onto_dumped {
                    &&& r@ == d
                    &&& final(storage).archive@ == if self.replace_import_cache {
                        d
                    } else {
                        c
                    }
                } else if self.replace_import_cache {
                    &&& r@ == crate::archive::spec_merge(c, d)
                    &&& final(storage).archive@ == r@
                } else {
                    &&& r@ == crate::archive::spec_merge(c, d)
                    &&& final(storage).archive@ == c
                }
            }),
            final(storage).groups == old(storage).groups,
            final(storage).events == old(storage).events,
            final(storage).monitor_enabled == old(storage).monitor_enabled,
            final(storage).group_ids == old(storage).group_ids,
            final(storage).item_ids == old(storage).item_ids,
    {
        let mut archive = Archive::new();
        let mut i: usize = 0;
        proof {
            assert(storage.groups@.subrange(0, 0) =~= Seq::<GroupRegistration>::empty());
        }
        while i < storage.groups.len()
            invariant
                storage.wf(),
                i <= storage.groups@.len(),
                archive.wf(),
                archive@ == dump_all(storage.groups@.subrange(0, i as int)),
            decreases storage.groups@.len() - i,
        {
            proof {
                assert(storage.groups@.subrange(0, i + 1).drop_last() =~= storage.groups@.subrange(0, i as int));
                assert(storage.groups@[i as int].wf());
            }
            dump_node(&storage.groups[i].context, &mut archive);
            i = i + 1;
        }
        proof {
            assert(storage.groups@.subrange(0, i as int) =~= storage.groups@);
        }
        if !self.merge_onto_dumped {
            if self.replace_import_cache {
                storage.archive = archive;
                storage.archive.duplicate()
            } else {
                archive
            }
        } else if self.replace_import_cache {
            storage.archive.merge_onto(archive);
            storage.archive.duplicate()
        } else {
            let cache = storage.archive.duplicate();
            cache.merge(archive)
        }
    }
}

/* ------------------------------------------------------------------------------------------ */
/*                                           Import                                           */
/* ------------------------------------------------------------------------------------------ */

/// The events that importing `a` into the groups `regs` gives: for each group in order,
/// one per entity that its node changes.
pub open spec fn load_events(regs: Seq<GroupRegistration>, a: ArchiveView) -> Seq<ReplicationEvent>
    decreases regs.len(),
{
    if regs.len() == 0 {
        Seq::empty()
    } else {
        let reg = regs.last();
        load_events(regs.drop_last(), a) + match crate::archive::spec_find_path(a, path_view(reg.context.path@)) {
            Some(node) => loaded_ids(reg.context.sources@, node).map_values(
                |id: ItemID| ReplicationEvent::EntityValueUpdated { group_id: reg.context.group_id, item_id: id },
            ),
            None => Seq::empty(),
        }
    }
}

/// `new` is the registration `old` after importing `a`: loaded from the node at its path,
/// where there is one, and its instances told where an entity changed.
pub open spec fn reg_imported(old: GroupRegistration, new: GroupRegistration, a: ArchiveView) -> bool {
    &&& new.path_hash == old.path_hash
    &&& match crate::archive::spec_find_path(a, path_view(old.context.path@)) {
        Some(node) => {
            &&& context_loaded(old.context, new.context, node)
            &&& new.evt_on_update.fence == if loaded_ids(old.context.sources@, node).len() > 0 {
                (old.evt_on_update.fence + 2) % (usize::MAX as int + 1)
            } else {
                old.evt_on_update.fence as int
            }
        },
        None => new == old,
    }
}

/// Loads every group of `groups` from the node of `a` at its path, and tells the group's
/// instances where an entity changed; the changes are recorded in `events` when
/// `monitor` is set.
fn import_groups(groups: &mut Vec<GroupRegistration>, events: &mut Vec<ReplicationEvent>, monitor: bool, a: &Archive)
    requires
        a.wf(),
        forall|j: int| 0 <= j < old(groups)@.len() ==> (#[trigger] old(groups)@[j]).wf(),
    ensures
        final(groups)@.len() == old(groups)@.len(),
        forall|j: int|
            0 <= j < old(groups)@.len() ==> reg_imported(old(groups)@[j], #[trigger] final(groups)@[j], a@)
                && final(groups)@[j].wf(),
        final(events)@ == if monitor {
            old(events)@ + load_events(old(groups)@, a@)
        } else {
            old(events)@
        },
{
    let ghost old_groups = groups@;
    let ghost old_events = events@;
    let mut i: usize = 0;
    proof {
        assert(old_groups.subrange(0, 0) =~= Seq::<GroupRegistration>::empty());
        assert(old_events + Seq::<ReplicationEvent>::empty() =~= old_events);
    }
    while i < groups.len()
        invariant
            a.wf(),
            i <= groups@.len(),
            groups@.len() == old_groups.len(),
            forall|j: int| 0 <= j < old_groups.len() ==> (#[trigger] old_groups[j]).wf(),
            forall|j: int| 0 <= j < i ==> reg_imported(old_groups[j], #[trigger] groups@[j], a@) && groups@[j].wf(),
            forall|j: int| i <= j < groups@.len() ==> #[trigger] groups@[j] == old_groups[j],
            events@ == if monitor {
                old_events + load_events(old_groups.subrange(0, i as int), a@)
            } else {
                old_events
            },
        decreases groups@.len() - i,
    {
        let ghost reg = old_groups[i as int];
        let ghost before_events = events@;
        proof {
            assert(old_groups.subrange(0, i + 1).drop_last() =~= old_groups.subrange(0, i as int));
            assert(old_groups.subrange(0, i + 1).last() == reg);
            assert(groups@[i as int] == reg);
            assert(reg.wf());
        }
        let node_opt: Option<&Archive> = {
            let strs = path_strs(&groups[i].context.path);
            a.find_path(strs.as_slice())
        };
        match node_opt {
            Some(node) => {
                let ids = load_node(&mut groups[i].context, node);
                if ids.len() > 0 {
                    groups[i].evt_on_update.notify();
                }
                if monitor {
                    let group_id = groups[i].context.group_id;
                    let ghost mapped = ids@.map_values(
                        |id: ItemID| ReplicationEvent::EntityValueUpdated { group_id: reg.context.group_id, item_id: id },
                    );
                    let mut k: usize = 0;
                    proof {
                        assert(before_events + mapped.subrange(0, 0) =~= before_events);
                    }
                    while k < ids.len()
                        invariant
                            k <= ids@.len(),
                            group_id == reg.context.group_id,
                            mapped == ids@.map_values(
                                |id: ItemID| ReplicationEvent::EntityValueUpdated { group_id: reg.context.group_id, item_id: id },
                            ),
                            events@ == before_events + mapped.subrange(0, k as int),
                        decreases ids@.len() - k,
                    {
                        events.push(ReplicationEvent::EntityValueUpdated { group_id, item_id: ids[k] });
                        proof {
                            assert(before_events + mapped.subrange(0, k + 1) =~= (before_events + mapped.subrange(0, k as int)).push(mapped[k as int]));
                        }
                        k = k + 1;
                    }
                    proof {
                        assert(mapped.subrange(0, k as int) =~= mapped);
                    }
                }
            },
            None => {},
        }
        proof {
            let post = old_groups.subrange(0, i + 1);
            let pre = old_groups.subrange(0, i as int);
            assert(load_events(post, a@) == load_events(pre, a@) + match crate::archive::spec_find_path(a@, path_view(reg.context.path@)) {
                Some(node) => loaded_ids(reg.context.sources@, node).map_values(
                    |id: ItemID| ReplicationEvent::EntityValueUpdated { group_id: reg.context.group_id, item_id: id },
                ),
                None => Seq::empty(),
            });
            if monitor {
                assert(events@ =~= old_events + load_events(post, a@));
            }
        }
        i = i + 1;
    }
    proof {
        assert(old_groups.subrange(0, i as int) =~= old_groups);
    }
}

/// Settings of an import, which `perform` carries out.
#[derive(Debug)]
pub struct ImportOnDrop {
    /// The imported archive.
    pub archive: Archive,
    /// When set, the imported archive is merged onto the cached archive. Usually useful
    /// to keep archived data that was not saved from being overwritten.
    pub merge_onto_cache: bool,
    /// When set, the imported archive is turned into a patch against the cached archive
    /// before it is applied, so that only what changed is loaded. Otherwise every
    /// property the archive holds is loaded, whether it changed or not.
    pub apply_as_patch: bool,
}

/// What an import applies to the groups, and the cached archive it leaves: `(applied,
/// cache)`, for the cache `c` and the imported archive `i`.
pub open spec fn import_result(c: ArchiveView, i: ArchiveView, merge_onto_cache: bool, apply_as_patch: bool) -> (
    ArchiveView,
    ArchiveView,
) {
    if apply_as_patch {
        let (p, rest) = crate::archive::spec_patch(c, i);
        (p, if merge_onto_cache {
            crate::archive::spec_merge(c, p)
        } else {
            crate::archive::spec_merge(rest, p)
        })
    } else {
        let n = if merge_onto_cache {
            crate::archive::spec_merge(c, i)
        } else {
            i
        };
        (n, n)
    }
}

impl Storage {
    /// An import of `archive` into this storage, with both settings on.
    pub fn import(&self, archive: Archive) -> (r: ImportOnDrop)
        ensures
            r.archive == archive,
            r.merge_onto_cache,
            r.apply_as_patch,
    {
        ImportOnDrop { archive, merge_onto_cache: true, apply_as_patch: true }
    }
}

impl ImportOnDrop {
    /// Sets `merge_onto_cache`.
    pub fn merge_onto_cache(&mut self, value: bool)
        ensures
            final(self).merge_onto_cache == value,
            final(self).apply_as_patch == old(self).apply_as_patch,
            final(self).archive == old(self).archive,
    {
        self.merge_onto_cache = value;
    }

    /// Sets `apply_as_patch`.
    pub fn apply_as_patch(&mut self, value: bool)
        ensures
            final(self).apply_as_patch == value,
            final(self).merge_onto_cache == old(self).merge_onto_cache,
            final(self).archive == old(self).archive,
    {
        self.apply_as_patch = value;
    }

    /// Carries out the import: every registered group is loaded from what the settings
    /// apply, and its instances are told where an entity changed; the cached archive
    /// becomes the one the settings give. Without `merge_onto_cache`, the cache becomes
    /// the imported archive, whether or not it is applied as a patch.
    pub fn perform(self, storage: &mut Storage)
        requires
            old(storage).wf(),
            self.archive.wf(),
        ensures
            final(storage).wf(),
            ({
                let (applied, cache) = import_result(
                    old(storage).archive@,
                    self.archive@,
                    self.merge_onto_cache,
                    self.apply_as_patch,
                );
                &&& final(storage).archive@ == cache
                &&& final(storage).groups@.len() == old(storage).groups@.len()
                &&& forall|j: int|
                    0 <= j < old(storage).groups@.len() ==> reg_imported(
                        old(storage).groups@[j],
                        #[trigger] final(storage).groups@[j],
                        applied,
                    )
                &&& final(storage).events@ == old(storage).events_with(load_events(old(storage).groups@, applied))
            }),
            !self.merge_onto_cache ==> final(storage).archive@ == self.archive@,
            final(storage).monitor_enabled == old(storage).monitor_enabled,
            final(storage).group_ids == old(storage).group_ids,
            final(storage).item_ids == old(storage).item_ids,
    {
        let ghost old_s = *storage;
        proof {
            assert forall|j: int| 0 <= j < storage.groups@.len() implies (#[trigger] storage.groups@[j]).wf() by {}
        }
        let mut imported = self.archive;
        if self.apply_as_patch {
            let patch = storage.archive.create_patch(&mut imported);
            import_groups(&mut storage.groups, &mut storage.events, storage.monitor_enabled, &patch);
            if self.merge_onto_cache {
                storage.archive.merge_onto(patch);
            } else {
                imported.merge_onto(patch);
                storage.archive = imported;
                proof {
                    crate::archive::lemma_patch_partitions(old_s.archive@, self.archive@);
                }
            }
        } else {
            if self.merge_onto_cache {
                storage.archive.merge_onto(imported);
            } else {
                storage.archive = imported;
            }
            let ghost applied = storage.archive@;
            let mut cache = Archive::new();
            std::mem::swap(&mut cache, &mut storage.archive);
            import_groups(&mut storage.groups, &mut storage.events, storage.monitor_enabled, &cache);
            storage.archive = cache;
        }
        proof {
            assert forall|j: int| 0 <= j < old_s.groups@.len() implies {
                &&& (#[trigger] storage.groups@[j]).path_hash == old_s.groups@[j].path_hash
                &&& storage.groups@[j].context.group_id == old_s.groups@[j].context.group_id
                &&& storage.groups@[j].context.path == old_s.groups@[j].context.path
                &&& storage.groups@[j].evt_on_update.wf()
            } by {
                let a = import_result(old_s.archive@, self.archive@, self.merge_onto_cache, self.apply_as_patch).0;
                assert(reg_imported(old_s.groups@[j], storage.groups@[j], a));
                assert(storage.groups@[j].wf());
                match crate::archive::spec_find_path(a, path_view(old_s.groups@[j].context.path@)) {
                    Some(node) => {},
                    None => {},
                }
            }
            let mid = Storage { archive: old_s.archive, ..*storage };
            lemma_same_shape_keeps_wf(old_s, mid);
        }
    }
}

/// Whether or not an import goes through a patch, merging onto the cache leaves caches
/// that hold the same categories and values that count as the same.
pub proof fn lemma_import_patch_same_cache(c: ArchiveView, i: ArchiveView)
    ensures
        crate::archive::equiv(import_result(c, i, true, true).1, import_result(c, i, true, false).1),
{
    crate::archive::lemma_patch_applies(c, i);
}

/// An import that does not merge onto the cache leaves the imported archive as the
/// cache, whether or not it goes through a patch.
pub proof fn lemma_import_replaces_cache(c: ArchiveView, i: ArchiveView, apply_as_patch: bool)
    ensures
        import_result(c, i, false, apply_as_patch).1 == i,
{
    crate::archive::lemma_patch_partitions(c, i);
}

/// A property marked `no_import` keeps its value through an import, so that a value
/// taken from the environment when the group was made stays.
pub proof fn lemma_no_import_keeps_value(
    old: GroupRegistration,
    new: GroupRegistration,
    a: ArchiveView,
    k: int,
)
    requires
        reg_imported(old, new, a),
        0 <= k < old.context.sources@.len(),
        old.context.sources@[k].meta.props.flags.spec_contains(NO_IMPORT),
    ensures
        new.context.sources@[k].value == old.context.sources@[k].value,
{
    match crate::archive::spec_find_path(a, path_view(old.context.path@)) {
        Some(node) => {
            assert(loaded(old.context.sources@[k], new.context.sources@[k], node));
        },
        None => {},
    }
}

/// Importing an archive with the default settings makes the cache the old cache merged
/// with the archive, up to values that are equal as JSON values; importing the same
/// archive a second time changes no group and leaves the cache as the first import left
/// it. Holds where every
/// value of the archive is valid JSON, so that it equals itself.
pub proof fn lemma_import_twice(c: ArchiveView, a: ArchiveView, old: GroupRegistration, new: GroupRegistration)
    requires
        crate::archive::self_equal(a),
        old.wf(),
        reg_imported(old, new, import_result(import_result(c, a, true, true).1, a, true, true).0),
    ensures
        crate::archive::equiv(import_result(c, a, true, true).1, crate::archive::spec_merge(c, a)),
        new == old,
        import_result(import_result(c, a, true, true).1, a, true, true).1 == import_result(c, a, true, true).1,
{
    crate::archive::lemma_patch_applies(c, a);
    let c1 = import_result(c, a, true, true).1;
    let p2 = crate::archive::spec_patch(c1, a).0;
    crate::archive::lemma_patch_after_patch(c, a);
    crate::archive::lemma_view_is_empty(p2);
    crate::archive::lemma_merge_right_empty(c1);
    let path = path_view(old.context.path@);
    assert(path.len() > 0);
    assert(crate::archive::spec_find_path(p2, path) is None);
}

/// A value committed with notification reaches every other instance that was in step
/// with the group: its next update reports an update and brings the value, marking the
/// property dirty.
pub proof fn lemma_commit_reaches_instances(
    r0: GroupRegistration,
    r1: GroupRegistration,
    index: int,
    value: EntityValue,
    g0: Group,
    g1: Group,
    u: bool,
)
    requires
        0 <= index < r0.context.sources@.len(),
        committed(r0, r1, index, value, true),
        g0.matches(r0.context),
        g0.version_cached == r0.context.version,
        g0.local@[index].update_fence == r0.context.sources@[index].version,
        crate::config::updated_from(g0, g1, r1.context, u),
    ensures
        u,
        same_value(g1.body@[index], value),
        g1.local@[index].dirty_flag,
{
    assert(r1.context.sources@[index].version != g0.local@[index].update_fence);
}

/// A commit with notification reaches an instance that was made fresh from the same
/// registration, as `find` or `create` make one, and updated once since: its next update
/// reports an update and brings the value, marking the property dirty. Holds while the
/// versions involved have not wrapped around to 0.
pub proof fn lemma_commit_reaches_fresh_instance(
    r0: GroupRegistration,
    r1: GroupRegistration,
    t: Template,
    index: int,
    value: EntityValue,
    g0: Group,
    g1: Group,
    u1: bool,
    g2: Group,
    u2: bool,
)
    requires
        0 <= index < r0.context.sources@.len(),
        fresh_instance(g0, r0.context, t),
        crate::config::updated_from(g0, g1, r0.context, u1),
        committed(r0, r1, index, value, true),
        crate::config::updated_from(g1, g2, r1.context, u2),
        r0.context.version < usize::MAX,
        r0.context.sources@[index].version < usize::MAX,
    ensures
        u2,
        same_value(g2.body@[index], value),
        g2.local@[index].dirty_flag,
{
    assert(g0.local@[index].update_fence == 0);
    assert(r1.context.sources@[index].version == r0.context.sources@[index].version + 1);
    if r0.context.version == g0.version_cached {
        assert(g1.local@[index] == g0.local@[index]);
    } else {
        assert(g1.local@[index].update_fence == r0.context.sources@[index].version);
    }
    assert(r1.context.sources@[index].version != g1.local@[index].update_fence);
    assert(r1.context.version != g1.version_cached);
}

/// A value committed without notification stays out of instances that were in step with
/// the group: their next update reports nothing and changes nothing.
pub proof fn lemma_silent_commit_stays_out(
    r0: GroupRegistration,
    r1: GroupRegistration,
    index: int,
    value: EntityValue,
    g0: Group,
    g1: Group,
    u: bool,
)
    requires
        0 <= index < r0.context.sources@.len(),
        committed(r0, r1, index, value, false),
        g0.version_cached == r0.context.version,
        crate::config::updated_from(g0, g1, r1.context, u),
    ensures
        !u,
        g1.body@ == g0.body@,
        g1.local@ == g0.local@,
{
}

/// No two entities carry the same name.
pub open spec fn distinct_names(s: Seq<EntityData>) -> bool {
    forall|i: int, j: int|
        0 <= i < s.len() && 0 <= j < s.len() && i != j ==> (#[trigger] s[i]).meta.props.name@ != (
        #[trigger] s[j]).meta.props.name@
}

/// Among entities with distinct names, the dump holds an exported entity's value under
/// its name.
proof fn lemma_dumped_value(s: Seq<EntityData>, k: int)
    requires
        distinct_names(s),
        0 <= k < s.len(),
        !s[k].meta.props.flags.spec_contains(NO_EXPORT),
    ensures
        dumped_values(s).contains_key(s[k].meta.props.name@),
        dumped_values(s)[s[k].meta.props.name@] == crate::entity::value_text(s[k].value),
    decreases s.len(),
{
    if k < s.len() - 1 {
        assert(distinct_names(s.drop_last())) by {
            assert forall|i: int, j: int|
                0 <= i < s.drop_last().len() && 0 <= j < s.drop_last().len() && i != j implies (
                #[trigger] s.drop_last()[i]).meta.props.name@ != (#[trigger] s.drop_last()[j]).meta.props.name@ by {
                assert(s.drop_last()[i] == s[i] && s.drop_last()[j] == s[j]);
            }
        }
        assert(s.drop_last()[k] == s[k]);
        lemma_dumped_value(s.drop_last(), k);
        assert(s.last() == s[s.len() - 1]);
        assert(s.last().meta.props.name@ != s[k].meta.props.name@);
    }
}

/// What a dump writes, a load reads back: loading a context from the node that dumping it
/// wrote gives back the value of each entity that is exported and imported, whose kind
/// holds its value, which is accepted as it is, and whose JSON text reads back (as that
/// of every integer, string and boolean does); the entities' names must be distinct.
pub proof fn lemma_dump_then_load(a: ArchiveView, c: GroupContext, k: int)
    requires
        c.path@.len() > 0,
        distinct_names(c.sources@),
        0 <= k < c.sources@.len(),
        !c.sources@[k].meta.props.flags.spec_contains(NO_EXPORT),
        !c.sources@[k].meta.props.flags.spec_contains(NO_IMPORT),
        crate::entity::fits(c.sources@[k].meta.vtable.kind, c.sources@[k].value),
        !(c.sources@[k].value is Json),
        crate::entity::reads_back(c.sources@[k].value),
        crate::entity::spec_validate(c.sources@[k].meta.vtable, c.sources@[k].value) == Some(true),
    ensures
        ({
            let node = crate::archive::spec_find_path(dump_into(a, c), path_view(c.path@));
            &&& node is Some
            &&& meta_loads(*c.sources@[k].meta, node->0)
            &&& same_value(loaded_value(*c.sources@[k].meta, node->0), c.sources@[k].value)
        }),
{
    let e = c.sources@[k];
    let p = path_view(c.path@);
    let x = ArchiveView { paths: crate::archive::node_at(a, p).paths, values: dumped_values(c.sources@) };
    crate::archive::lemma_find_after_put(a, p, x);
    lemma_dumped_value(c.sources@, k);
    crate::entity::lemma_decode_own_text(e.spec_vtable().kind, e.value);
    let w = crate::entity::spec_decode(e.spec_vtable().kind, crate::entity::value_text(e.value))->Some_0;
    crate::entity::lemma_same_value(e.spec_vtable(), w, e.value);
}

} // verus!
