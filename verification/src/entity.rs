//! Configuration entities: the metadata of a property, its typed value, and the central
//! copy of a value that every group instance reads from.
use vstd::prelude::*;

use std::sync::Arc;

use crate::common::ItemID;
use crate::json::{
    decimal, i64_text, json_bool_of, json_bool_text, json_canonical, json_canonical_of,
    json_i64_of, json_quote, json_quoted, json_string_of, json_to_bool, json_to_i64,
    json_to_string, json_value_eq, json_values_equal,
};
use crate::text::{lemma_lt_irreflexive, seq_lt, str_lt};

verus! {

/* ---------------------------------------------------------------------------------------- */
/*                                          Flags                                           */
/* ---------------------------------------------------------------------------------------- */

/// Disable import from `import` operation.
pub const NO_IMPORT: u32 = 1;
/// Disable export to `export` operation.
pub const NO_EXPORT: u32 = 2;
/// Hint monitor that this variable should be hidden from user.
pub const HIDDEN: u32 = 4;
/// Hint monitor that this variable should only be read by admin.
pub const ADMIN_READ: u32 = 8;
/// Hint monitor that this variable should only be written by admin.
pub const ADMIN_WRITE: u32 = 24;
/// Hint monitor that this is admin-only variable.
pub const ADMIN: u32 = 24;
/// The variable is neither imported nor exported.
pub const TRANSIENT: u32 = 3;

/// A set of metadata flags.
#[derive(Debug, Clone, Copy, PartialEq, Eq, Structural)]
pub struct MetaFlag {
    pub bits: u32,
}

impl MetaFlag {
    /// Whether every flag of `other` is set here.
    pub open spec fn spec_contains(self, other: u32) -> bool {
        self.bits & other == other
    }

    /// The flags given by `bits`.
    pub fn from_bits(bits: u32) -> (r: MetaFlag)
        ensures
            r.bits == bits,
    {
        MetaFlag { bits }
    }

    /// No flag set.
    pub fn empty() -> (r: MetaFlag)
        ensures
            r.bits == 0,
    {
        MetaFlag { bits: 0 }
    }

    /// Whether every flag of `other` is set here.
    pub fn contains(&self, other: u32) -> (r: bool)
        ensures
            r == self.spec_contains(other),
    {
        self.bits & other == other
    }
}

/* ---------------------------------------------------------------------------------------- */
/*                                         Metadata                                         */
/* ---------------------------------------------------------------------------------------- */

/// Hint for backend editor. This is not used by config-it itself.
#[derive(Debug)]
pub enum MetadataEditorHint {
    /// For color in range [0.0, 1.0]: `[number; 3]` for RGB, `[number; 4]` for RGBA.
    ColorRgba255,
    /// For color in range [0, 255]: arrays, hex strings or 32 bit integers.
    ColorRgbaReal,
    /// Any string type will be treated as multiline text.
    MultilineText,
    /// Any string type will be treated as code, with given language hint.
    Code(String),
}

/// Shared generic properties of this metadata entity.
#[derive(Debug)]
pub struct MetadataProps {
    /// Identifier for this config entity: its name in archives.
    pub name: String,
    /// Typename for this config entity.
    pub value_type: String,
    pub flags: MetaFlag,
    /// Hint for monitoring editor.
    pub editor_hint: Option<MetadataEditorHint>,
    /// Optional JSON schema, as JSON text.
    pub schema: Option<String>,
    /// Source variable name. Usually same as `name` unless an alias is given.
    pub varname: String,
    pub description: String,
    /// Environment variable name.
    pub env: Option<String>,
}

/// The type of a property's value, as far as reading and checking values goes.
#[derive(Debug, Clone, Copy, PartialEq, Eq, Structural)]
pub enum ValueKind {
    /// An integer type whose values lie in `min..=max`.
    Integer { min: i64, max: i64 },
    /// A string.
    Text,
    /// A boolean.
    Boolean,
    /// Any other serializable type, read as an arbitrary JSON value.
    Json,
}

/// A typed property value.
#[derive(Debug)]
pub enum EntityValue {
    Integer(i64),
    Text(String),
    Boolean(bool),
    /// A value of any other type, as compact JSON text.
    Json(String),
}

/// How a property's values are made, read and checked: its type, default and constraints.
#[derive(Debug)]
pub struct MetadataVTableImpl {
    pub impl_copy: bool,
    pub kind: ValueKind,
    pub default_value: EntityValue,
    /// Lower limit; values below it are raised to it. Integers, strings and booleans are
    /// ordered; a limit of another kind than the value leaves the value alone.
    pub min: Option<EntityValue>,
    /// Upper limit; values above it are lowered to it.
    pub max: Option<EntityValue>,
    /// Allowed values, as JSON texts; any other value is refused.
    pub one_of: Option<Vec<String>>,
}

/// Metadata for configuration entity. This can be used as template for multiple config
/// entity instances.
#[derive(Debug)]
pub struct Metadata {
    pub type_id: u64,
    pub props: MetadataProps,
    pub vtable: MetadataVTableImpl,
}

impl Metadata {
    /// The metadata of a property of the type whose identity is `type_id`: its props, and
    /// the value rules of `init`.
    pub fn create_for_base_type(init: MetadataVTableImpl, props: MetadataProps, type_id: u64) -> (r: Metadata)
        ensures
            r.type_id == type_id,
            r.props == props,
            r.vtable == init,
    {
        Metadata { type_id, props, vtable: init }
    }
}

/// The JSON text of a value.
pub open spec fn value_text(v: EntityValue) -> Seq<char> {
    match v {
        EntityValue::Integer(i) => decimal(i as int),
        EntityValue::Text(s) => json_quoted(s@),
        EntityValue::Boolean(b) => if b {
            seq!['t', 'r', 'u', 'e']
        } else {
            seq!['f', 'a', 'l', 's', 'e']
        },
        EntityValue::Json(s) => s@,
    }
}

/// The value of kind `kind` that `serde_json` reads from a text, if it reads one.
pub open spec fn spec_decode(kind: ValueKind, text: Seq<char>) -> Option<EntityValue> {
    match kind {
        ValueKind::Integer { min, max } => match json_i64_of(text) {
            Some(i) => if min <= i <= max {
                Some(EntityValue::Integer(i))
            } else {
                None
            },
            None => None,
        },
        ValueKind::Text => match json_string_of(text) {
            Some(s) => Some(EntityValue::Text(choose|t: String| t@ == s)),
            None => None,
        },
        ValueKind::Boolean => match json_bool_of(text) {
            Some(b) => Some(EntityValue::Boolean(b)),
            None => None,
        },
        ValueKind::Json => match json_canonical_of(text) {
            Some(s) => Some(EntityValue::Json(choose|t: String| t@ == s)),
            None => None,
        },
    }
}

/// The JSON text of the value reads back as the value: for integers, strings and
/// booleans.
pub open spec fn reads_back(v: EntityValue) -> bool {
    match v {
        EntityValue::Integer(i) => json_i64_of(value_text(v)) == Some(i),
        EntityValue::Text(s) => json_string_of(value_text(v)) == Some(s@),
        EntityValue::Boolean(b) => json_bool_of(value_text(v)) == Some(b),
        EntityValue::Json(_) => true,
    }
}

/// A value that reads back, of a kind that holds it, decodes from its own JSON text as
/// itself.
pub proof fn lemma_decode_own_text(kind: ValueKind, v: EntityValue)
    requires
        reads_back(v),
        fits(kind, v),
        !(v is Json),
    ensures
        spec_decode(kind, value_text(v)) matches Some(w) && same_value(w, v),
{
}

/// Whether a kind holds a value: integers within its range, strings, booleans, and any
/// JSON value.
pub open spec fn fits(kind: ValueKind, v: EntityValue) -> bool {
    match (kind, v) {
        (ValueKind::Integer { min, max }, EntityValue::Integer(i)) => min <= i <= max,
        (ValueKind::Text, EntityValue::Text(_)) => true,
        (ValueKind::Boolean, EntityValue::Boolean(_)) => true,
        (ValueKind::Json, EntityValue::Json(_)) => true,
        _ => false,
    }
}

/// Two values are the same value: same variant and same content.
pub open spec fn same_value(a: EntityValue, b: EntityValue) -> bool {
    match (a, b) {
        (EntityValue::Integer(x), EntityValue::Integer(y)) => x == y,
        (EntityValue::Text(x), EntityValue::Text(y)) => x@ == y@,
        (EntityValue::Boolean(x), EntityValue::Boolean(y)) => x == y,
        (EntityValue::Json(x), EntityValue::Json(y)) => x@ == y@,
        _ => false,
    }
}

/// Whether `a` comes before `b`: integers by value, strings in code-point order, `false`
/// before `true`. Values of different kinds, and JSON values, are not ordered.
pub open spec fn value_lt(a: EntityValue, b: EntityValue) -> bool {
    match (a, b) {
        (EntityValue::Integer(x), EntityValue::Integer(y)) => x < y,
        (EntityValue::Text(x), EntityValue::Text(y)) => seq_lt(x@, y@),
        (EntityValue::Boolean(x), EntityValue::Boolean(y)) => !x && y,
        _ => false,
    }
}

/// A value after the lower limit is applied.
pub open spec fn raised(vt: MetadataVTableImpl, v: EntityValue) -> EntityValue {
    match vt.min {
        Some(m) => if value_lt(v, m) {
            m
        } else {
            v
        },
        None => v,
    }
}

/// A value after the limits are applied: raised to `min`, then lowered to `max`.
pub open spec fn clamped(vt: MetadataVTableImpl, v: EntityValue) -> EntityValue {
    let a = raised(vt, v);
    match vt.max {
        Some(m) => if value_lt(m, a) {
            m
        } else {
            a
        },
        None => a,
    }
}

/// Whether applying the limits changed the value.
pub open spec fn was_clamped(vt: MetadataVTableImpl, v: EntityValue) -> bool {
    ||| (vt.min matches Some(m) && value_lt(v, m))
    ||| (vt.max matches Some(m) && value_lt(m, raised(vt, v)))
}

/// No value comes before itself.
pub proof fn lemma_value_lt_irreflexive(v: EntityValue)
    ensures
        !value_lt(v, v),
{
    if let EntityValue::Text(x) = v {
        lemma_lt_irreflexive(x@);
    }
}

/// Values that are the same are ordered alike.
pub proof fn lemma_value_lt_same(a: EntityValue, b: EntityValue, c: EntityValue)
    requires
        same_value(a, b),
    ensures
        value_lt(a, c) == value_lt(b, c),
        value_lt(c, a) == value_lt(c, b),
{
}

/// Whether a value is allowed by the list of allowed values, if there is one.
pub open spec fn allowed(vt: MetadataVTableImpl, v: EntityValue) -> bool {
    match vt.one_of {
        None => true,
        Some(list) => exists|i: int| 0 <= i < list@.len() && json_value_eq(#[trigger] list@[i]@, value_text(v)),
    }
}

/// The outcome of checking a value: `None` when it is refused; otherwise whether it was
/// already within the limits.
pub open spec fn spec_validate(vt: MetadataVTableImpl, v: EntityValue) -> Option<bool> {
    if !allowed(vt, clamped(vt, v)) {
        None
    } else {
        Some(!was_clamped(vt, v))
    }
}

/// Values that are the same behave the same under every check.
pub proof fn lemma_same_value(vt: MetadataVTableImpl, a: EntityValue, b: EntityValue)
    requires
        same_value(a, b),
    ensures
        value_text(a) == value_text(b),
        same_value(clamped(vt, a), clamped(vt, b)),
        value_text(clamped(vt, a)) == value_text(clamped(vt, b)),
        was_clamped(vt, a) == was_clamped(vt, b),
        spec_validate(vt, a) == spec_validate(vt, b),
{
}

/// Types that describe their values with a JSON schema.
pub trait HasSchema {
    /// The schema, as JSON text.
    fn get_schema(&self) -> Option<String>;
}

/// The fallback for types without a schema.
pub trait NoSchema {
    /// No schema.
    fn get_schema(&self) -> (r: Option<String>)
        ensures
            r is None,
    ;
}

impl<T> NoSchema for &T {
    fn get_schema(&self) -> (r: Option<String>) {
        None
    }
}

/// A checked value lies within the limits: not above `max`, and not below `min` where
/// the limits do not contradict each other.
pub proof fn lemma_clamped_within(vt: MetadataVTableImpl, v: EntityValue)
    ensures
        vt.max is Some ==> !value_lt(vt.max.unwrap(), clamped(vt, v)),
        vt.min is Some && (vt.max is None || !value_lt(vt.max.unwrap(), vt.min.unwrap())) ==> !value_lt(
            clamped(vt, v),
            vt.min.unwrap(),
        ),
{
    if let Some(m) = vt.max {
        lemma_value_lt_irreflexive(m);
    }
    if let Some(m) = vt.min {
        lemma_value_lt_irreflexive(m);
    }
}

/// Checking a value twice is checking it once: where the limits do not contradict each
/// other, a corrected value needs no more correction, and an accepted value stays
/// accepted.
pub proof fn lemma_validate_idempotent(vt: MetadataVTableImpl, v: EntityValue)
    requires
        vt.min is None || vt.max is None || !value_lt(vt.max.unwrap(), vt.min.unwrap()),
    ensures
        same_value(clamped(vt, clamped(vt, v)), clamped(vt, v)),
        !was_clamped(vt, clamped(vt, v)),
        spec_validate(vt, v) is Some ==> spec_validate(vt, clamped(vt, v)) == Some(true),
{
    let c = clamped(vt, v);
    lemma_clamped_within(vt, v);
    assert(raised(vt, c) == c);
    assert(clamped(vt, c) == c);
}

/// Whether `a` comes before `b`; see [`value_lt`].
fn value_less(a: &EntityValue, b: &EntityValue) -> (r: bool)
    ensures
        r == value_lt(*a, *b),
{
    match (a, b) {
        (EntityValue::Integer(x), EntityValue::Integer(y)) => *x < *y,
        (EntityValue::Text(x), EntityValue::Text(y)) => str_lt(x.as_str(), y.as_str()),
        (EntityValue::Boolean(x), EntityValue::Boolean(y)) => !*x && *y,
        _ => false,
    }
}

impl EntityValue {
    /// A copy of this value.
    pub fn duplicate(&self) -> (r: EntityValue)
        ensures
            same_value(r, *self),
            value_text(r) == value_text(*self),
    {
        match self {
            EntityValue::Integer(i) => EntityValue::Integer(*i),
            EntityValue::Text(s) => EntityValue::Text(s.clone()),
            EntityValue::Boolean(b) => EntityValue::Boolean(*b),
            EntityValue::Json(s) => EntityValue::Json(s.clone()),
        }
    }

    /// The value as JSON text. Integers, strings and booleans read back from it as
    /// themselves.
    pub fn to_json(&self) -> (r: String)
        ensures
            r@ == value_text(*self),
            reads_back(*self),
    {
        match self {
            EntityValue::Integer(i) => i64_text(*i),
            EntityValue::Text(s) => json_quote(s.as_str()),
            EntityValue::Boolean(b) => json_bool_text(*b),
            EntityValue::Json(s) => s.clone(),
        }
    }
}

impl MetadataVTableImpl {
    /// Does the value type implement `Copy`?
    pub fn implements_copy(&self) -> (r: bool)
        ensures
            r == self.impl_copy,
    {
        self.impl_copy
    }

    /// Creates the default value for this config entity.
    pub fn create_default(&self) -> (r: EntityValue)
        ensures
            same_value(r, self.default_value),
    {
        self.default_value.duplicate()
    }

    /// Reads a value of this entity's type from JSON text.
    pub fn deserialize(&self, text: &str) -> (r: Option<EntityValue>)
        ensures
            match (r, spec_decode(self.kind, text@)) {
                (Some(a), Some(b)) => same_value(a, b),
                (None, None) => true,
                _ => false,
            },
    {
        match self.kind {
            ValueKind::Integer { min, max } => match json_to_i64(text) {
                Some(i) => if min <= i && i <= max {
                    Some(EntityValue::Integer(i))
                } else {
                    None
                },
                None => None,
            },
            ValueKind::Text => match json_to_string(text) {
                Some(s) => Some(EntityValue::Text(s)),
                None => None,
            },
            ValueKind::Boolean => match json_to_bool(text) {
                Some(b) => Some(EntityValue::Boolean(b)),
                None => None,
            },
            ValueKind::Json => match json_canonical(text) {
                Some(s) => Some(EntityValue::Json(s)),
                None => None,
            },
        }
    }

    /// Checks a value against the limits and the allowed values: raises it to `min`,
    /// lowers it to `max`, then refuses it (`None`) where it is not allowed. `Some(false)`
    /// tells that the value was corrected, `Some(true)` that it was within the limits.
    pub fn validate(&self, value: &mut EntityValue) -> (r: Option<bool>)
        ensures
            same_value(*final(value), clamped(*self, *old(value))),
            r == spec_validate(*self, *old(value)),
    {
        let mut result = true;
        let ghost v0 = *old(value);
        if let Some(m) = &self.min {
            if value_less(value, m) {
                *value = m.duplicate();
                result = false;
            }
        }
        if let Some(m) = &self.max {
            let ghost before = *value;
            if value_less(m, value) {
                *value = m.duplicate();
                result = false;
            }
            proof {
                lemma_value_lt_same(before, raised(*self, v0), *m);
            }
        }
        match &self.one_of {
            Some(list) => {
                let text = value.to_json();
                let mut found = false;
                let mut k: usize = 0;
                while k < list.len()
                    invariant
                        k <= list@.len(),
                        found == exists|j: int| 0 <= j < k && json_value_eq(#[trigger] list@[j]@, text@),
                    decreases list@.len() - k,
                {
                    if json_values_equal(list[k].as_str(), text.as_str()) {
                        found = true;
                    }
                    k = k + 1;
                }
                if !found {
                    return None;
                }
            },
            None => {},
        }
        Some(result)
    }
}

/* ---------------------------------------------------------------------------------------- */
/*                                       Entity data                                        */
/* ---------------------------------------------------------------------------------------- */

/// Why an update of an entity's value from serialized data failed.
#[derive(Debug, Clone, Copy, PartialEq, Eq, Structural)]
pub enum EntityUpdateError {
    /// The value was read but refused by the entity's constraints.
    ValueValidationFailed,
    /// The data is no value of the entity's type.
    DeserializeFailed,
}

/// The central value of a configuration entity, shared by every instance of its group.
/// Its version grows by one with every applied value.
#[derive(Debug)]
pub struct EntityData {
    /// Unique entity id for program run-time.
    pub id: ItemID,
    pub meta: Arc<Metadata>,
    pub version: usize,
    pub value: EntityValue,
}

/// The outcome of updating an entity from a text: the value applied and whether it was
/// within the limits, or the error.
pub open spec fn spec_update_from(meta: Metadata, text: Seq<char>) -> Result<(EntityValue, bool), EntityUpdateError> {
    match spec_decode(meta.vtable.kind, text) {
        None => Err(EntityUpdateError::DeserializeFailed),
        Some(v) => match spec_validate(meta.vtable, v) {
            None => Err(EntityUpdateError::ValueValidationFailed),
            Some(clean) => Ok((clamped(meta.vtable, v), clean)),
        },
    }
}

/// Calls `Arc::clone`, which makes another pointer to the same allocation: the clone holds
/// the same value.
#[verifier::external_body]
pub(crate) fn share<T>(a: &Arc<T>) -> (r: Arc<T>)
    ensures
        r == *a,
{
    a.clone()
}

/// The version that follows `v`, wrapping around.
pub open spec fn next_version(v: usize) -> usize {
    if v == usize::MAX {
        0
    } else {
        (v + 1) as usize
    }
}

impl EntityData {
    /// How the entity's values are read and checked.
    pub open spec fn spec_vtable(self) -> MetadataVTableImpl {
        self.meta.vtable
    }

    /// A new entity holding its default value, at version 0.
    pub fn new(meta: Arc<Metadata>, id: ItemID) -> (r: EntityData)
        ensures
            r.id == id,
            r.meta == meta,
            r.version == 0,
            same_value(r.value, meta.vtable.default_value),
    {
        let value = meta.vtable.create_default();
        EntityData { id, meta, version: 0, value }
    }

    pub fn get_id(&self) -> (r: ItemID)
        ensures
            r == self.id,
    {
        self.id
    }

    pub fn get_meta(&self) -> (r: &Metadata)
        ensures
            *r == *self.meta,
    {
        &*self.meta
    }

    /// The version of the value.
    pub fn get_update_fence(&self) -> (r: usize)
        ensures
            r == self.version,
    {
        self.version
    }

    /// The metadata and a copy of the value.
    pub fn get_value(&self) -> (r: (&Metadata, EntityValue))
        ensures
            *r.0 == *self.meta,
            same_value(r.1, self.value),
    {
        (&*self.meta, self.value.duplicate())
    }

    /// Replaces the value and moves the version on by one.
    pub fn apply_value(&mut self, value: EntityValue)
        ensures
            final(self).value == value,
            final(self).version == next_version(old(self).version),
            final(self).id == old(self).id,
            final(self).meta == old(self).meta,
    {
        self.value = value;
        self.version = self.version.wrapping_add(1);
    }

    /// Updates the value by reading JSON text: `Ok(true)` when the value read was within
    /// the limits, `Ok(false)` when it was corrected to them; on an error nothing changes.
    pub fn update_value_from(&mut self, text: &str) -> (r: Result<bool, EntityUpdateError>)
        ensures
            final(self).id == old(self).id,
            final(self).meta == old(self).meta,
            match (r, spec_update_from(*old(self).meta, text@)) {
                (Ok(clean), Ok((v, c))) => clean == c && same_value(final(self).value, v)
                    && final(self).version == next_version(old(self).version),
                (Err(e), Err(f)) => e == f && final(self).version == old(self).version
                    && final(self).value == old(self).value,
                _ => false,
            },
    {
        match self.meta.vtable.deserialize(text) {
            Some(mut built) => {
                let ghost decoded = built;
                proof {
                        let d = spec_decode(self.meta.vtable.kind, text@).unwrap();
                        lemma_same_value(self.spec_vtable(), decoded, d);
                    }
                    match self.meta.vtable.validate(&mut built) {
                    Some(clean) => {
                        self.apply_value(built);
                        Ok(clean)
                    },
                    None => Err(EntityUpdateError::ValueValidationFailed),
                }
            },
            None => Err(EntityUpdateError::DeserializeFailed),
        }
    }
}

} // verus!
