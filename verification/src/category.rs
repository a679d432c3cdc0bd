//! How category names are told apart from value names in serialized archives.
use vstd::prelude::*;

use crate::text::{ends_with, push_str, starts_with, string_clear};

verus! {

/// An archive is serialized as a map whose keys name both child categories and values.
/// A category's key is marked by this rule; the default rule prefixes it with `~`, so
/// that a category `hello` is written `~hello`.
pub enum CategoryRule {
    /// Category name is prefixed with this token.
    Prefix(&'static str),
    /// Category name is suffixed with this token.
    Suffix(&'static str),
    /// Category name is wrapped with these tokens.
    Wrap(&'static str, &'static str),
}

/// `s` ends with `t`.
pub open spec fn is_suffix(t: Seq<char>, s: Seq<char>) -> bool {
    t.len() <= s.len() && s.subrange(s.len() - t.len(), s.len() as int) == t
}

/// Whether a key marks a category under `rule`.
pub open spec fn spec_is_category(rule: CategoryRule, key: Seq<char>) -> bool {
    match rule {
        CategoryRule::Prefix(p) => p@.is_prefix_of(key),
        CategoryRule::Suffix(t) => is_suffix(t@, key),
        CategoryRule::Wrap(p, t) => p@.is_prefix_of(key) && is_suffix(t@, key),
    }
}

/// The key under which `rule` writes the category `key`.
pub open spec fn spec_make_category(rule: CategoryRule, key: Seq<char>) -> Seq<char> {
    match rule {
        CategoryRule::Prefix(p) => p@ + key,
        CategoryRule::Suffix(t) => key + t@,
        CategoryRule::Wrap(p, t) => p@ + key + t@,
    }
}

/// The name of the category that the key `key` marks under `rule`: the key without the
/// rule's marks. Where a wrapping rule's two marks overlap in the key, the name is empty.
pub open spec fn spec_category_name(rule: CategoryRule, key: Seq<char>) -> Seq<char> {
    match rule {
        CategoryRule::Prefix(p) => key.subrange(p@.len() as int, key.len() as int),
        CategoryRule::Suffix(t) => key.subrange(0, key.len() - t@.len()),
        CategoryRule::Wrap(p, t) => if key.len() - t@.len() >= p@.len() {
            key.subrange(p@.len() as int, key.len() - t@.len())
        } else {
            Seq::empty()
        },
    }
}

impl Default for CategoryRule {
    fn default() -> (r: Self)
        ensures
            r matches CategoryRule::Prefix(p) && p@ == seq!['~'],
    {
        proof {
            reveal_strlit("~");
        }
        CategoryRule::Prefix("~")
    }
}

impl CategoryRule {
    /// Whether `key` marks a category under this rule.
    pub fn is_category(&self, key: &str) -> (r: bool)
        ensures
            r == spec_is_category(*self, key@),
    {
        match self {
            CategoryRule::Prefix(prefix) => starts_with(key, prefix),
            CategoryRule::Suffix(suffix) => ends_with(key, suffix),
            CategoryRule::Wrap(prefix, suffix) => starts_with(key, prefix) && ends_with(key, suffix),
        }
    }

    /// The name of the category that `key`, a key this rule marks, stands for: the key
    /// without the rule's marks.
    pub fn category_name(&self, key: &str) -> (r: String)
        requires
            spec_is_category(*self, key@),
        ensures
            r@ == spec_category_name(*self, key@),
    {
        let kl = key.unicode_len();
        match self {
            CategoryRule::Prefix(prefix) => {
                let pl = prefix.unicode_len();
                key.substring_char(pl, kl).to_string()
            },
            CategoryRule::Suffix(suffix) => {
                let tl = suffix.unicode_len();
                key.substring_char(0, kl - tl).to_string()
            },
            CategoryRule::Wrap(prefix, suffix) => {
                let pl = prefix.unicode_len();
                let tl = suffix.unicode_len();
                if kl - tl >= pl {
                    key.substring_char(pl, kl - tl).to_string()
                } else {
                    String::new()
                }
            },
        }
    }

    /// Writes into `out_key` the key under which this rule marks the category `key`.
    pub fn make_category(&self, key: &str, out_key: &mut String)
        ensures
            final(out_key)@ == spec_make_category(*self, key@),
    {
        string_clear(out_key);
        match self {
            CategoryRule::Prefix(tok) => {
                push_str(out_key, tok);
                push_str(out_key, key);
            },
            CategoryRule::Suffix(tok) => {
                push_str(out_key, key);
                push_str(out_key, tok);
            },
            CategoryRule::Wrap(pre, suf) => {
                push_str(out_key, pre);
                push_str(out_key, key);
                push_str(out_key, suf);
            },
        }
    }
}

} // verus!
