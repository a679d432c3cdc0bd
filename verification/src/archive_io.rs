//! Reading an archive from JSON text and writing it back.
//!
//! An archive is a JSON object. Keys that the category rule marks name child categories,
//! whose values are archives again; every other key names a value, kept as JSON text.
use vstd::prelude::*;

use crate::archive::{empty_view, Archive, ArchiveView};
use crate::category::{spec_category_name, spec_is_category, spec_make_category, CategoryRule};
use crate::json::{json_object_entries, json_object_entries_of, json_quote, json_quoted};
use crate::text::push_str;

verus! {

/// How deep categories may nest; `serde_json` refuses deeper nesting as well.
pub const MAX_DEPTH: usize = 128;

/// Why a text could not be read as an archive.
#[derive(Debug, Clone, Copy, PartialEq, Eq)]
pub enum ArchiveParseError {
    /// The text, or the value of a category key in it, is no JSON object.
    NotAnObject,
    /// Categories nest deeper than [`MAX_DEPTH`].
    TooDeep,
}

/// The archive that a JSON text holds under `rule`, reading at most `depth` levels.
pub open spec fn spec_parse(text: Seq<char>, rule: CategoryRule, depth: nat) -> Option<ArchiveView>
    decreases depth, 1nat, 0nat,
{
    if depth == 0 {
        None
    } else {
        match json_object_entries_of(text) {
            None => None,
            Some(e) => spec_parse_entries(e, rule, depth),
        }
    }
}

/// Reads the entries of one object in order: a category key (non-empty, marked by the
/// rule) names, without the rule's marks, a child read from its value; any other key
/// names a value. A later entry of the same name replaces an earlier one.
pub open spec fn spec_parse_entries(
    e: Seq<(Seq<char>, Seq<char>)>,
    rule: CategoryRule,
    depth: nat,
) -> Option<ArchiveView>
    decreases depth, 0nat, e.len(),
{
    if e.len() == 0 {
        Some(empty_view())
    } else {
        match spec_parse_entries(e.drop_last(), rule, depth) {
            None => None,
            Some(acc) => {
                let k = e.last().0;
                let v = e.last().1;
                if k.len() > 0 && spec_is_category(rule, k) {
                    if depth == 0 {
                        None
                    } else {
                        match spec_parse(v, rule, (depth - 1) as nat) {
                            None => None,
                            Some(c) => Some(
                                ArchiveView { paths: acc.paths.insert(spec_category_name(rule, k), c), values: acc.values },
                            ),
                        }
                    }
                } else {
                    Some(ArchiveView { paths: acc.paths, values: acc.values.insert(k, v) })
                }
            },
        }
    }
}

/// The texts joined with commas.
pub open spec fn join_commas(parts: Seq<Seq<char>>) -> Seq<char>
    decreases parts.len(),
{
    if parts.len() == 0 {
        Seq::empty()
    } else if parts.len() == 1 {
        parts[0]
    } else {
        join_commas(parts.drop_last()) + seq![','] + parts.last()
    }
}

/// One `"key":value` member of a JSON object.
pub open spec fn member_text(key: Seq<char>, value: Seq<char>) -> Seq<char> {
    json_quoted(key) + seq![':'] + value
}

/// The members that the child categories write, each under its rule-marked key.
pub open spec fn path_members(s: Seq<(String, Archive)>, rule: CategoryRule) -> Seq<Seq<char>>
    decreases s,
{
    if s.len() == 0 {
        Seq::empty()
    } else {
        path_members(s.drop_last(), rule).push(
            member_text(spec_make_category(rule, s.last().0@), spec_serialize(s.last().1, rule)),
        )
    }
}

/// The members that the values write.
pub open spec fn value_members(s: Seq<(String, String)>) -> Seq<Seq<char>> {
    s.map_values(|e: (String, String)| member_text(e.0@, e.1@))
}

/// The JSON text of an archive: one object, categories first, then values, each in
/// name order.
pub open spec fn spec_serialize(a: Archive, rule: CategoryRule) -> Seq<char>
    decreases a,
{
    seq!['{'] + join_commas(path_members(a.paths@, rule) + value_members(a.values@)) + seq!['}']
}

proof fn lemma_entries_none(
    e: Seq<(Seq<char>, Seq<char>)>,
    n: int,
    rule: CategoryRule,
    depth: nat,
)
    requires
        0 <= n <= e.len(),
        spec_parse_entries(e.take(n), rule, depth) is None,
    ensures
        spec_parse_entries(e, rule, depth) is None,
    decreases e.len(),
{
    if n == e.len() {
        assert(e.take(n) =~= e);
    } else {
        assert(e.drop_last().take(n) =~= e.take(n));
        lemma_entries_none(e.drop_last(), n, rule, depth);
    }
}

proof fn lemma_path_members_len(s: Seq<(String, Archive)>, rule: CategoryRule)
    ensures
        path_members(s, rule).len() == s.len(),
    decreases s.len(),
{
    if s.len() > 0 {
        lemma_path_members_len(s.drop_last(), rule);
    }
}

proof fn lemma_join_push(parts: Seq<Seq<char>>, x: Seq<char>)
    ensures
        join_commas(parts.push(x)) == if parts.len() == 0 {
            x
        } else {
            join_commas(parts) + seq![','] + x
        },
{
    assert(parts.push(x).drop_last() =~= parts);
}

impl Archive {
    /// Reads an archive from JSON text; `rule` tells category keys from value keys.
    pub fn from_json(text: &str, rule: &CategoryRule) -> (r: Result<Archive, ArchiveParseError>)
        ensures
            match r {
                Ok(a) => a.wf() && spec_parse(text@, *rule, MAX_DEPTH as nat) == Some(a@),
                Err(_) => spec_parse(text@, *rule, MAX_DEPTH as nat) is None,
            },
    {
        Self::parse_depth(text, rule, MAX_DEPTH)
    }

    fn parse_depth(text: &str, rule: &CategoryRule, depth: usize) -> (r: Result<
        Archive,
        ArchiveParseError,
    >)
        ensures
            match r {
                Ok(a) => a.wf() && spec_parse(text@, *rule, depth as nat) == Some(a@),
                Err(_) => spec_parse(text@, *rule, depth as nat) is None,
            },
        decreases depth,
    {
        if depth == 0 {
            return Err(ArchiveParseError::TooDeep);
        }
        let entries = match json_object_entries(text) {
            Some(e) => e,
            None => return Err(ArchiveParseError::NotAnObject),
        };
        let ghost e = json_object_entries_of(text@).unwrap();
        let mut out = Archive::new();
        let mut i: usize = 0;
        proof {
            assert(e.take(0) =~= Seq::<(Seq<char>, Seq<char>)>::empty());
        }
        while i < entries.len()
            invariant
                e == json_object_entries_of(text@).unwrap(),
                entries@.len() == e.len(),
                forall|j: int| 0 <= j < e.len() ==> (#[trigger] entries@[j]).0@ == e[j].0 && entries@[j].1@ == e[j].1,
                i <= entries@.len(),
                depth > 0,
                out.wf(),
                spec_parse_entries(e.take(i as int), *rule, depth as nat) == Some(out@),
            decreases entries@.len() - i,
        {
            let ghost acc = out@;
            let key = &entries[i].0;
            let value = &entries[i].1;
            proof {
                assert(e.take(i + 1).drop_last() =~= e.take(i as int));
                assert(e.take(i + 1).last() == e[i as int]);
                assert(key@ == e[i as int].0 && value@ == e[i as int].1);
            }
            if !key.as_str().is_empty() && rule.is_category(key.as_str()) {
                match Self::parse_depth(value.as_str(), rule, depth - 1) {
                    Ok(child) => {
                        let name = rule.category_name(key.as_str());
                        out.insert_path(name, child);
                    },
                    Err(err) => {
                        proof {
                            lemma_entries_none(e, i + 1, *rule, depth as nat);
                        }
                        return Err(err);
                    },
                }
            } else {
                out.insert_value(key.clone(), value.clone());
            }
            i = i + 1;
        }
        proof {
            assert(e.take(i as int) =~= e);
        }
        Ok(out)
    }

    /// Writes this archive as compact JSON text; `rule` marks the category keys.
    pub fn to_json(&self, rule: &CategoryRule) -> (r: String)
        ensures
            r@ == spec_serialize(*self, *rule),
        decreases self,
    {
        let mut out = String::new();
        proof {
            reveal_strlit("{");
            reveal_strlit("}");
            reveal_strlit(",");
            reveal_strlit(":");
        }
        push_str(&mut out, "{");
        let ghost pm = path_members(self.paths@, *rule);
        let ghost vm = value_members(self.values@);
        let mut key_b = String::new();
        let mut i: usize = 0;
        proof {
            assert(self.paths@.take(0) =~= Seq::<(String, Archive)>::empty());
        }
        while i < self.paths.len()
            invariant
                i <= self.paths@.len(),
                pm == path_members(self.paths@, *rule),
                out@ == seq!['{'] + join_commas(path_members(self.paths@.take(i as int), *rule)),
                "{"@ == seq!['{'],
                ","@ == seq![','],
                ":"@ == seq![':'],
            decreases self.paths@.len() - i,
        {
            let ghost before = path_members(self.paths@.take(i as int), *rule);
            proof {
                assert(self.paths@.take(i + 1).drop_last() =~= self.paths@.take(i as int));
                assert(self.paths@.take(i + 1).last() == self.paths@[i as int]);
                assert(decreases_to!(self => self.paths));
                assert(decreases_to!(self.paths => self.paths@));
                assert(decreases_to!(self.paths@ => self.paths@[i as int]));
                assert(decreases_to!(self.paths@[i as int] => self.paths@[i as int].1));
            }
            if i > 0 {
                push_str(&mut out, ",");
            }
            rule.make_category(self.paths[i].0.as_str(), &mut key_b);
            let quoted = json_quote(key_b.as_str());
            push_str(&mut out, quoted.as_str());
            push_str(&mut out, ":");
            let child = self.paths[i].1.to_json(rule);
            push_str(&mut out, child.as_str());
            proof {
                let m = member_text(spec_make_category(*rule, self.paths@[i as int].0@), spec_serialize(self.paths@[i as int].1, *rule));
                lemma_join_push(before, m);
                assert(path_members(self.paths@.take(i + 1), *rule) == before.push(m));
                if i > 0 {
                    assert(out@ =~= seq!['{'] + join_commas(before.push(m)));
                } else {
                    assert(before.len() == 0);
                    assert(out@ =~= seq!['{'] + join_commas(before.push(m)));
                }
            }
            i = i + 1;
        }
        proof {
            assert(self.paths@.take(i as int) =~= self.paths@);
        }
        let mut j: usize = 0;
        proof {
            assert(pm + vm.take(0) =~= pm);
            lemma_path_members_len(self.paths@, *rule);
        }
        while j < self.values.len()
            invariant
                j <= self.values@.len(),
                i == self.paths@.len(),
                pm.len() == i,
                vm == value_members(self.values@),
                out@ == seq!['{'] + join_commas(pm + vm.take(j as int)),
                ","@ == seq![','],
                ":"@ == seq![':'],
            decreases self.values@.len() - j,
        {
            let ghost before = pm + vm.take(j as int);
            if i > 0 || j > 0 {
                push_str(&mut out, ",");
            }
            let quoted = json_quote(self.values[j].0.as_str());
            push_str(&mut out, quoted.as_str());
            push_str(&mut out, ":");
            push_str(&mut out, self.values[j].1.as_str());
            proof {
                let m = member_text(self.values@[j as int].0@, self.values@[j as int].1@);
                assert(vm[j as int] == m);
                assert(pm + vm.take(j + 1) =~= before.push(m));
                lemma_join_push(before, m);
                assert(out@ =~= seq!['{'] + join_commas(before.push(m)));
            }
            j = j + 1;
        }
        proof {
            reveal_strlit("}");
        }
        push_str(&mut out, "}");
        proof {
            assert(vm.take(j as int) =~= vm);
            assert(out@ =~= spec_serialize(*self, *rule));
        }
        out
    }
}

/* ------------------------------------------------------------------------------------------ */
/*                                  The rule at every depth                                   */
/* ------------------------------------------------------------------------------------------ */

/// `x` stands somewhere in `t`, as a contiguous run of characters.
pub open spec fn contains(t: Seq<char>, x: Seq<char>) -> bool {
    exists|i: int| 0 <= i && i + x.len() <= t.len() && #[trigger] t.subrange(i, i + x.len()) == x
}

proof fn lemma_contains_middle(a: Seq<char>, x: Seq<char>, b: Seq<char>)
    ensures
        contains(a + x + b, x),
{
    let t = a + x + b;
    assert(t.subrange(a.len() as int, (a.len() + x.len()) as int) =~= x);
}

proof fn lemma_contains_trans(t: Seq<char>, u: Seq<char>, w: Seq<char>)
    requires
        contains(t, u),
        contains(u, w),
    ensures
        contains(t, w),
{
    let i = choose|i: int| 0 <= i && i + u.len() <= t.len() && #[trigger] t.subrange(i, i + u.len()) == u;
    let j = choose|j: int| 0 <= j && j + w.len() <= u.len() && #[trigger] u.subrange(j, j + w.len()) == w;
    assert(t.subrange(i + j, i + j + w.len()) =~= w) by {
        assert forall|k: int| 0 <= k < w.len() implies t.subrange(i + j, i + j + w.len())[k] == w[k] by {
            assert(u[j + k] == t[i + j + k]);
            assert(w[k] == u.subrange(j, j + w.len())[k]);
        }
    }
}

proof fn lemma_join_contains(parts: Seq<Seq<char>>, i: int)
    requires
        0 <= i < parts.len(),
    ensures
        contains(join_commas(parts), parts[i]),
    decreases parts.len(),
{
    let n = parts.len() - 1;
    if parts.len() == 1 {
        assert(join_commas(parts) == parts[0]);
        lemma_contains_middle(Seq::empty(), parts[0], Seq::empty());
        assert(Seq::<char>::empty() + parts[0] + Seq::<char>::empty() =~= parts[0]);
    } else if i == n {
        lemma_contains_middle(join_commas(parts.drop_last()) + seq![','], parts[n], Seq::empty());
        assert(join_commas(parts.drop_last()) + seq![','] + parts[n] + Seq::<char>::empty() =~= join_commas(parts));
    } else {
        lemma_join_contains(parts.drop_last(), i);
        lemma_contains_middle(Seq::empty(), join_commas(parts.drop_last()), seq![','] + parts[n]);
        assert(Seq::<char>::empty() + join_commas(parts.drop_last()) + (seq![','] + parts[n]) =~= join_commas(parts));
        lemma_contains_trans(join_commas(parts), join_commas(parts.drop_last()), parts[i]);
    }
}

proof fn lemma_path_members_at(s: Seq<(String, Archive)>, rule: CategoryRule, i: int)
    requires
        0 <= i < s.len(),
    ensures
        path_members(s, rule)[i] == member_text(spec_make_category(rule, s[i].0@), spec_serialize(s[i].1, rule)),
    decreases s.len(),
{
    lemma_path_members_len(s.drop_last(), rule);
    if i < s.len() - 1 {
        lemma_path_members_at(s.drop_last(), rule, i);
    }
}

/// The child category `q` of a node, reached by following names through its lists.
pub open spec fn find_node(a: Archive, q: Seq<Seq<char>>) -> Option<Archive>
    decreases q.len(),
{
    if q.len() == 0 {
        Some(a)
    } else if crate::archive::has_key(a.paths@, q[0]) {
        let i = choose|i: int| 0 <= i < a.paths@.len() && (#[trigger] a.paths@[i]).0@ == q[0];
        find_node(a.paths@[i].1, q.drop_first())
    } else {
        None
    }
}

/// Following names through the lists finds exactly the categories of the archive's model,
/// with their models.
pub proof fn lemma_find_node_model(a: Archive, q: Seq<Seq<char>>)
    requires
        a.wf(),
    ensures
        (find_node(a, q) is Some) == (crate::archive::find_in(a@, q) is Some),
        find_node(a, q) is Some ==> find_node(a, q).unwrap().wf() && crate::archive::find_in(a@, q) == Some(
            find_node(a, q).unwrap()@,
        ),
    decreases q.len(),
{
    if q.len() > 0 {
        assert(crate::archive::keys_sorted(a.paths@));
        assert(a@.paths == crate::archive::paths_map(a.paths@));
        crate::archive::lemma_paths_map(a.paths@);
        if crate::archive::has_key(a.paths@, q[0]) {
            let i = choose|i: int| 0 <= i < a.paths@.len() && (#[trigger] a.paths@[i]).0@ == q[0];
            assert(a@.paths.contains_key(a.paths@[i].0@));
            assert(a.paths@[i].1.wf());
            lemma_find_node_model(a.paths@[i].1, q.drop_first());
        }
    }
}

/// The text of an archive under a rule holds, for every category at every depth, that
/// category's own text under the same rule, under the key the rule marks its name with.
pub proof fn lemma_text_holds_every_category(a: Archive, rule: CategoryRule, q: Seq<Seq<char>>)
    requires
        a.wf(),
        q.len() > 0,
        find_node(a, q) is Some,
    ensures
        contains(
            spec_serialize(a, rule),
            member_text(spec_make_category(rule, q.last()), spec_serialize(find_node(a, q).unwrap(), rule)),
        ),
    decreases q.len(),
{
    let i = choose|i: int| 0 <= i < a.paths@.len() && (#[trigger] a.paths@[i]).0@ == q[0];
    let c = a.paths@[i].1;
    let pm = path_members(a.paths@, rule);
    let vm = value_members(a.values@);
    lemma_path_members_len(a.paths@, rule);
    lemma_path_members_at(a.paths@, rule, i);
    let m = member_text(spec_make_category(rule, q[0]), spec_serialize(c, rule));
    assert((pm + vm)[i] == m);
    lemma_join_contains(pm + vm, i);
    lemma_contains_middle(seq!['{'], join_commas(pm + vm), seq!['}']);
    lemma_contains_trans(spec_serialize(a, rule), join_commas(pm + vm), m);
    if q.len() == 1 {
        assert(find_node(c, q.drop_first()) == Some(c));
    } else {
        assert(c.wf());
        lemma_text_holds_every_category(c, rule, q.drop_first());
        assert(q.drop_first().last() == q.last());
        let key = json_quoted(spec_make_category(rule, q[0])) + seq![':'];
        lemma_contains_middle(key, spec_serialize(c, rule), Seq::empty());
        assert(key + spec_serialize(c, rule) + Seq::<char>::empty() =~= m);
        lemma_contains_trans(spec_serialize(a, rule), m, spec_serialize(c, rule));
        lemma_contains_trans(
            spec_serialize(a, rule),
            spec_serialize(c, rule),
            member_text(spec_make_category(rule, q.last()), spec_serialize(find_node(a, q).unwrap(), rule)),
        );
    }
}

/// No category entry after position `i` names the same category as the entry at `i`.
pub open spec fn last_of_its_name(e: Seq<(Seq<char>, Seq<char>)>, rule: CategoryRule, i: int) -> bool {
    forall|j: int|
        i < j < e.len() && (#[trigger] e[j]).0.len() > 0 && spec_is_category(rule, e[j].0) ==> spec_category_name(
            rule,
            e[j].0,
        ) != spec_category_name(rule, e[i].0)
}

proof fn lemma_entries_child(e: Seq<(Seq<char>, Seq<char>)>, rule: CategoryRule, depth: nat, i: int)
    requires
        spec_parse_entries(e, rule, depth) is Some,
        0 <= i < e.len(),
        e[i].0.len() > 0,
        spec_is_category(rule, e[i].0),
        last_of_its_name(e, rule, i),
    ensures
        depth > 0,
        spec_parse(e[i].1, rule, (depth - 1) as nat) is Some,
        spec_parse_entries(e, rule, depth).unwrap().paths.contains_key(spec_category_name(rule, e[i].0)),
        spec_parse_entries(e, rule, depth).unwrap().paths[spec_category_name(rule, e[i].0)] == spec_parse(
            e[i].1,
            rule,
            (depth - 1) as nat,
        ).unwrap(),
    decreases e.len(),
{
    let n = e.len() - 1;
    assert(e.last() == e[n]);
    if i < n {
        let f = e.drop_last();
        assert(spec_parse_entries(f, rule, depth) is Some);
        assert(f[i] == e[i]);
        assert(last_of_its_name(f, rule, i)) by {
            assert forall|j: int|
                i < j < f.len() && (#[trigger] f[j]).0.len() > 0 && spec_is_category(rule, f[j].0) implies spec_category_name(
                rule,
                f[j].0,
            ) != spec_category_name(rule, f[i].0) by {
                assert(f[j] == e[j]);
            }
        }
        lemma_entries_child(f, rule, depth, i);
        if e[n].0.len() > 0 && spec_is_category(rule, e[n].0) {
            assert(spec_category_name(rule, e[n].0) != spec_category_name(rule, e[i].0));
        }
    }
}

/// Reading under a rule reads every nested object under the same rule: where a category
/// entry of the text is the last to name its category, the category read is what its own
/// text reads as under that rule, one level less deep.
pub proof fn lemma_nested_read_under_rule(text: Seq<char>, rule: CategoryRule, depth: nat, i: int)
    requires
        spec_parse(text, rule, depth) is Some,
        json_object_entries_of(text) is Some,
        0 <= i < json_object_entries_of(text).unwrap().len(),
        json_object_entries_of(text).unwrap()[i].0.len() > 0,
        spec_is_category(rule, json_object_entries_of(text).unwrap()[i].0),
        last_of_its_name(json_object_entries_of(text).unwrap(), rule, i),
    ensures
        depth > 1,
        spec_parse(json_object_entries_of(text).unwrap()[i].1, rule, (depth - 1) as nat) is Some,
        spec_parse(text, rule, depth).unwrap().paths.contains_key(
            spec_category_name(rule, json_object_entries_of(text).unwrap()[i].0),
        ),
        spec_parse(text, rule, depth).unwrap().paths[spec_category_name(rule, json_object_entries_of(text).unwrap()[i].0)]
            == spec_parse(json_object_entries_of(text).unwrap()[i].1, rule, (depth - 1) as nat).unwrap(),
{
    let e = json_object_entries_of(text).unwrap();
    lemma_entries_child(e, rule, depth, i);
    if depth == 1 {
        assert(spec_parse(e[i].1, rule, 0) is None);
    }
}

} // verus!
