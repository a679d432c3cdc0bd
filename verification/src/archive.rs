//! The archive: a tree of named categories ("paths"), each holding named values.
//!
//! Every value is kept as JSON text. Category and value names are kept sorted
//! in code-point order, so that every node reads like a sorted map.
use vstd::prelude::*;

use crate::json::{json_value_eq, json_values_equal};
use crate::text::{
    lemma_lt_irreflexive, lemma_lt_total, lemma_lt_transitive, seq_lt, str_eq, str_lt,
};

verus! {

/// Mathematical model of an archive node.
pub struct ArchiveView {
    pub paths: Map<Seq<char>, ArchiveView>,
    pub values: Map<Seq<char>, Seq<char>>,
}

/// A node of the archive: child categories and values, each sorted by name.
#[derive(Debug)]
pub struct Archive {
    /// Child categories.
    pub paths: Vec<(String, Archive)>,
    /// All elements except child path nodes, as JSON text.
    pub values: Vec<(String, String)>,
}

/// Names of a list of entries are strictly increasing.
pub open spec fn keys_sorted<V>(s: Seq<(String, V)>) -> bool {
    forall|i: int, j: int| 0 <= i < j < s.len() ==> seq_lt(#[trigger] s[i].0@, #[trigger] s[j].0@)
}

/// Some entry of the list carries this name.
pub open spec fn has_key<V>(s: Seq<(String, V)>, k: Seq<char>) -> bool {
    exists|i: int| 0 <= i < s.len() && (#[trigger] s[i]).0@ == k
}

/// The map that a list of named values stands for.
pub open spec fn values_map(s: Seq<(String, String)>) -> Map<Seq<char>, Seq<char>>
    decreases s.len(),
{
    if s.len() == 0 {
        Map::empty()
    } else {
        values_map(s.drop_last()).insert(s.last().0@, s.last().1@)
    }
}

/// The map that a list of named child categories stands for.
pub open spec fn paths_map(s: Seq<(String, Archive)>) -> Map<Seq<char>, ArchiveView>
    decreases s,
{
    if s.len() == 0 {
        Map::empty()
    } else {
        paths_map(s.drop_last()).insert(s.last().0@, s.last().1.model())
    }
}

impl Archive {
    /// The model of this node and everything below it.
    pub open spec fn model(self) -> ArchiveView
        decreases self,
    {
        ArchiveView { paths: paths_map(self.paths@), values: values_map(self.values@) }
    }

    /// Names are sorted at every node.
    pub open spec fn wf(self) -> bool
        decreases self,
    {
        &&& keys_sorted(self.paths@)
        &&& keys_sorted(self.values@)
        &&& forall|i: int| 0 <= i < self.paths@.len() ==> (#[trigger] self.paths@[i]).1.wf()
    }
}

impl View for Archive {
    type V = ArchiveView;

    open spec fn view(&self) -> ArchiveView {
        self.model()
    }
}

/* ------------------------------------------------------------------------------------------ */
/*                                     Sorted entry lists                                     */
/* ------------------------------------------------------------------------------------------ */

/// In a list sorted by name, no name occurs twice.
pub proof fn lemma_sorted_keys_distinct<V>(s: Seq<(String, V)>, i: int, j: int)
    requires
        keys_sorted(s),
        0 <= i < s.len(),
        0 <= j < s.len(),
        i != j,
    ensures
        s[i].0@ != s[j].0@,
{
    if i < j {
        assert(seq_lt(s[i].0@, s[j].0@));
        lemma_lt_irreflexive(s[i].0@);
    } else {
        assert(seq_lt(s[j].0@, s[i].0@));
        lemma_lt_irreflexive(s[j].0@);
    }
}

/// The map of a sorted value list holds exactly the list's entries.
pub proof fn lemma_values_map(s: Seq<(String, String)>)
    requires
        keys_sorted(s),
    ensures
        forall|i: int|
            0 <= i < s.len() ==> #[trigger] values_map(s).contains_key(s[i].0@) && values_map(
                s,
            )[s[i].0@] == s[i].1@,
        forall|k: Seq<char>| #[trigger] values_map(s).contains_key(k) ==> has_key(s, k),
    decreases s.len(),
{
    if s.len() > 0 {
        let t = s.drop_last();
        assert forall|a: int, b: int| 0 <= a < b < t.len() implies seq_lt(
            #[trigger] t[a].0@,
            #[trigger] t[b].0@,
        ) by {
            assert(t[a] == s[a] && t[b] == s[b]);
        }
        lemma_values_map(t);
        assert forall|i: int| 0 <= i < s.len() implies #[trigger] values_map(s).contains_key(
            s[i].0@,
        ) && values_map(s)[s[i].0@] == s[i].1@ by {
            if i < s.len() - 1 {
                lemma_sorted_keys_distinct(s, i, s.len() - 1);
                assert(t[i] == s[i]);
                assert(values_map(t).contains_key(t[i].0@));
            }
        }
        assert forall|k: Seq<char>| #[trigger] values_map(s).contains_key(k) implies has_key(
            s,
            k,
        ) by {
            if k != s.last().0@ {
                assert(values_map(t).contains_key(k));
                let i = choose|i: int| 0 <= i < t.len() && (#[trigger] t[i]).0@ == k;
                assert(s[i] == t[i]);
            } else {
                assert(s[s.len() - 1].0@ == k);
            }
        }
    }
}

/// The map of a sorted child list holds exactly the list's children, each by its model.
pub proof fn lemma_paths_map(s: Seq<(String, Archive)>)
    requires
        keys_sorted(s),
    ensures
        forall|i: int|
            0 <= i < s.len() ==> #[trigger] paths_map(s).contains_key(s[i].0@) && paths_map(
                s,
            )[s[i].0@] == s[i].1.model(),
        forall|k: Seq<char>| #[trigger] paths_map(s).contains_key(k) ==> has_key(s, k),
    decreases s.len(),
{
    if s.len() > 0 {
        let t = s.drop_last();
        assert forall|a: int, b: int| 0 <= a < b < t.len() implies seq_lt(
            #[trigger] t[a].0@,
            #[trigger] t[b].0@,
        ) by {
            assert(t[a] == s[a] && t[b] == s[b]);
        }
        lemma_paths_map(t);
        assert forall|i: int| 0 <= i < s.len() implies #[trigger] paths_map(s).contains_key(
            s[i].0@,
        ) && paths_map(s)[s[i].0@] == s[i].1.model() by {
            if i < s.len() - 1 {
                lemma_sorted_keys_distinct(s, i, s.len() - 1);
                assert(t[i] == s[i]);
                assert(paths_map(t).contains_key(t[i].0@));
            }
        }
        assert forall|k: Seq<char>| #[trigger] paths_map(s).contains_key(k) implies has_key(
            s,
            k,
        ) by {
            if k != s.last().0@ {
                assert(paths_map(t).contains_key(k));
                let i = choose|i: int| 0 <= i < t.len() && (#[trigger] t[i]).0@ == k;
                assert(s[i] == t[i]);
            } else {
                assert(s[s.len() - 1].0@ == k);
            }
        }
    }
}

/// Finds `key` in a sorted entry list: `Ok` with its index, or `Err` with the index
/// where it would be inserted.
pub fn search_key<V>(s: &Vec<(String, V)>, key: &str) -> (r: Result<usize, usize>)
    requires
        keys_sorted(s@),
    ensures
        match r {
            Ok(i) => i < s@.len() && s@[i as int].0@ == key@,
            Err(p) => p <= s@.len() && (forall|i: int| 0 <= i < p ==> seq_lt(#[trigger] s@[i].0@, key@))
                && (forall|i: int| p <= i < s@.len() ==> seq_lt(key@, #[trigger] s@[i].0@)),
        },
        r is Err ==> !has_key(s@, key@),
{
    let mut i: usize = 0;
    while i < s.len()
        invariant
            keys_sorted(s@),
            i <= s@.len(),
            forall|j: int| 0 <= j < i ==> seq_lt(#[trigger] s@[j].0@, key@),
        decreases s@.len() - i,
    {
        let k = s[i].0.as_str();
        if str_eq(k, key) {
            return Ok(i);
        }
        if !str_lt(k, key) {
            proof {
                lemma_lt_total(s@[i as int].0@, key@);
                assert forall|j: int| i <= j < s@.len() implies seq_lt(key@, #[trigger] s@[j].0@) by {
                    if j > i {
                        lemma_lt_transitive(key@, s@[i as int].0@, s@[j].0@);
                    }
                }
                assert forall|j: int| 0 <= j < s@.len() implies (#[trigger] s@[j]).0@ != key@ by {
                    if j < i {
                        lemma_lt_irreflexive(key@);
                    } else {
                        lemma_lt_irreflexive(key@);
                    }
                }
            }
            return Err(i);
        }
        i = i + 1;
    }
    proof {
        assert forall|j: int| 0 <= j < s@.len() implies (#[trigger] s@[j]).0@ != key@ by {
            lemma_lt_irreflexive(key@);
        }
    }
    Err(i)
}

/// Inserting a new name at its sorted place keeps the list sorted.
pub proof fn lemma_insert_sorted<V>(s: Seq<(String, V)>, p: int, e: (String, V))
    requires
        keys_sorted(s),
        0 <= p <= s.len(),
        forall|i: int| 0 <= i < p ==> seq_lt(#[trigger] s[i].0@, e.0@),
        forall|i: int| p <= i < s.len() ==> seq_lt(e.0@, #[trigger] s[i].0@),
    ensures
        keys_sorted(s.insert(p, e)),
{
    let t = s.insert(p, e);
    assert forall|i: int, j: int| 0 <= i < j < t.len() implies seq_lt(
        #[trigger] t[i].0@,
        #[trigger] t[j].0@,
    ) by {
        if j < p {
            assert(t[i] == s[i] && t[j] == s[j]);
        } else if j == p {
            assert(t[i] == s[i] && t[j] == e);
        } else if i < p {
            assert(t[i] == s[i] && t[j] == s[j - 1]);
            lemma_lt_transitive(s[i].0@, e.0@, s[j - 1].0@);
        } else if i == p {
            assert(t[i] == e && t[j] == s[j - 1]);
        } else {
            assert(t[i] == s[i - 1] && t[j] == s[j - 1]);
        }
    }
}

/// Replacing the payload of an entry keeps the list sorted.
pub proof fn lemma_update_sorted<V>(s: Seq<(String, V)>, i: int, e: (String, V))
    requires
        keys_sorted(s),
        0 <= i < s.len(),
        e.0@ == s[i].0@,
    ensures
        keys_sorted(s.update(i, e)),
{
    let t = s.update(i, e);
    assert forall|a: int, b: int| 0 <= a < b < t.len() implies seq_lt(
        #[trigger] t[a].0@,
        #[trigger] t[b].0@,
    ) by {
        assert(seq_lt(s[a].0@, s[b].0@));
    }
}

/// Appending a name greater than all others keeps the list sorted.
pub proof fn lemma_push_sorted<V>(s: Seq<(String, V)>, e: (String, V))
    requires
        keys_sorted(s),
        forall|i: int| 0 <= i < s.len() ==> seq_lt(#[trigger] s[i].0@, e.0@),
    ensures
        keys_sorted(s.push(e)),
{
    lemma_insert_sorted(s, s.len() as int, e);
    assert(s.insert(s.len() as int, e) =~= s.push(e));
}

/// Inserting an entry into a sorted value list inserts it into the map.
pub proof fn lemma_values_map_insert(s: Seq<(String, String)>, p: int, e: (String, String))
    requires
        keys_sorted(s),
        keys_sorted(s.insert(p, e)),
        0 <= p <= s.len(),
    ensures
        values_map(s.insert(p, e)) == values_map(s).insert(e.0@, e.1@),
{
    let t = s.insert(p, e);
    lemma_values_map(s);
    lemma_values_map(t);
    let m = values_map(s).insert(e.0@, e.1@);
    assert forall|k: Seq<char>| #[trigger] values_map(t).contains_key(k) <==> m.contains_key(k) by {
        if values_map(t).contains_key(k) {
            let i = choose|i: int| 0 <= i < t.len() && (#[trigger] t[i]).0@ == k;
            if i < p {
                assert(t[i] == s[i]);
            } else if i > p {
                assert(t[i] == s[i - 1]);
            }
        }
        if m.contains_key(k) && k != e.0@ {
            let i = choose|i: int| 0 <= i < s.len() && (#[trigger] s[i]).0@ == k;
            if i < p {
                assert(t[i] == s[i]);
            } else {
                assert(t[i + 1] == s[i]);
            }
        }
        if k == e.0@ {
            assert(t[p] == e);
        }
    }
    assert forall|k: Seq<char>| #[trigger] values_map(t).contains_key(k) implies values_map(t)[k]
        == m[k] by {
        let i = choose|i: int| 0 <= i < t.len() && (#[trigger] t[i]).0@ == k;
        if i < p {
            assert(t[i] == s[i]);
            lemma_sorted_keys_distinct(t, i, p);
        } else if i > p {
            assert(t[i] == s[i - 1]);
            lemma_sorted_keys_distinct(t, i, p);
        }
    }
    assert(values_map(t) =~= m);
}

/// Replacing the entry of a name in a sorted value list replaces it in the map.
pub proof fn lemma_values_map_update(s: Seq<(String, String)>, i: int, e: (String, String))
    requires
        keys_sorted(s),
        0 <= i < s.len(),
        e.0@ == s[i].0@,
    ensures
        values_map(s.update(i, e)) == values_map(s).insert(e.0@, e.1@),
{
    let t = s.update(i, e);
    lemma_update_sorted(s, i, e);
    lemma_values_map(s);
    lemma_values_map(t);
    let m = values_map(s).insert(e.0@, e.1@);
    assert forall|k: Seq<char>| #[trigger] values_map(t).contains_key(k) <==> m.contains_key(k) by {
        if values_map(t).contains_key(k) {
            let j = choose|j: int| 0 <= j < t.len() && (#[trigger] t[j]).0@ == k;
            if j != i {
                assert(t[j] == s[j]);
            }
        }
        if m.contains_key(k) && k != e.0@ {
            let j = choose|j: int| 0 <= j < s.len() && (#[trigger] s[j]).0@ == k;
            assert(t[j] == s[j]);
        }
        if k == e.0@ {
            assert(t[i] == e);
        }
    }
    assert forall|k: Seq<char>| #[trigger] values_map(t).contains_key(k) implies values_map(t)[k]
        == m[k] by {
        let j = choose|j: int| 0 <= j < t.len() && (#[trigger] t[j]).0@ == k;
        if j != i {
            assert(t[j] == s[j]);
            lemma_sorted_keys_distinct(t, i, j);
        }
    }
    assert(values_map(t) =~= m);
}

/// Inserting a child into a sorted child list inserts its model into the map.
pub proof fn lemma_paths_map_insert(s: Seq<(String, Archive)>, p: int, e: (String, Archive))
    requires
        keys_sorted(s),
        keys_sorted(s.insert(p, e)),
        0 <= p <= s.len(),
    ensures
        paths_map(s.insert(p, e)) == paths_map(s).insert(e.0@, e.1.model()),
{
    let t = s.insert(p, e);
    lemma_paths_map(s);
    lemma_paths_map(t);
    let m = paths_map(s).insert(e.0@, e.1.model());
    assert forall|k: Seq<char>| #[trigger] paths_map(t).contains_key(k) <==> m.contains_key(k) by {
        if paths_map(t).contains_key(k) {
            let i = choose|i: int| 0 <= i < t.len() && (#[trigger] t[i]).0@ == k;
            if i < p {
                assert(t[i] == s[i]);
            } else if i > p {
                assert(t[i] == s[i - 1]);
            }
        }
        if m.contains_key(k) && k != e.0@ {
            let i = choose|i: int| 0 <= i < s.len() && (#[trigger] s[i]).0@ == k;
            if i < p {
                assert(t[i] == s[i]);
            } else {
                assert(t[i + 1] == s[i]);
            }
        }
        if k == e.0@ {
            assert(t[p] == e);
        }
    }
    assert forall|k: Seq<char>| #[trigger] paths_map(t).contains_key(k) implies paths_map(t)[k]
        == m[k] by {
        let i = choose|i: int| 0 <= i < t.len() && (#[trigger] t[i]).0@ == k;
        if i < p {
            assert(t[i] == s[i]);
            lemma_sorted_keys_distinct(t, i, p);
        } else if i > p {
            assert(t[i] == s[i - 1]);
            lemma_sorted_keys_distinct(t, i, p);
        }
    }
    assert(paths_map(t) =~= m);
}

/// Replacing the child of a name in a sorted child list replaces its model in the map.
pub proof fn lemma_paths_map_update(s: Seq<(String, Archive)>, i: int, e: (String, Archive))
    requires
        keys_sorted(s),
        0 <= i < s.len(),
        e.0@ == s[i].0@,
    ensures
        paths_map(s.update(i, e)) == paths_map(s).insert(e.0@, e.1.model()),
{
    let t = s.update(i, e);
    lemma_update_sorted(s, i, e);
    lemma_paths_map(s);
    lemma_paths_map(t);
    let m = paths_map(s).insert(e.0@, e.1.model());
    assert forall|k: Seq<char>| #[trigger] paths_map(t).contains_key(k) <==> m.contains_key(k) by {
        if paths_map(t).contains_key(k) {
            let j = choose|j: int| 0 <= j < t.len() && (#[trigger] t[j]).0@ == k;
            if j != i {
                assert(t[j] == s[j]);
            }
        }
        if m.contains_key(k) && k != e.0@ {
            let j = choose|j: int| 0 <= j < s.len() && (#[trigger] s[j]).0@ == k;
            assert(t[j] == s[j]);
        }
        if k == e.0@ {
            assert(t[i] == e);
        }
    }
    assert forall|k: Seq<char>| #[trigger] paths_map(t).contains_key(k) implies paths_map(t)[k]
        == m[k] by {
        let j = choose|j: int| 0 <= j < t.len() && (#[trigger] t[j]).0@ == k;
        if j != i {
            assert(t[j] == s[j]);
            lemma_sorted_keys_distinct(t, i, j);
        }
    }
    assert(paths_map(t) =~= m);
}

/* ------------------------------------------------------------------------------------------ */
/*                                    Archive specification                                   */
/* ------------------------------------------------------------------------------------------ */

/// The empty node.
pub open spec fn empty_view() -> ArchiveView {
    ArchiveView { paths: Map::empty(), values: Map::empty() }
}

/// A node without categories and values.
pub open spec fn view_is_empty(v: ArchiveView) -> bool {
    v.paths.dom() =~= Set::empty() && v.values.dom() =~= Set::empty()
}

/// The child category `k` of `v`, or the empty node where there is none.
pub open spec fn child_or_empty(v: ArchiveView, k: Seq<char>) -> ArchiveView {
    if v.paths.contains_key(k) {
        v.paths[k]
    } else {
        empty_view()
    }
}

/// Follows a path of category names from `v`; the empty path names `v` itself.
pub open spec fn find_in(v: ArchiveView, p: Seq<Seq<char>>) -> Option<ArchiveView>
    decreases p.len(),
{
    if p.len() == 0 {
        Some(v)
    } else if v.paths.contains_key(p[0]) {
        find_in(v.paths[p[0]], p.drop_first())
    } else {
        None
    }
}

/// The node a lookup by path finds: none for the empty path.
pub open spec fn spec_find_path(v: ArchiveView, p: Seq<Seq<char>>) -> Option<ArchiveView> {
    if p.len() == 0 {
        None
    } else {
        find_in(v, p)
    }
}

/// The node at a path, where missing categories count as empty.
pub open spec fn node_at(v: ArchiveView, p: Seq<Seq<char>>) -> ArchiveView
    decreases p.len(),
{
    if p.len() == 0 {
        v
    } else {
        node_at(child_or_empty(v, p[0]), p.drop_first())
    }
}

/// `v` with the node at path `p` replaced by `x`, creating the categories on the way.
pub open spec fn put_at(v: ArchiveView, p: Seq<Seq<char>>, x: ArchiveView) -> ArchiveView
    decreases p.len(),
{
    if p.len() == 0 {
        x
    } else {
        ArchiveView {
            paths: v.paths.insert(p[0], put_at(child_or_empty(v, p[0]), p.drop_first(), x)),
            values: v.values,
        }
    }
}

/// The names of a path of string slices.
pub open spec fn segs(p: Seq<&str>) -> Seq<Seq<char>> {
    p.map_values(|s: &str| s@)
}

/// `b` laid over `a`: categories merge recursively, values of `b` replace those of `a`.
pub open spec fn spec_merge(a: ArchiveView, b: ArchiveView) -> ArchiveView
    decreases b,
{
    ArchiveView {
        paths: Map::new(
            |k: Seq<char>| a.paths.contains_key(k) || b.paths.contains_key(k),
            |k: Seq<char>|
                if b.paths.contains_key(k) {
                    if a.paths.contains_key(k) {
                        spec_merge(a.paths[k], b.paths[k])
                    } else {
                        b.paths[k]
                    }
                } else {
                    a.paths[k]
                },
        ),
        values: a.values.union_prefer_right(b.values),
    }
}

/// Two stored values count as the same: equal text, or equal JSON values.
pub open spec fn values_equiv(a: Seq<char>, b: Seq<char>) -> bool {
    a == b || json_value_eq(a, b)
}

/// Same categories everywhere, and values that count as the same.
pub open spec fn equiv(a: ArchiveView, b: ArchiveView) -> bool
    decreases a,
{
    &&& a.paths.dom() == b.paths.dom()
    &&& forall|k: Seq<char>| a.paths.contains_key(k) ==> equiv(a.paths[k], #[trigger] b.paths[k])
    &&& a.values.dom() == b.values.dom()
    &&& forall|k: Seq<char>|
        a.values.contains_key(k) ==> values_equiv(a.values[k], #[trigger] b.values[k])
}

/// Whether the value `k` of `newer` differs from the base, and so goes into the patch.
pub open spec fn value_changed(base: ArchiveView, newer: ArchiveView, k: Seq<char>) -> bool {
    !(base.values.contains_key(k) && json_value_eq(base.values[k], newer.values[k]))
}

/// Splits `newer` against `base` into the patch (what differs from `base`) and what
/// stays in `newer`: `(patch, rest)`.
pub open spec fn spec_patch(base: ArchiveView, newer: ArchiveView) -> (ArchiveView, ArchiveView)
    decreases newer,
{
    (
        ArchiveView {
            paths: Map::new(
                |k: Seq<char>|
                    newer.paths.contains_key(k) && (!base.paths.contains_key(k) || !view_is_empty(
                        spec_patch(base.paths[k], newer.paths[k]).0,
                    )),
                |k: Seq<char>|
                    if base.paths.contains_key(k) && newer.paths.contains_key(k) {
                        spec_patch(base.paths[k], newer.paths[k]).0
                    } else {
                        newer.paths[k]
                    },
            ),
            values: Map::new(
                |k: Seq<char>| newer.values.contains_key(k) && value_changed(base, newer, k),
                |k: Seq<char>| newer.values[k],
            ),
        },
        ArchiveView {
            paths: Map::new(
                |k: Seq<char>|
                    newer.paths.contains_key(k) && base.paths.contains_key(k) && (view_is_empty(
                        spec_patch(base.paths[k], newer.paths[k]).0,
                    ) || !view_is_empty(spec_patch(base.paths[k], newer.paths[k]).1)),
                |k: Seq<char>|
                    if newer.paths.contains_key(k) {
                        spec_patch(base.paths[k], newer.paths[k]).1
                    } else {
                        empty_view()
                    },
            ),
            values: Map::new(
                |k: Seq<char>| newer.values.contains_key(k) && !value_changed(base, newer, k),
                |k: Seq<char>| newer.values[k],
            ),
        },
    )
}

/* ------------------------------------------------------------------------------------------ */
/*                                     Archive operations                                     */
/* ------------------------------------------------------------------------------------------ */

/// An archive with no children and no values has the empty view.
pub proof fn lemma_empty_lists_model(a: Archive)
    requires
        a.paths@.len() == 0,
        a.values@.len() == 0,
    ensures
        a@ == empty_view(),
{
    assert(a@.paths =~= Map::empty());
    assert(a@.values =~= Map::empty());
}

impl Archive {
    /// An archive without categories and values.
    pub fn new() -> (r: Archive)
        ensures
            r.wf(),
            r@ == empty_view(),
            r.paths@.len() == 0,
            r.values@.len() == 0,
    {
        let r = Archive { paths: Vec::new(), values: Vec::new() };
        proof {
            lemma_empty_lists_model(r);
        }
        r
    }

    /// Whether this node holds no category and no value.
    pub fn is_empty(&self) -> (r: bool)
        requires
            self.wf(),
        ensures
            r == view_is_empty(self@),
    {
        proof {
            lemma_paths_map(self.paths@);
            lemma_values_map(self.values@);
            assert(self@.paths == paths_map(self.paths@));
            assert(self@.values == values_map(self.values@));
            if self.paths@.len() > 0 {
                assert(self@.paths.contains_key(self.paths@[0].0@));
            }
            if self.values@.len() > 0 {
                assert(self@.values.contains_key(self.values@[0].0@));
            }
            if self.paths@.len() == 0 && self.values@.len() == 0 {
                lemma_empty_lists_model(*self);
            }
        }
        self.paths.len() == 0 && self.values.len() == 0
    }

    /// The child category `key`, if there is one.
    pub fn child(&self, key: &str) -> (r: Option<&Archive>)
        requires
            self.wf(),
        ensures
            match r {
                Some(c) => self@.paths.contains_key(key@) && c@ == self@.paths[key@] && c.wf(),
                None => !self@.paths.contains_key(key@),
            },
    {
        proof {
            lemma_paths_map(self.paths@);
            assert(self@.paths == paths_map(self.paths@));
        }
        match search_key(&self.paths, key) {
            Ok(i) => {
                proof {
                    assert(self.paths@[i as int].1.wf());
                    assert(paths_map(self.paths@).contains_key(self.paths@[i as int].0@));
                }
                let c = &self.paths[i].1;
                assert(c@ == self.paths@[i as int].1.model());
                Some(c)
            },
            Err(_) => None,
        }
    }

    /// The value `key` of this node, as JSON text, if there is one.
    pub fn value(&self, key: &str) -> (r: Option<&String>)
        requires
            self.wf(),
        ensures
            match r {
                Some(v) => self@.values.contains_key(key@) && v@ == self@.values[key@],
                None => !self@.values.contains_key(key@),
            },
    {
        proof {
            lemma_values_map(self.values@);
            assert(self@.values == values_map(self.values@));
        }
        match search_key(&self.values, key) {
            Ok(i) => {
                proof {
                    assert(values_map(self.values@).contains_key(self.values@[i as int].0@));
                }
                Some(&self.values[i].1)
            },
            Err(_) => None,
        }
    }

    /// Follows `path` through child categories. The empty path finds nothing.
    pub fn find_path<'s>(&'s self, path: &[&str]) -> (r: Option<&'s Archive>)
        requires
            self.wf(),
        ensures
            match (r, spec_find_path(self@, segs(path@))) {
                (Some(a), Some(v)) => a@ == v && a.wf(),
                (None, None) => true,
                _ => false,
            },
    {
        if path.len() == 0 {
            return None;
        }
        let ghost p = segs(path@);
        let mut node: &Archive = self;
        let mut i: usize = 0;
        proof {
            assert(p.skip(0) =~= p);
        }
        while i < path.len()
            invariant
                node.wf(),
                i <= path@.len(),
                p == segs(path@),
                p.len() == path@.len(),
                find_in(self@, p) == find_in(node@, p.skip(i as int)),
            decreases path@.len() - i,
        {
            proof {
                assert(p.skip(i as int).drop_first() =~= p.skip(i + 1));
                assert(p.skip(i as int)[0] == path@[i as int]@);
            }
            match node.child(path[i]) {
                Some(c) => {
                    node = c;
                },
                None => {
                    return None;
                },
            }
            i = i + 1;
        }
        proof {
            assert(p.skip(i as int) =~= Seq::<Seq<char>>::empty());
        }
        Some(node)
    }

    /// The index of the child category `key`, created empty where it is missing.
    fn child_entry(&mut self, key: &str) -> (i: usize)
        requires
            old(self).wf(),
        ensures
            final(self).wf(),
            i < final(self).paths@.len(),
            final(self).paths@[i as int].0@ == key@,
            final(self).paths@[i as int].1@ == child_or_empty(old(self)@, key@),
            final(self)@ == (ArchiveView {
                paths: old(self)@.paths.insert(key@, child_or_empty(old(self)@, key@)),
                values: old(self)@.values,
            }),
    {
        proof {
            lemma_paths_map(self.paths@);
        }
        match search_key(&self.paths, key) {
            Ok(i) => {
                proof {
                    assert(paths_map(self.paths@).contains_key(self.paths@[i as int].0@));
                    assert(self@.paths.insert(key@, child_or_empty(self@, key@)) =~= self@.paths);
                }
                i
            },
            Err(p) => {
                let ghost old_self = *self;
                let e = (key.to_string(), Archive::new());
                proof {
                    lemma_insert_sorted(self.paths@, p as int, e);
                    lemma_paths_map_insert(self.paths@, p as int, e);
                }
                self.paths.insert(p, e);
                proof {
                    assert(self.paths@[p as int] == e);
                    assert forall|j: int| 0 <= j < self.paths@.len() implies (
                    #[trigger] self.paths@[j]).1.wf() by {
                        if j < p {
                            assert(self.paths@[j] == old_self.paths@[j]);
                        } else if j > p {
                            assert(self.paths@[j] == old_self.paths@[j - 1]);
                        }
                    }
                    assert(!old_self@.paths.contains_key(key@)) by {
                        if old_self@.paths.contains_key(key@) {
                            let j = choose|j: int|
                                0 <= j < old_self.paths@.len() && (#[trigger] old_self.paths@[j]).0@
                                    == key@;
                        }
                    }
                }
                p
            },
        }
    }

    /// The node at `path`, creating every missing category on the way.
    pub fn find_or_create_path_mut<'s>(&'s mut self, path: &[&str]) -> (r: &'s mut Archive)
        requires
            old(self).wf(),
            path@.len() > 0,
        ensures
            r@ == node_at(old(self)@, segs(path@)),
            r.wf(),
            final(self)@ == put_at(old(self)@, segs(path@), final(r)@),
            final(r).wf() ==> final(self).wf(),
        decreases path@.len(),
    {
        let ghost p = segs(path@);
        let i = self.child_entry(path[0]);
        let ghost mid = *self;
        proof {
            assert(p[0] == path@[0]@);
            assert(mid.paths@[i as int].1.wf());
        }
        let child = &mut self.paths[i].1;
        if path.len() == 1 {
            proof {
                assert(p.drop_first() =~= Seq::<Seq<char>>::empty());
                lemma_paths_map_update(mid.paths@, i as int, (mid.paths@[i as int].0, *final(child)));
                lemma_paths_map(mid.paths@);
                assert(node_at(child_or_empty(old(self)@, p[0]), p.drop_first()) == child_or_empty(old(self)@, p[0]));
                assert(put_at(child_or_empty(old(self)@, p[0]), p.drop_first(), final(child)@) == final(child)@);
                assert(old(self)@.paths.insert(p[0], child_or_empty(old(self)@, p[0])).insert(p[0], final(child)@)
                    =~= old(self)@.paths.insert(p[0], final(child)@));
            }
            child
        } else {
            let rest = &path[1..path.len()];
            proof {
                assert(segs(rest@) =~= p.drop_first());
                lemma_paths_map_update(mid.paths@, i as int, (mid.paths@[i as int].0, *final(child)));
                lemma_paths_map(mid.paths@);
                assert(old(self)@.paths.insert(p[0], child_or_empty(old(self)@, p[0])).insert(p[0], final(child)@)
                    =~= old(self)@.paths.insert(p[0], final(child)@));
            }
            child.find_or_create_path_mut(rest)
        }
    }

    /// Lays `other` over this archive: categories merge recursively, and values of `other`
    /// replace those of the same name.
    pub fn merge_onto(&mut self, other: Archive)
        requires
            old(self).wf(),
            other.wf(),
        ensures
            final(self).wf(),
            final(self)@ == spec_merge(old(self)@, other@),
        decreases other,
    {
        let ghost base = self@;
        let ghost orig_paths = other.paths@;
        let ghost orig_values = other.values@;
        let Archive { paths: mut other_paths, values: mut other_values } = other;
        let ghost mut done: int = 0;
        proof {
            assert(orig_paths.subrange(0, 0) =~= Seq::<(String, Archive)>::empty());
            assert(orig_paths.subrange(0, orig_paths.len() as int) =~= orig_paths);
            lemma_merge_right_empty(base);
        }
        while other_paths.len() > 0
            invariant
                self.wf(),
                0 <= done <= orig_paths.len(),
                other_paths@ == orig_paths.subrange(done, orig_paths.len() as int),
                keys_sorted(orig_paths),
                forall|j: int| 0 <= j < orig_paths.len() ==> (#[trigger] orig_paths[j]).1.wf(),
                orig_paths == other.paths@,
                self@ == spec_merge(
                    base,
                    ArchiveView { paths: paths_map(orig_paths.subrange(0, done)), values: Map::empty() },
                ),
            decreases other_paths@.len(),
        {
            let (k, v) = other_paths.remove(0);
            let ghost cur = self@;
            let ghost prefix = orig_paths.subrange(0, done);
            proof {
                assert(orig_paths[done] == (k, v));
                assert(orig_paths.subrange(0, done + 1).drop_last() =~= prefix);
                assert(!paths_map(prefix).contains_key(k@)) by {
                    lemma_paths_map(prefix);
                    if paths_map(prefix).contains_key(k@) {
                        let j = choose|j: int| 0 <= j < prefix.len() && (#[trigger] prefix[j]).0@ == k@;
                        assert(prefix[j] == orig_paths[j]);
                        lemma_sorted_keys_distinct(orig_paths, j, done);
                    }
                }
                lemma_merge_step_path(
                    base,
                    ArchiveView { paths: paths_map(prefix), values: Map::empty() },
                    k@,
                    v@,
                );
                assert(v.wf());
                assert(decreases_to!(other => other.paths));
                assert(decreases_to!(other.paths => other.paths@));
                assert(decreases_to!(other.paths@ => other.paths@[done]));
                assert(decreases_to!(other.paths@[done] => other.paths@[done].1));
            }
            proof {
                lemma_paths_map(self.paths@);
            }
            match search_key(&self.paths, k.as_str()) {
                Ok(i) => {
                    let ghost mid = *self;
                    proof {
                        assert(paths_map(self.paths@).contains_key(self.paths@[i as int].0@));
                        assert(self.paths@[i as int].1.wf());
                        assert(base.paths.contains_key(k@));
                    }
                    let child = &mut self.paths[i].1;
                    child.merge_onto(v);
                    proof {
                        lemma_paths_map_update(mid.paths@, i as int, (mid.paths@[i as int].0, *child));
                        lemma_update_sorted(mid.paths@, i as int, (mid.paths@[i as int].0, *child));
                        assert forall|j: int| 0 <= j < self.paths@.len() implies (
                        #[trigger] self.paths@[j]).1.wf() by {
                            if j != i {
                                assert(self.paths@[j] == mid.paths@[j]);
                            }
                        }
                    }
                },
                Err(p) => {
                    let ghost mid = *self;
                    proof {
                        assert(self@.paths == paths_map(self.paths@));
                        assert(!self@.paths.contains_key(k@));
                        assert(!base.paths.contains_key(k@));
                        lemma_insert_sorted(self.paths@, p as int, (k, v));
                        lemma_paths_map_insert(self.paths@, p as int, (k, v));
                    }
                    self.paths.insert(p, (k, v));
                    proof {
                        assert forall|j: int| 0 <= j < self.paths@.len() implies (
                        #[trigger] self.paths@[j]).1.wf() by {
                            if j < p {
                                assert(self.paths@[j] == mid.paths@[j]);
                            } else if j > p {
                                assert(self.paths@[j] == mid.paths@[j - 1]);
                            }
                        }
                    }
                },
            }
            proof {
                done = done + 1;
                assert(other_paths@ =~= orig_paths.subrange(done, orig_paths.len() as int));
                assert(self@ =~~= spec_merge(
                    base,
                    ArchiveView { paths: paths_map(orig_paths.subrange(0, done)), values: Map::empty() },
                ));
            }
        }
        proof {
            assert(orig_paths.subrange(0, done) =~= orig_paths);
        }
        let ghost pm = paths_map(orig_paths);
        let ghost mut done2: int = 0;
        proof {
            assert(orig_values.subrange(0, 0) =~= Seq::<(String, String)>::empty());
            assert(orig_values.subrange(0, orig_values.len() as int) =~= orig_values);
        }
        while other_values.len() > 0
            invariant
                self.wf(),
                0 <= done2 <= orig_values.len(),
                other_values@ == orig_values.subrange(done2, orig_values.len() as int),
                keys_sorted(orig_values),
                self@ == spec_merge(
                    base,
                    ArchiveView { paths: pm, values: values_map(orig_values.subrange(0, done2)) },
                ),
            decreases other_values@.len(),
        {
            let (k, v) = other_values.remove(0);
            let ghost prefix = orig_values.subrange(0, done2);
            let ghost mid = *self;
            proof {
                assert(orig_values[done2] == (k, v));
                assert(orig_values.subrange(0, done2 + 1).drop_last() =~= prefix);
                lemma_merge_step_value(base, ArchiveView { paths: pm, values: values_map(prefix) }, k@, v@);
                lemma_values_map(self.values@);
            }
            match search_key(&self.values, k.as_str()) {
                Ok(i) => {
                    proof {
                        lemma_values_map_update(self.values@, i as int, (k, v));
                        lemma_update_sorted(self.values@, i as int, (k, v));
                    }
                    self.values.set(i, (k, v));
                },
                Err(p) => {
                    proof {
                        lemma_insert_sorted(self.values@, p as int, (k, v));
                        lemma_values_map_insert(self.values@, p as int, (k, v));
                    }
                    self.values.insert(p, (k, v));
                },
            }
            proof {
                assert(self.paths == mid.paths);
                done2 = done2 + 1;
                assert(other_values@ =~= orig_values.subrange(done2, orig_values.len() as int));
                assert(self@ =~~= spec_merge(
                    base,
                    ArchiveView { paths: pm, values: values_map(orig_values.subrange(0, done2)) },
                ));
            }
        }
        proof {
            assert(orig_values.subrange(0, done2) =~= orig_values);
        }
    }

    /// This archive with `other` laid over it.
    pub fn merge(self, other: Archive) -> (r: Archive)
        requires
            self.wf(),
            other.wf(),
        ensures
            r.wf(),
            r@ == spec_merge(self@, other@),
    {
        let mut this = self;
        this.merge_onto(other);
        this
    }

    /// Creates the archive of what differs in `newer` from this one: categories missing
    /// here, and values that are missing here or hold a different JSON value. What goes
    /// into the patch is removed from `newer`; a category of `newer` stays there while
    /// something is left in it. What this archive holds and `newer` lacks is not reflected.
    pub fn create_patch(&self, newer: &mut Archive) -> (r: Archive)
        requires
            self.wf(),
            old(newer).wf(),
        ensures
            r.wf(),
            final(newer).wf(),
            r@ == spec_patch(self@, old(newer)@).0,
            final(newer)@ == spec_patch(self@, old(newer)@).1,
        decreases *old(newer),
    {
        let ghost base = self@;
        let ghost nv = newer@;
        let ghost orig_paths = newer.paths@;
        let ghost orig_values = newer.values@;
        let ghost sp = spec_patch(base, nv);
        let mut patch = Archive::new();
        let mut old_paths: Vec<(String, Archive)> = Vec::new();
        std::mem::swap(&mut old_paths, &mut newer.paths);
        let ghost mut done: int = 0;
        proof {
            lemma_paths_map(self.paths@);
            lemma_paths_map(orig_paths);
            assert(orig_paths.subrange(0, orig_paths.len() as int) =~= orig_paths);
            assert(paths_map(patch.paths@) =~= sp.0.paths.restrict(Set::new(|k: Seq<char>| has_key(orig_paths.subrange(0, 0), k))));
            assert(paths_map(newer.paths@) =~= sp.1.paths.restrict(Set::new(|k: Seq<char>| has_key(orig_paths.subrange(0, 0), k))));
        }
        while old_paths.len() > 0
            invariant
                self.wf(),
                self@ == base,
                0 <= done <= orig_paths.len(),
                old_paths@ == orig_paths.subrange(done, orig_paths.len() as int),
                keys_sorted(orig_paths),
                forall|j: int| 0 <= j < orig_paths.len() ==> (#[trigger] orig_paths[j]).1.wf(),
                orig_paths == old(newer).paths@,
                nv == old(newer)@,
                sp == spec_patch(base, nv),
                nv.paths == paths_map(orig_paths),
                patch.wf(),
                patch.values@.len() == 0,
                newer.wf(),
                newer.values@ == orig_values,
                forall|j: int| 0 <= j < patch.paths@.len() ==> has_key(orig_paths.subrange(0, done), #[trigger] patch.paths@[j].0@),
                forall|j: int| 0 <= j < newer.paths@.len() ==> has_key(orig_paths.subrange(0, done), #[trigger] newer.paths@[j].0@),
                paths_map(patch.paths@) == sp.0.paths.restrict(Set::new(|k: Seq<char>| has_key(orig_paths.subrange(0, done), k))),
                paths_map(newer.paths@) == sp.1.paths.restrict(Set::new(|k: Seq<char>| has_key(orig_paths.subrange(0, done), k))),
            decreases old_paths@.len(),
        {
            let (k, mut v) = old_paths.remove(0);
            let ghost prefix = orig_paths.subrange(0, done);
            let ghost prefix2 = orig_paths.subrange(0, done + 1);
            proof {
                assert(orig_paths[done] == (k, v));
                assert(v.wf());
                lemma_paths_map(orig_paths);
                lemma_paths_map(self.paths@);
                assert(base.paths == paths_map(self.paths@));
                assert(nv.paths.contains_key(k@) && nv.paths[k@] == v@) by {
                    assert(paths_map(orig_paths).contains_key(orig_paths[done].0@));
                }
                assert(decreases_to!(*old(newer) => old(newer).paths));
                assert(decreases_to!(old(newer).paths => old(newer).paths@));
                assert(decreases_to!(old(newer).paths@ => old(newer).paths@[done]));
                assert(decreases_to!(old(newer).paths@[done] => old(newer).paths@[done].1));
                assert forall|j: int| 0 <= j < patch.paths@.len() implies seq_lt(#[trigger] patch.paths@[j].0@, k@) by {
                    let kj = patch.paths@[j].0@;
                    let jj = choose|jj: int| 0 <= jj < prefix.len() && (#[trigger] prefix[jj]).0@ == kj;
                    assert(prefix[jj] == orig_paths[jj]);
                }
                assert forall|j: int| 0 <= j < newer.paths@.len() implies seq_lt(#[trigger] newer.paths@[j].0@, k@) by {
                    let kj = newer.paths@[j].0@;
                    let jj = choose|jj: int| 0 <= jj < prefix.len() && (#[trigger] prefix[jj]).0@ == kj;
                    assert(prefix[jj] == orig_paths[jj]);
                }
                assert(Set::new(|x: Seq<char>| has_key(prefix2, x)) =~= Set::new(|x: Seq<char>| has_key(prefix, x)).insert(k@)) by {
                    assert forall|x: Seq<char>| has_key(prefix2, x) <==> (has_key(prefix, x) || x == k@) by {
                        if has_key(prefix2, x) {
                            let jj = choose|jj: int| 0 <= jj < prefix2.len() && (#[trigger] prefix2[jj]).0@ == x;
                            if jj < done {
                                assert(prefix[jj] == prefix2[jj]);
                            }
                        }
                        if has_key(prefix, x) {
                            let jj = choose|jj: int| 0 <= jj < prefix.len() && (#[trigger] prefix[jj]).0@ == x;
                            assert(prefix2[jj] == prefix[jj]);
                        }
                        if x == k@ {
                            assert(prefix2[done] == (k, v));
                        }
                    }
                }
            }
            let ghost set1 = Set::new(|x: Seq<char>| has_key(prefix, x));
            let ghost pm0 = paths_map(patch.paths@);
            let ghost nm0 = paths_map(newer.paths@);
            match search_key(&self.paths, k.as_str()) {
                Ok(i) => {
                    proof {
                        assert(paths_map(self.paths@).contains_key(self.paths@[i as int].0@));
                        assert(self.paths@[i as int].1.wf());
                        assert(base.paths.contains_key(k@) && base.paths[k@] == self.paths@[i as int].1@);
                    }
                    let patch_v = self.paths[i].1.create_patch(&mut v);
                    let ghost pv = spec_patch(base.paths[k@], nv.paths[k@]);
                    if !patch_v.is_empty() {
                        let e = (k.clone(), patch_v);
                        proof {
                            lemma_push_sorted(patch.paths@, e);
                            lemma_insert_sorted(patch.paths@, patch.paths@.len() as int, e);
                            lemma_paths_map_insert(patch.paths@, patch.paths@.len() as int, e);
                            assert(patch.paths@.insert(patch.paths@.len() as int, e) =~= patch.paths@.push(e));
                        }
                        let ghost pold = patch.paths@;
                        patch.paths.push(e);
                        proof {
                            assert forall|j: int| 0 <= j < patch.paths@.len() implies (#[trigger] patch.paths@[j]).1.wf() by {
                                if j < pold.len() {
                                    assert(patch.paths@[j] == pold[j]);
                                }
                            }
                            assert(paths_map(patch.paths@) =~= sp.0.paths.restrict(set1.insert(k@)));
                        }
                        if !v.is_empty() {
                            let e2 = (k, v);
                            let ghost nold = newer.paths@;
                            proof {
                                lemma_push_sorted(newer.paths@, e2);
                                lemma_paths_map_insert(newer.paths@, newer.paths@.len() as int, e2);
                                assert(newer.paths@.insert(newer.paths@.len() as int, e2) =~= newer.paths@.push(e2));
                            }
                            newer.paths.push(e2);
                            proof {
                                assert forall|j: int| 0 <= j < newer.paths@.len() implies (#[trigger] newer.paths@[j]).1.wf() by {
                                    if j < nold.len() {
                                        assert(newer.paths@[j] == nold[j]);
                                    }
                                }
                                assert(paths_map(newer.paths@) =~= sp.1.paths.restrict(set1.insert(k@)));
                            }
                        } else {
                            proof {
                                assert(paths_map(newer.paths@) =~= sp.1.paths.restrict(set1.insert(k@)));
                            }
                        }
                    } else {
                        let e2 = (k, v);
                        let ghost nold = newer.paths@;
                        proof {
                            lemma_push_sorted(newer.paths@, e2);
                            lemma_paths_map_insert(newer.paths@, newer.paths@.len() as int, e2);
                            assert(newer.paths@.insert(newer.paths@.len() as int, e2) =~= newer.paths@.push(e2));
                        }
                        newer.paths.push(e2);
                        proof {
                            assert forall|j: int| 0 <= j < newer.paths@.len() implies (#[trigger] newer.paths@[j]).1.wf() by {
                                if j < nold.len() {
                                    assert(newer.paths@[j] == nold[j]);
                                }
                            }
                            assert(paths_map(newer.paths@) =~= sp.1.paths.restrict(set1.insert(k@)));
                            assert(paths_map(patch.paths@) =~= sp.0.paths.restrict(set1.insert(k@)));
                        }
                    }
                },
                Err(_) => {
                    proof {
                        assert(!base.paths.contains_key(k@)) by {
                            if base.paths.contains_key(k@) {
                                let jj = choose|jj: int| 0 <= jj < self.paths@.len() && (#[trigger] self.paths@[jj]).0@ == k@;
                            }
                        }
                    }
                    let e = (k, v);
                    let ghost pold = patch.paths@;
                    proof {
                        lemma_push_sorted(patch.paths@, e);
                        lemma_paths_map_insert(patch.paths@, patch.paths@.len() as int, e);
                        assert(patch.paths@.insert(patch.paths@.len() as int, e) =~= patch.paths@.push(e));
                    }
                    patch.paths.push(e);
                    proof {
                        assert forall|j: int| 0 <= j < patch.paths@.len() implies (#[trigger] patch.paths@[j]).1.wf() by {
                            if j < pold.len() {
                                assert(patch.paths@[j] == pold[j]);
                            }
                        }
                        assert(paths_map(patch.paths@) =~= sp.0.paths.restrict(set1.insert(k@)));
                        assert(paths_map(newer.paths@) =~= sp.1.paths.restrict(set1.insert(k@)));
                    }
                },
            }
            proof {
                done = done + 1;
                assert(old_paths@ =~= orig_paths.subrange(done, orig_paths.len() as int));
                assert forall|j: int| 0 <= j < patch.paths@.len() implies has_key(prefix2, #[trigger] patch.paths@[j].0@) by {
                    lemma_paths_map(patch.paths@);
                    assert(paths_map(patch.paths@).contains_key(patch.paths@[j].0@));
                }
                assert forall|j: int| 0 <= j < newer.paths@.len() implies has_key(prefix2, #[trigger] newer.paths@[j].0@) by {
                    lemma_paths_map(newer.paths@);
                    assert(paths_map(newer.paths@).contains_key(newer.paths@[j].0@));
                }
            }
        }
        proof {
            assert(orig_paths.subrange(0, done) =~= orig_paths);
            assert(sp.0.paths.restrict(Set::new(|k: Seq<char>| has_key(orig_paths, k))) =~= sp.0.paths);
            assert(sp.1.paths.restrict(Set::new(|k: Seq<char>| has_key(orig_paths, k))) =~= sp.1.paths);
        }
        let mut old_values: Vec<(String, String)> = Vec::new();
        std::mem::swap(&mut old_values, &mut newer.values);
        let ghost mut done2: int = 0;
        proof {
            lemma_values_map(self.values@);
            lemma_values_map(orig_values);
            assert(orig_values.subrange(0, orig_values.len() as int) =~= orig_values);
            assert(values_map(patch.values@) =~= sp.0.values.restrict(Set::new(|k: Seq<char>| has_key(orig_values.subrange(0, 0), k))));
            assert(values_map(newer.values@) =~= sp.1.values.restrict(Set::new(|k: Seq<char>| has_key(orig_values.subrange(0, 0), k))));
        }
        while old_values.len() > 0
            invariant
                self.wf(),
                self@ == base,
                0 <= done2 <= orig_values.len(),
                old_values@ == orig_values.subrange(done2, orig_values.len() as int),
                keys_sorted(orig_values),
                orig_values == old(newer).values@,
                nv == old(newer)@,
                sp == spec_patch(base, nv),
                nv.values == values_map(orig_values),
                patch.wf(),
                newer.wf(),
                paths_map(patch.paths@) == sp.0.paths,
                paths_map(newer.paths@) == sp.1.paths,
                forall|j: int| 0 <= j < patch.values@.len() ==> has_key(orig_values.subrange(0, done2), #[trigger] patch.values@[j].0@),
                forall|j: int| 0 <= j < newer.values@.len() ==> has_key(orig_values.subrange(0, done2), #[trigger] newer.values@[j].0@),
                values_map(patch.values@) == sp.0.values.restrict(Set::new(|k: Seq<char>| has_key(orig_values.subrange(0, done2), k))),
                values_map(newer.values@) == sp.1.values.restrict(Set::new(|k: Seq<char>| has_key(orig_values.subrange(0, done2), k))),
            decreases old_values@.len(),
        {
            let (k, v) = old_values.remove(0);
            let ghost prefix = orig_values.subrange(0, done2);
            let ghost prefix2 = orig_values.subrange(0, done2 + 1);
            proof {
                assert(orig_values[done2] == (k, v));
                lemma_values_map(orig_values);
                lemma_values_map(self.values@);
                assert(base.values == values_map(self.values@));
                assert(nv.values.contains_key(k@) && nv.values[k@] == v@) by {
                    assert(values_map(orig_values).contains_key(orig_values[done2].0@));
                }
                assert forall|j: int| 0 <= j < patch.values@.len() implies seq_lt(#[trigger] patch.values@[j].0@, k@) by {
                    let kj = patch.values@[j].0@;
                    let jj = choose|jj: int| 0 <= jj < prefix.len() && (#[trigger] prefix[jj]).0@ == kj;
                    assert(prefix[jj] == orig_values[jj]);
                }
                assert forall|j: int| 0 <= j < newer.values@.len() implies seq_lt(#[trigger] newer.values@[j].0@, k@) by {
                    let kj = newer.values@[j].0@;
                    let jj = choose|jj: int| 0 <= jj < prefix.len() && (#[trigger] prefix[jj]).0@ == kj;
                    assert(prefix[jj] == orig_values[jj]);
                }
                assert(Set::new(|x: Seq<char>| has_key(prefix2, x)) =~= Set::new(|x: Seq<char>| has_key(prefix, x)).insert(k@)) by {
                    assert forall|x: Seq<char>| has_key(prefix2, x) <==> (has_key(prefix, x) || x == k@) by {
                        if has_key(prefix2, x) {
                            let jj = choose|jj: int| 0 <= jj < prefix2.len() && (#[trigger] prefix2[jj]).0@ == x;
                            if jj < done2 {
                                assert(prefix[jj] == prefix2[jj]);
                            }
                        }
                        if has_key(prefix, x) {
                            let jj = choose|jj: int| 0 <= jj < prefix.len() && (#[trigger] prefix[jj]).0@ == x;
                            assert(prefix2[jj] == prefix[jj]);
                        }
                        if x == k@ {
                            assert(prefix2[done2] == (k, v));
                        }
                    }
                }
            }
            let ghost set1 = Set::new(|x: Seq<char>| has_key(prefix, x));
            let changed = match search_key(&self.values, k.as_str()) {
                Ok(i) => {
                    proof {
                        assert(values_map(self.values@).contains_key(self.values@[i as int].0@));
                        assert(base.values.contains_key(k@) && base.values[k@] == self.values@[i as int].1@);
                    }
                    !json_values_equal(self.values[i].1.as_str(), v.as_str())
                },
                Err(_) => {
                    proof {
                        assert(!base.values.contains_key(k@)) by {
                            if base.values.contains_key(k@) {
                                let jj = choose|jj: int| 0 <= jj < self.values@.len() && (#[trigger] self.values@[jj]).0@ == k@;
                            }
                        }
                    }
                    true
                },
            };
            proof {
                assert(changed == value_changed(base, nv, k@));
            }
            let e = (k, v);
            if changed {
                proof {
                    lemma_push_sorted(patch.values@, e);
                    lemma_values_map_insert(patch.values@, patch.values@.len() as int, e);
                    assert(patch.values@.insert(patch.values@.len() as int, e) =~= patch.values@.push(e));
                }
                patch.values.push(e);
            } else {
                proof {
                    lemma_push_sorted(newer.values@, e);
                    lemma_values_map_insert(newer.values@, newer.values@.len() as int, e);
                    assert(newer.values@.insert(newer.values@.len() as int, e) =~= newer.values@.push(e));
                }
                newer.values.push(e);
            }
            proof {
                assert(values_map(patch.values@) =~= sp.0.values.restrict(set1.insert(k@)));
                assert(values_map(newer.values@) =~= sp.1.values.restrict(set1.insert(k@)));
                done2 = done2 + 1;
                assert(old_values@ =~= orig_values.subrange(done2, orig_values.len() as int));
                assert forall|j: int| 0 <= j < patch.values@.len() implies has_key(prefix2, #[trigger] patch.values@[j].0@) by {
                    lemma_values_map(patch.values@);
                    assert(values_map(patch.values@).contains_key(patch.values@[j].0@));
                }
                assert forall|j: int| 0 <= j < newer.values@.len() implies has_key(prefix2, #[trigger] newer.values@[j].0@) by {
                    lemma_values_map(newer.values@);
                    assert(values_map(newer.values@).contains_key(newer.values@[j].0@));
                }
            }
        }
        proof {
            assert(orig_values.subrange(0, done2) =~= orig_values);
            assert(sp.0.values.restrict(Set::new(|k: Seq<char>| has_key(orig_values, k))) =~= sp.0.values);
            assert(sp.1.values.restrict(Set::new(|k: Seq<char>| has_key(orig_values, k))) =~= sp.1.values);
            assert(patch@ =~~= sp.0);
            assert(newer@ =~~= sp.1);
        }
        patch
    }

    /// Sets the child category `key` to `child`, replacing any that was there.
    pub fn insert_path(&mut self, key: String, child: Archive)
        requires
            old(self).wf(),
            child.wf(),
        ensures
            final(self).wf(),
            final(self)@ == (ArchiveView {
                paths: old(self)@.paths.insert(key@, child@),
                values: old(self)@.values,
            }),
    {
        let ghost mid = *self;
        let e = (key, child);
        match search_key(&self.paths, e.0.as_str()) {
            Ok(i) => {
                proof {
                    lemma_paths_map_update(self.paths@, i as int, e);
                    lemma_update_sorted(self.paths@, i as int, e);
                }
                self.paths.set(i, e);
                proof {
                    assert forall|j: int| 0 <= j < self.paths@.len() implies (
                    #[trigger] self.paths@[j]).1.wf() by {
                        if j != i {
                            assert(self.paths@[j] == mid.paths@[j]);
                        }
                    }
                }
            },
            Err(p) => {
                proof {
                    lemma_insert_sorted(self.paths@, p as int, e);
                    lemma_paths_map_insert(self.paths@, p as int, e);
                }
                self.paths.insert(p, e);
                proof {
                    assert forall|j: int| 0 <= j < self.paths@.len() implies (
                    #[trigger] self.paths@[j]).1.wf() by {
                        if j < p {
                            assert(self.paths@[j] == mid.paths@[j]);
                        } else if j > p {
                            assert(self.paths@[j] == mid.paths@[j - 1]);
                        }
                    }
                }
            },
        }
    }

    /// Sets the value `key` to the JSON text `value`, replacing any that was there.
    pub fn insert_value(&mut self, key: String, value: String)
        requires
            old(self).wf(),
        ensures
            final(self).wf(),
            final(self)@ == (ArchiveView {
                paths: old(self)@.paths,
                values: old(self)@.values.insert(key@, value@),
            }),
    {
        let ghost mid = *self;
        let e = (key, value);
        match search_key(&self.values, e.0.as_str()) {
            Ok(i) => {
                proof {
                    lemma_values_map_update(self.values@, i as int, e);
                    lemma_update_sorted(self.values@, i as int, e);
                }
                self.values.set(i, e);
            },
            Err(p) => {
                proof {
                    lemma_insert_sorted(self.values@, p as int, e);
                    lemma_values_map_insert(self.values@, p as int, e);
                }
                self.values.insert(p, e);
            },
        }
        proof {
            assert(self.paths == mid.paths);
        }
    }

    /// Removes every value of this node, keeping its categories.
    pub fn clear_values(&mut self)
        requires
            old(self).wf(),
        ensures
            final(self).wf(),
            final(self)@ == (ArchiveView { paths: old(self)@.paths, values: Map::empty() }),
    {
        self.values.clear();
        proof {
            assert(values_map(self.values@) =~= Map::empty());
        }
    }
}

/// Lists with the same names and models stand for the same categories.
proof fn lemma_paths_map_congruent(a: Seq<(String, Archive)>, b: Seq<(String, Archive)>)
    requires
        a.len() == b.len(),
        forall|j: int| 0 <= j < a.len() ==> (#[trigger] a[j]).0@ == b[j].0@ && a[j].1@ == b[j].1@,
    ensures
        paths_map(a) == paths_map(b),
    decreases a.len(),
{
    if a.len() > 0 {
        assert forall|j: int| 0 <= j < a.drop_last().len() implies (#[trigger] a.drop_last()[j]).0@
            == b.drop_last()[j].0@ && a.drop_last()[j].1@ == b.drop_last()[j].1@ by {
            assert(a.drop_last()[j] == a[j]);
            assert(b.drop_last()[j] == b[j]);
        }
        lemma_paths_map_congruent(a.drop_last(), b.drop_last());
    }
}

impl Archive {
    /// A deep copy of this archive.
    pub fn duplicate(&self) -> (r: Archive)
        requires
            self.wf(),
        ensures
            r.wf(),
            r@ == self@,
        decreases self,
    {
        let mut paths: Vec<(String, Archive)> = Vec::new();
        let mut i: usize = 0;
        while i < self.paths.len()
            invariant
                self.wf(),
                i <= self.paths@.len(),
                paths@.len() == i,
                forall|j: int|
                    0 <= j < i ==> (#[trigger] paths@[j]).0 == self.paths@[j].0 && paths@[j].1@ == self.paths@[j].1@
                        && paths@[j].1.wf(),
            decreases self.paths@.len() - i,
        {
            proof {
                assert(self.paths@[i as int].1.wf());
                assert(decreases_to!(*self => self.paths));
                assert(decreases_to!(self.paths => self.paths@));
                assert(decreases_to!(self.paths@ => self.paths@[i as int]));
                assert(decreases_to!(self.paths@[i as int] => self.paths@[i as int].1));
            }
            let child = self.paths[i].1.duplicate();
            paths.push((self.paths[i].0.clone(), child));
            i = i + 1;
        }
        let mut values: Vec<(String, String)> = Vec::new();
        let mut k: usize = 0;
        while k < self.values.len()
            invariant
                k <= self.values@.len(),
                values@.len() == k,
                forall|j: int| 0 <= j < k ==> (#[trigger] values@[j]) == self.values@[j],
            decreases self.values@.len() - k,
        {
            values.push((self.values[k].0.clone(), self.values[k].1.clone()));
            k = k + 1;
        }
        proof {
            assert(values@ =~= self.values@);
            lemma_paths_map_congruent(paths@, self.paths@);
        }
        Archive { paths, values }
    }
}

/// Merging the empty archive over `a` gives `a`.
pub proof fn lemma_merge_right_empty(a: ArchiveView)
    ensures
        spec_merge(a, empty_view()) == a,
        spec_merge(a, ArchiveView { paths: Map::empty(), values: Map::empty() }) == a,
{
    assert(spec_merge(a, empty_view()).paths =~= a.paths);
    assert(spec_merge(a, empty_view()).values =~= a.values);
}

/// Adding one category to the right side of a merge.
pub proof fn lemma_merge_step_path(a: ArchiveView, b: ArchiveView, k: Seq<char>, x: ArchiveView)
    requires
        !b.paths.contains_key(k),
    ensures
        spec_merge(a, ArchiveView { paths: b.paths.insert(k, x), values: b.values }) == (ArchiveView {
            paths: spec_merge(a, b).paths.insert(
                k,
                if a.paths.contains_key(k) {
                    spec_merge(a.paths[k], x)
                } else {
                    x
                },
            ),
            values: spec_merge(a, b).values,
        }),
{
    let b2 = ArchiveView { paths: b.paths.insert(k, x), values: b.values };
    let lhs = spec_merge(a, b2);
    let rhs = spec_merge(a, b).paths.insert(
        k,
        if a.paths.contains_key(k) {
            spec_merge(a.paths[k], x)
        } else {
            x
        },
    );
    assert(lhs.paths =~= rhs);
}

/// Adding one value to the right side of a merge.
pub proof fn lemma_merge_step_value(a: ArchiveView, b: ArchiveView, k: Seq<char>, x: Seq<char>)
    ensures
        spec_merge(a, ArchiveView { paths: b.paths, values: b.values.insert(k, x) }) == (ArchiveView {
            paths: spec_merge(a, b).paths,
            values: spec_merge(a, b).values.insert(k, x),
        }),
{
    let b2 = ArchiveView { paths: b.paths, values: b.values.insert(k, x) };
    assert(spec_merge(a, b2).paths =~= spec_merge(a, b).paths);
    assert(spec_merge(a, b2).values =~= spec_merge(a, b).values.insert(k, x));
}

/* ------------------------------------------------------------------------------------------ */
/*                                       Archive laws                                         */
/* ------------------------------------------------------------------------------------------ */

/// A node without categories and values is the empty node.
pub proof fn lemma_view_is_empty(v: ArchiveView)
    requires
        view_is_empty(v),
    ensures
        v == empty_view(),
{
    assert(v.paths =~= Map::empty());
    assert(v.values =~= Map::empty());
}

/// Merging `b` over the empty archive gives `b`.
pub proof fn lemma_merge_left_empty(b: ArchiveView)
    ensures
        spec_merge(empty_view(), b) == b,
{
    assert(spec_merge(empty_view(), b).paths =~= b.paths);
    assert(spec_merge(empty_view(), b).values =~= b.values);
}

/// Merging an archive over itself changes nothing.
pub proof fn lemma_merge_idempotent(a: ArchiveView)
    ensures
        spec_merge(a, a) == a,
    decreases a,
{
    assert forall|k: Seq<char>| a.paths.contains_key(k) implies spec_merge(a, a).paths[k] == a.paths[k] by {
        lemma_merge_idempotent(a.paths[k]);
    }
    assert(spec_merge(a, a).paths =~= a.paths);
    assert(spec_merge(a, a).values =~= a.values);
}

/// Merging is associative: laying `b` and then `c` over `a` is laying `c`-over-`b` over `a`.
pub proof fn lemma_merge_associative(a: ArchiveView, b: ArchiveView, c: ArchiveView)
    ensures
        spec_merge(spec_merge(a, b), c) == spec_merge(a, spec_merge(b, c)),
    decreases c,
{
    let l = spec_merge(spec_merge(a, b), c);
    let r = spec_merge(a, spec_merge(b, c));
    assert forall|k: Seq<char>| l.paths.contains_key(k) implies l.paths[k] == r.paths[k] by {
        if c.paths.contains_key(k) && b.paths.contains_key(k) && a.paths.contains_key(k) {
            lemma_merge_associative(a.paths[k], b.paths[k], c.paths[k]);
        }
    }
    assert(l.paths =~= r.paths);
    assert(l.values =~= r.values);
}

/// Every archive counts as the same as itself.
pub proof fn lemma_equiv_reflexive(a: ArchiveView)
    ensures
        equiv(a, a),
    decreases a,
{
    assert forall|k: Seq<char>| a.paths.contains_key(k) implies equiv(a.paths[k], #[trigger] a.paths[k]) by {
        lemma_equiv_reflexive(a.paths[k]);
    }
}

/// Every category and value name of `base` occurs in `newer`, at every depth.
pub open spec fn covers(newer: ArchiveView, base: ArchiveView) -> bool
    decreases base,
{
    &&& forall|k: Seq<char>| base.values.contains_key(k) ==> #[trigger] newer.values.contains_key(k)
    &&& forall|k: Seq<char>|
        base.paths.contains_key(k) ==> #[trigger] newer.paths.contains_key(k) && covers(
            newer.paths[k],
            base.paths[k],
        )
}

/// Laying an archive over one whose names it all holds gives that archive.
pub proof fn lemma_merge_covering(base: ArchiveView, newer: ArchiveView)
    requires
        covers(newer, base),
    ensures
        spec_merge(base, newer) == newer,
    decreases base,
{
    let m = spec_merge(base, newer);
    assert forall|k: Seq<char>| m.paths.contains_key(k) implies m.paths[k] == newer.paths[k] by {
        if base.paths.contains_key(k) {
            assert(newer.paths.contains_key(k));
            lemma_merge_covering(base.paths[k], newer.paths[k]);
        }
    }
    assert(m.paths =~= newer.paths);
    assert(m.values =~= newer.values);
}

/// A patch splits `newer` without loss: what stays in `newer`, with the patch laid over it,
/// is `newer` again.
pub proof fn lemma_patch_partitions(base: ArchiveView, newer: ArchiveView)
    ensures
        spec_merge(spec_patch(base, newer).1, spec_patch(base, newer).0) == newer,
    decreases newer,
{
    let (p, r) = spec_patch(base, newer);
    let m = spec_merge(r, p);
    assert forall|k: Seq<char>| newer.paths.contains_key(k) implies m.paths.contains_key(k) && m.paths[k] == newer.paths[k] by {
        if base.paths.contains_key(k) {
            let (pk, rk) = spec_patch(base.paths[k], newer.paths[k]);
            lemma_patch_partitions(base.paths[k], newer.paths[k]);
            if view_is_empty(pk) {
                lemma_view_is_empty(pk);
                lemma_merge_right_empty(rk);
            } else if view_is_empty(rk) {
                lemma_view_is_empty(rk);
                lemma_merge_left_empty(pk);
            }
        }
    }
    assert(m.paths =~= newer.paths);
    assert(m.values =~= newer.values);
}

/// Applying the patch to `base` gives the same as laying all of `newer` over `base`,
/// up to values that are equal as JSON values.
pub proof fn lemma_patch_applies(base: ArchiveView, newer: ArchiveView)
    ensures
        equiv(spec_merge(base, spec_patch(base, newer).0), spec_merge(base, newer)),
    decreases newer,
{
    let p = spec_patch(base, newer).0;
    let a = spec_merge(base, p);
    let b = spec_merge(base, newer);
    assert forall|k: Seq<char>| a.paths.contains_key(k) implies equiv(a.paths[k], #[trigger] b.paths[k]) by {
        if base.paths.contains_key(k) && newer.paths.contains_key(k) {
            let pk = spec_patch(base.paths[k], newer.paths[k]).0;
            lemma_patch_applies(base.paths[k], newer.paths[k]);
            if view_is_empty(pk) {
                lemma_view_is_empty(pk);
                lemma_merge_right_empty(base.paths[k]);
            }
        } else if base.paths.contains_key(k) {
            lemma_equiv_reflexive(base.paths[k]);
        } else {
            lemma_equiv_reflexive(newer.paths[k]);
        }
    }
    assert(a.paths.dom() =~= b.paths.dom());
    assert(a.values.dom() =~= b.values.dom());
}

/// `find_path` finds what `find_or_create_path_mut` made: after creating the categories of
/// a non-empty path, looking the path up finds the node that was put there.
pub proof fn lemma_find_after_put(v: ArchiveView, p: Seq<Seq<char>>, x: ArchiveView)
    requires
        p.len() > 0,
    ensures
        spec_find_path(put_at(v, p, x), p) == Some(x),
    decreases p.len(),
{
    lemma_find_in_put(v, p, x);
}

proof fn lemma_find_in_put(v: ArchiveView, p: Seq<Seq<char>>, x: ArchiveView)
    ensures
        find_in(put_at(v, p, x), p) == Some(x),
    decreases p.len(),
{
    if p.len() > 0 {
        lemma_find_in_put(child_or_empty(v, p[0]), p.drop_first(), x);
    }
}

/// Where the newer archive keeps every category and value of the base, laying the patch
/// over the base gives the newer archive again, up to values that count as the same.
pub proof fn lemma_patch_restores_newer(base: ArchiveView, newer: ArchiveView)
    requires
        covers(newer, base),
    ensures
        equiv(spec_merge(base, spec_patch(base, newer).0), newer),
{
    lemma_patch_applies(base, newer);
    lemma_merge_covering(base, newer);
}

/// Whether every value of an archive, at every depth, equals itself as a JSON value: it
/// holds of values that are valid JSON texts.
pub open spec fn self_equal(v: ArchiveView) -> bool
    decreases v,
{
    &&& forall|k: Seq<char>| v.values.contains_key(k) ==> json_value_eq(#[trigger] v.values[k], v.values[k])
    &&& forall|k: Seq<char>| v.paths.contains_key(k) ==> self_equal(#[trigger] v.paths[k])
}

/// An archive holds no difference from itself.
pub proof fn lemma_patch_self(x: ArchiveView)
    requires
        self_equal(x),
    ensures
        view_is_empty(spec_patch(x, x).0),
    decreases x,
{
    let p = spec_patch(x, x).0;
    assert forall|k: Seq<char>| !p.paths.contains_key(k) by {
        if x.paths.contains_key(k) {
            lemma_patch_self(x.paths[k]);
        }
    }
    assert forall|k: Seq<char>| !p.values.contains_key(k) by {
        if x.values.contains_key(k) {
            assert(json_value_eq(x.values[k], x.values[k]));
        }
    }
    assert(p.paths.dom() =~= Set::empty());
    assert(p.values.dom() =~= Set::empty());
}

/// Once the patch of `newer` against `base` is laid over `base`, `newer` holds no
/// difference from the result: a second patch is empty.
pub proof fn lemma_patch_after_patch(base: ArchiveView, newer: ArchiveView)
    requires
        self_equal(newer),
    ensures
        view_is_empty(spec_patch(spec_merge(base, spec_patch(base, newer).0), newer).0),
    decreases newer,
{
    let p = spec_patch(base, newer).0;
    let c1 = spec_merge(base, p);
    let p2 = spec_patch(c1, newer).0;
    assert forall|k: Seq<char>| !p2.paths.contains_key(k) by {
        if newer.paths.contains_key(k) {
            if base.paths.contains_key(k) {
                let pk = spec_patch(base.paths[k], newer.paths[k]).0;
                if view_is_empty(pk) {
                    assert(!p.paths.contains_key(k));
                    assert(c1.paths[k] == base.paths[k]);
                } else {
                    assert(p.paths.contains_key(k));
                    assert(c1.paths[k] == spec_merge(base.paths[k], pk));
                    lemma_patch_after_patch(base.paths[k], newer.paths[k]);
                }
            } else {
                assert(p.paths.contains_key(k));
                assert(c1.paths[k] == newer.paths[k]);
                lemma_patch_self(newer.paths[k]);
            }
        }
    }
    assert forall|k: Seq<char>| !p2.values.contains_key(k) by {
        if newer.values.contains_key(k) {
            assert(json_value_eq(newer.values[k], newer.values[k]));
            if value_changed(base, newer, k) {
                assert(p.values.contains_key(k));
                assert(c1.values[k] == newer.values[k]);
            } else {
                assert(!p.values.contains_key(k));
                assert(c1.values[k] == base.values[k]);
            }
        }
    }
    assert(p2.paths.dom() =~= Set::empty());
    assert(p2.values.dom() =~= Set::empty());
}

/// The node at a path that goes on from `p` by `r` is the node at `r` below the node at `p`.
pub proof fn lemma_node_at_concat(v: ArchiveView, p: Seq<Seq<char>>, r: Seq<Seq<char>>)
    ensures
        node_at(v, p + r) == node_at(node_at(v, p), r),
    decreases p.len(),
{
    if p.len() > 0 {
        assert((p + r)[0] == p[0]);
        assert((p + r).drop_first() =~= p.drop_first() + r);
        lemma_node_at_concat(child_or_empty(v, p[0]), p.drop_first(), r);
    } else {
        assert(p + r =~= r);
    }
}

/// Putting `x` at path `p` gives `x` at `p` and below it what lies below `x`; every node
/// off the path keeps what it held, and the nodes on the way to `p` keep their values.
pub proof fn lemma_node_at_put(v: ArchiveView, p: Seq<Seq<char>>, x: ArchiveView, q: Seq<Seq<char>>)
    ensures
        p.is_prefix_of(q) ==> node_at(put_at(v, p, x), q) == node_at(x, q.skip(p.len() as int)),
        !p.is_prefix_of(q) && !q.is_prefix_of(p) ==> node_at(put_at(v, p, x), q) == node_at(v, q),
        q.is_prefix_of(p) && q.len() < p.len() ==> node_at(put_at(v, p, x), q).values == node_at(v, q).values,
    decreases p.len(),
{
    if p.len() == 0 {
        assert(q.skip(0) =~= q);
    } else if q.len() == 0 {
        assert(q.is_prefix_of(p));
    } else {
        let w = put_at(v, p, x);
        if q[0] == p[0] {
            assert(child_or_empty(w, q[0]) == put_at(child_or_empty(v, p[0]), p.drop_first(), x));
            lemma_node_at_put(child_or_empty(v, p[0]), p.drop_first(), x, q.drop_first());
            if p.is_prefix_of(q) {
                assert(p.drop_first().is_prefix_of(q.drop_first())) by {
                    assert forall|i: int| 0 <= i < p.drop_first().len() implies p.drop_first()[i] == q.drop_first()[i] by {
                        assert(p[i + 1] == q[i + 1]);
                    }
                }
                assert(q.drop_first().skip(p.drop_first().len() as int) =~= q.skip(p.len() as int));
            }
            if q.is_prefix_of(p) {
                assert(q.drop_first().is_prefix_of(p.drop_first())) by {
                    assert forall|i: int| 0 <= i < q.drop_first().len() implies q.drop_first()[i] == p.drop_first()[i] by {
                        assert(q[i + 1] == p[i + 1]);
                    }
                }
            }
            if !p.is_prefix_of(q) && !q.is_prefix_of(p) {
                if p.drop_first().is_prefix_of(q.drop_first()) {
                    assert(p.is_prefix_of(q)) by {
                        assert forall|i: int| 0 <= i < p.len() implies p[i] == q[i] by {
                            if i > 0 {
                                assert(p.drop_first()[i - 1] == q.drop_first()[i - 1]);
                            }
                        }
                    }
                }
                if q.drop_first().is_prefix_of(p.drop_first()) {
                    assert(q.is_prefix_of(p)) by {
                        assert forall|i: int| 0 <= i < q.len() implies q[i] == p[i] by {
                            if i > 0 {
                                assert(q.drop_first()[i - 1] == p.drop_first()[i - 1]);
                            }
                        }
                    }
                }
            }
        } else {
            assert(child_or_empty(w, q[0]) == child_or_empty(v, q[0]));
            assert(!p.is_prefix_of(q));
            assert(!q.is_prefix_of(p));
        }
    }
}

} // verus!
