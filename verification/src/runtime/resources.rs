//! Resource registry: named, typed values that belong to plugins.

use vstd::prelude::*;
use crate::text::same;

verus! {

/// A named value with the id of its type and its owner.
pub struct ResourceEntry<V> {
    pub name: String,
    pub value: V,
    pub type_id: u128,
    pub plugin_id: u64,
}

/// All resources, no two under one name.
pub struct Resources<V> {
    pub entries: Vec<ResourceEntry<V>>,
}

impl<V> Resources<V> {
    pub open spec fn wf(&self) -> bool {
        distinct(self.entries@)
    }

    pub fn new() -> (r: Self)
        ensures
            r.wf(),
            r.entries@.len() == 0,
            r@ == Map::<Seq<char>, Stored<V>>::empty(),
    {
        let r = Resources { entries: Vec::new() };
        assert(r@ =~= Map::<Seq<char>, Stored<V>>::empty());
        r
    }

    fn find(&self, name: &str) -> (r: Option<usize>)
        ensures
            r matches Some(i) ==> i < self.entries@.len() && self.entries@[i as int].name@ == name@,
            r is None <==> !has_name(self.entries@, name@),
    {
        let mut i: usize = 0;
        while i < self.entries.len()
            invariant
                i <= self.entries@.len(),
                forall|k: int| 0 <= k < i ==> (#[trigger] self.entries@[k]).name@ != name@,
            decreases self.entries.len() - i,
        {
            if same(self.entries[i].name.as_str(), name) {
                assert(has_name(self.entries@, name@));
                return Some(i);
            }
            i = i + 1;
        }
        None
    }
}

/// What is stored under a name.
pub struct Stored<V> {
    pub value: V,
    pub type_id: u128,
    pub plugin_id: u64,
}

pub open spec fn stored<V>(e: ResourceEntry<V>) -> Stored<V> {
    Stored { value: e.value, type_id: e.type_id, plugin_id: e.plugin_id }
}

/// What is stored under which name.
pub open spec fn by_name<V>(s: Seq<ResourceEntry<V>>) -> Map<Seq<char>, Stored<V>> {
    Map::new(
        |name: Seq<char>| has_name(s, name),
        |name: Seq<char>| stored(s[choose|i: int| 0 <= i < s.len() && (#[trigger] s[i]).name@ == name]),
    )
}

impl<T> View for Resources<T> {
    type V = Map<Seq<char>, Stored<T>>;

    open spec fn view(&self) -> Map<Seq<char>, Stored<T>> {
        by_name(self.entries@)
    }
}

/// No two resources have one name.
pub open spec fn distinct<V>(s: Seq<ResourceEntry<V>>) -> bool {
    forall|i: int, j: int| 0 <= i < j < s.len() ==> (#[trigger] s[i]).name@ != (#[trigger] s[j]).name@
}

proof fn lemma_by_name<V>(s: Seq<ResourceEntry<V>>, i: int)
    requires
        distinct(s),
        0 <= i < s.len(),
    ensures
        by_name(s).dom().contains(s[i].name@),
        by_name(s)[s[i].name@] == stored(s[i]),
{
    let name = s[i].name@;
    assert(has_name(s, name));
    let k = choose|k: int| 0 <= k < s.len() && (#[trigger] s[k]).name@ == name;
    assert(k == i);
}

proof fn lemma_put<V>(s: Seq<ResourceEntry<V>>, e: ResourceEntry<V>)
    requires
        distinct(s),
        !has_name(s, e.name@),
    ensures
        distinct(s.push(e)),
        by_name(s.push(e)) == by_name(s).insert(e.name@, stored(e)),
{
    let after = s.push(e);
    assert forall|i: int, j: int| 0 <= i < j < after.len() implies (#[trigger] after[i]).name@ != (#[trigger] after[j]).name@ by {
        assert(s[i] == after[i]);
    }
    lemma_by_name(after, s.len() as int);
    assert forall|name: Seq<char>| has_name(after, name) <==> has_name(s, name) || name == e.name@ by {
        if has_name(s, name) {
            let i = choose|i: int| 0 <= i < s.len() && (#[trigger] s[i]).name@ == name;
            assert(after[i].name@ == name);
        }
        if name == e.name@ {
            assert(after[s.len() as int].name@ == name);
        }
        if has_name(after, name) {
            let i = choose|i: int| 0 <= i < after.len() && (#[trigger] after[i]).name@ == name;
            if i < s.len() {
                assert(s[i].name@ == name);
            }
        }
    }
    assert forall|name: Seq<char>| has_name(s, name) implies by_name(after)[name] == by_name(s)[name] by {
        let i = choose|i: int| 0 <= i < s.len() && (#[trigger] s[i]).name@ == name;
        assert(after[i] == s[i]);
        lemma_by_name(s, i);
        lemma_by_name(after, i);
    }
    assert(by_name(after) =~= by_name(s).insert(e.name@, stored(e)));
}

proof fn lemma_remove<V>(s: Seq<ResourceEntry<V>>, i: int)
    requires
        distinct(s),
        0 <= i < s.len(),
    ensures
        distinct(s.remove(i)),
        !has_name(s.remove(i), s[i].name@),
        by_name(s.remove(i)) == by_name(s).remove(s[i].name@),
{
    let after = s.remove(i);
    assert forall|name: Seq<char>| has_name(after, name) <==> has_name(s, name) && name != s[i].name@ by {
        if has_name(s, name) && name != s[i].name@ {
            let k = choose|k: int| 0 <= k < s.len() && (#[trigger] s[k]).name@ == name;
            let at = if k < i {
                k
            } else {
                k - 1
            };
            assert(after[at].name@ == name);
        }
        if has_name(after, name) {
            let k = choose|k: int| 0 <= k < after.len() && (#[trigger] after[k]).name@ == name;
            let at = if k < i {
                k
            } else {
                k + 1
            };
            assert(s[at].name@ == name);
        }
    }
    assert forall|name: Seq<char>| has_name(after, name) implies by_name(after)[name] == by_name(s)[name] by {
        let k = choose|k: int| 0 <= k < after.len() && (#[trigger] after[k]).name@ == name;
        let at = if k < i {
            k
        } else {
            k + 1
        };
        assert(s[at] == after[k]);
        lemma_by_name(after, k);
        lemma_by_name(s, at);
    }
    assert(by_name(after) =~= by_name(s).remove(s[i].name@));
}

/// Is there a resource of this name?
pub open spec fn has_name<V>(s: Seq<ResourceEntry<V>>, name: Seq<char>) -> bool {
    exists|i: int| 0 <= i < s.len() && (#[trigger] s[i]).name@ == name
}

/// The value under a name, if there is one and it has this type.
pub open spec fn got<V>(m: Map<Seq<char>, Stored<V>>, name: Seq<char>, type_id: u128) -> Option<V> {
    if m.dom().contains(name) && m[name].type_id == type_id {
        Some(m[name].value)
    } else {
        None
    }
}

/// Does a resource of this name exist?
pub fn resource_exists<V>(table: &Resources<V>, name: &str) -> (r: bool)
    ensures
        r == table@.dom().contains(name@),
{
    table.find(name).is_some()
}

/// Stores a resource. One that was there under the name is handed out to be dropped.
pub fn tau_resource_put<V>(table: &mut Resources<V>, name: &str, value: V, type_id: u128, plugin_id: u64) -> (r: Option<V>)
    requires
        old(table).wf(),
    ensures
        final(table).wf(),
        final(table)@ == old(table)@.insert(name@, Stored { value, type_id, plugin_id }),
        r == if old(table)@.dom().contains(name@) {
            Some(old(table)@[name@].value)
        } else {
            None
        },
{
    let ghost before = table.entries@;
    let mut replaced: Option<V> = None;
    if let Some(i) = table.find(name) {
        proof {
            lemma_by_name(before, i as int);
            lemma_remove(before, i as int);
        }
        let e = table.entries.remove(i);
        replaced = Some(e.value);
        assert(table.entries@ =~= before.remove(i as int));
    }
    let ghost mid = table.entries@;
    let entry = ResourceEntry { name: name.to_owned(), value, type_id, plugin_id };
    proof {
        lemma_put(mid, entry);
    }
    table.entries.push(entry);
    assert(table@ =~= by_name(before).insert(name@, Stored { value, type_id, plugin_id }));
    replaced
}

/// The value of a resource, if there is one of this name and type.
pub fn tau_resource_get<'a, V>(table: &'a Resources<V>, name: &str, type_id: u128) -> (r: Option<&'a V>)
    requires
        table.wf(),
    ensures
        r == match got(table@, name@, type_id) {
            Some(v) => Some(&v),
            None => None,
        },
{
    match table.find(name) {
        Some(i) => {
            proof {
                lemma_by_name(table.entries@, i as int);
            }
            if table.entries[i].type_id == type_id {
                Some(&table.entries[i].value)
            } else {
                None
            }
        },
        None => None,
    }
}

/// Takes a resource out, if there is one of this name and type. It is the caller's then.
pub fn tau_resource_take<V>(table: &mut Resources<V>, name: &str, type_id: u128) -> (r: Option<V>)
    requires
        old(table).wf(),
    ensures
        final(table).wf(),
        r == got(old(table)@, name@, type_id),
        final(table)@ == if r is Some {
            old(table)@.remove(name@)
        } else {
            old(table)@
        },
{
    let ghost before = table.entries@;
    match table.find(name) {
        Some(i) => {
            proof {
                lemma_by_name(before, i as int);
                lemma_remove(before, i as int);
            }
            if table.entries[i].type_id == type_id {
                let e = table.entries.remove(i);
                assert(table.entries@ =~= before.remove(i as int));
                Some(e.value)
            } else {
                None
            }
        },
        None => None,
    }
}

/// What is put is got, by its name and its type; another type gets nothing, and the other names are
/// as they were. What is taken is gone.
pub proof fn what_is_put_is_got<V>(m: Map<Seq<char>, Stored<V>>, name: Seq<char>, put: Stored<V>, other: Seq<char>, type_id: u128)
    requires
        other != name,
    ensures
        got(m.insert(name, put), name, put.type_id) == Some(put.value),
        type_id != put.type_id ==> got(m.insert(name, put), name, type_id) is None,
        got(m.insert(name, put), other, type_id) == got(m, other, type_id),
        got(m.remove(name), name, type_id) is None,
        got(m.remove(name), other, type_id) == got(m, other, type_id),
{
}

/// The resources of the other plugins.
pub open spec fn entries_without<V>(s: Seq<ResourceEntry<V>>, plugin_id: u64) -> Seq<ResourceEntry<V>>
    decreases s.len(),
{
    if s.len() == 0 {
        s
    } else if s.last().plugin_id == plugin_id {
        entries_without(s.drop_last(), plugin_id)
    } else {
        entries_without(s.drop_last(), plugin_id).push(s.last())
    }
}

/// The resources of one plugin.
pub open spec fn entries_of<V>(s: Seq<ResourceEntry<V>>, plugin_id: u64) -> Seq<ResourceEntry<V>>
    decreases s.len(),
{
    if s.len() == 0 {
        s
    } else if s.last().plugin_id == plugin_id {
        entries_of(s.drop_last(), plugin_id).push(s.last())
    } else {
        entries_of(s.drop_last(), plugin_id)
    }
}

/// Nothing of a plugin is left among the resources once it has gone; what is left was there before,
/// and all that belongs to others is left.
pub proof fn no_resource_of_a_dropped_plugin_is_left<V>(s: Seq<ResourceEntry<V>>, plugin_id: u64)
    ensures
        forall|i: int|
            0 <= i < entries_without(s, plugin_id).len() ==> (#[trigger] entries_without(s, plugin_id)[i]).plugin_id != plugin_id,
        forall|i: int|
            0 <= i < entries_without(s, plugin_id).len() ==> s.contains(#[trigger] entries_without(s, plugin_id)[i]),
        forall|i: int|
            0 <= i < s.len() && (#[trigger] s[i]).plugin_id != plugin_id ==> entries_without(s, plugin_id).contains(s[i]),
        entries_without(s, plugin_id).len() + entries_of(s, plugin_id).len() == s.len(),
    decreases s.len(),
{
    if s.len() > 0 {
        let d = s.drop_last();
        let q = entries_without(d, plugin_id);
        let r = entries_without(s, plugin_id);
        no_resource_of_a_dropped_plugin_is_left(d, plugin_id);
        assert forall|i: int| 0 <= i < s.len() && (#[trigger] s[i]).plugin_id != plugin_id implies r.contains(s[i]) by {
            if i < d.len() {
                assert(d[i] == s[i]);
                let k = choose|k: int| 0 <= k < q.len() && q[k] == d[i];
                assert(r[k] == s[i]);
            } else {
                assert(r[q.len() as int] == s[i]);
            }
        }
        assert forall|i: int| 0 <= i < r.len() implies s.contains(#[trigger] r[i]) by {
            if i < q.len() {
                assert(q[i] == r[i]);
                assert(d.contains(q[i]));
                let k = choose|k: int| 0 <= k < d.len() && d[k] == q[i];
                assert(s[k] == r[i]);
            } else {
                assert(s[s.len() - 1] == r[i]);
            }
        }
    }
}

/// The names of what is left stand in the same order, so none occurs twice.
proof fn lemma_entries_without<V>(s: Seq<ResourceEntry<V>>, plugin_id: u64)
    requires
        distinct(s),
    ensures
        distinct(entries_without(s, plugin_id)),
    decreases s.len(),
{
    if s.len() > 0 {
        let d = s.drop_last();
        let q = entries_without(d, plugin_id);
        let r = entries_without(s, plugin_id);
        lemma_entries_without(d, plugin_id);
        no_resource_of_a_dropped_plugin_is_left(d, plugin_id);
        assert forall|i: int, j: int| 0 <= i < j < r.len() implies (#[trigger] r[i]).name@ != (#[trigger] r[j]).name@ by {
            if j == q.len() {
                assert(d.contains(q[i]));
                let k = choose|k: int| 0 <= k < d.len() && d[k] == q[i];
                assert(s[k].name@ != s[s.len() - 1].name@);
            }
        }
    }
}

/// What is stored, without what belongs to a plugin.
pub open spec fn without_plugin<V>(m: Map<Seq<char>, Stored<V>>, plugin_id: u64) -> Map<Seq<char>, Stored<V>> {
    Map::new(|name: Seq<char>| m.dom().contains(name) && m[name].plugin_id != plugin_id, |name: Seq<char>| m[name])
}

proof fn lemma_without_plugin<V>(s: Seq<ResourceEntry<V>>, plugin_id: u64)
    requires
        distinct(s),
    ensures
        by_name(entries_without(s, plugin_id)) == without_plugin(by_name(s), plugin_id),
{
    let r = entries_without(s, plugin_id);
    lemma_entries_without(s, plugin_id);
    no_resource_of_a_dropped_plugin_is_left(s, plugin_id);
    assert forall|name: Seq<char>|
        has_name(r, name) implies has_name(s, name) && by_name(s)[name].plugin_id != plugin_id && by_name(r)[name] == by_name(s)[name] by {
        let k = choose|k: int| 0 <= k < r.len() && (#[trigger] r[k]).name@ == name;
        assert(s.contains(r[k]));
        let i = choose|i: int| 0 <= i < s.len() && s[i] == r[k];
        lemma_by_name(r, k);
        lemma_by_name(s, i);
    }
    assert forall|name: Seq<char>| has_name(s, name) && by_name(s)[name].plugin_id != plugin_id implies has_name(r, name) by {
        let i = choose|i: int| 0 <= i < s.len() && (#[trigger] s[i]).name@ == name;
        lemma_by_name(s, i);
        assert(r.contains(s[i]));
        let k = choose|k: int| 0 <= k < r.len() && r[k] == s[i];
        assert(r[k].name@ == name);
    }
    assert(by_name(r) =~= without_plugin(by_name(s), plugin_id));
}

/// Takes all resources of a plugin out, to be dropped with the plugin as the current one.
pub fn drop_plugin_resources<V>(table: &mut Resources<V>, plugin_id: u64) -> (r: Vec<ResourceEntry<V>>)
    requires
        old(table).wf(),
    ensures
        final(table).wf(),
        final(table).entries@ == entries_without(old(table).entries@, plugin_id),
        final(table)@ == without_plugin(old(table)@, plugin_id),
        r@ == entries_of(old(table).entries@, plugin_id),
{
    let ghost t = table.entries@;
    let n: usize = table.entries.len();
    let mut dropped: Vec<ResourceEntry<V>> = Vec::new();
    let mut i: usize = 0;
    let mut k: usize = 0;
    proof {
        assert(t.take(0) =~= Seq::empty());
        assert(t.skip(0) =~= t);
        assert(Seq::<ResourceEntry<V>>::empty() + t =~= t);
    }
    while k < n
        invariant
            i <= k <= n == t.len(),
            i == entries_without(t.take(k as int), plugin_id).len(),
            table.entries@ == entries_without(t.take(k as int), plugin_id) + t.skip(k as int),
            dropped@ == entries_of(t.take(k as int), plugin_id),
        decreases n - k,
    {
        let ghost kept = entries_without(t.take(k as int), plugin_id);
        proof {
            assert(t.take(k as int + 1).drop_last() =~= t.take(k as int));
            assert(table.entries@[i as int] == t[k as int]);
        }
        if table.entries[i].plugin_id == plugin_id {
            let e = table.entries.remove(i);
            dropped.push(e);
            assert(table.entries@ =~= kept + t.skip(k as int + 1));
        } else {
            i = i + 1;
            assert(table.entries@ =~= kept.push(t[k as int]) + t.skip(k as int + 1));
        }
        k = k + 1;
    }
    proof {
        assert(t.take(n as int) =~= t);
        assert(table.entries@ =~= entries_without(t, plugin_id));
        lemma_entries_without(t, plugin_id);
        lemma_without_plugin(t, plugin_id);
    }
    dropped
}

} // verus!
