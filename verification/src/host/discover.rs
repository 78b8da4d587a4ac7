//! Finding plugins.

use vstd::prelude::*;
use crate::host::compiler;
use crate::host::compiler::join_path;
use crate::text;
use crate::text::{chars_of, same, split_at_char};

verus! {

/// Is this a plugin: a directory with a manifest, or a file that is a shared library?
pub fn is_plugin(is_dir: bool, has_manifest: bool, is_file: bool, extension: Option<&str>) -> (r: bool)
    ensures
        r == ((is_dir && has_manifest) || (is_file && (extension matches Some(e) && (e@ == "dylib"@ || e@ == "so"@)))),
{
    if is_dir && has_manifest {
        return true;
    }
    match extension {
        Some(e) => is_file && (same(e, "dylib") || same(e, "so")),
        None => false,
    }
}

/// The plugin directory below a home or a workspace.
pub fn plugins_dir(base: &str) -> (r: String)
    ensures
        r@ == compiler::path_below(compiler::path_below(base@, ".tau"@), "plugins"@),
{
    let a = join_path(base, ".tau");
    join_path(a.as_str(), "plugins")
}

/// The first of the directories, from the working directory upwards, that has plugins.
pub fn first_workspace(has_plugins: &Vec<bool>) -> (r: Option<usize>)
    ensures
        r matches Some(i) ==> i < has_plugins@.len() && has_plugins@[i as int] && forall|k: int|
            0 <= k < i ==> !has_plugins@[k],
        r is None ==> forall|k: int| 0 <= k < has_plugins@.len() ==> !has_plugins@[k],
{
    let mut i: usize = 0;
    while i < has_plugins.len()
        invariant
            i <= has_plugins@.len(),
            forall|k: int| 0 <= k < i ==> !has_plugins@[k],
        decreases has_plugins.len() - i,
    {
        if has_plugins[i] {
            return Some(i);
        }
        i = i + 1;
    }
    None
}

/// The sort key of one component of a path: what kind it is, its characters (each one more than
/// its code point), a zero. The root comes before `.`, then `..`, then names.
pub open spec fn component_key(kind: int, name: Seq<char>) -> Seq<int> {
    seq![kind] + name.map_values(|c: char| (c as u32 + 1) as int) + seq![0int]
}

/// The keys of the pieces below `n` of a path. Empty pieces count for nothing, and neither does
/// `.` but at the start of a relative path.
pub open spec fn pieces_key(pieces: Seq<Seq<char>>, n: int) -> Seq<int>
    decreases n,
{
    if n <= 0 {
        Seq::empty()
    } else {
        let before = pieces_key(pieces, n - 1);
        let p = pieces[n - 1];
        if p.len() == 0 {
            if n == 1 && pieces.len() > 1 {
                component_key(0, Seq::empty())
            } else {
                before
            }
        } else if p == seq!['.'] {
            if n == 1 {
                component_key(1, Seq::empty())
            } else {
                before
            }
        } else if p == seq!['.', '.'] {
            before + component_key(2, Seq::empty())
        } else {
            before + component_key(3, p)
        }
    }
}

/// The sort key of a path: paths are ordered component by component.
pub open spec fn path_key(path: Seq<char>) -> Seq<int> {
    let pieces = text::split_on(path, '/');
    pieces_key(pieces, pieces.len() as int)
}

/// Lexicographic order.
pub open spec fn key_less(a: Seq<int>, b: Seq<int>) -> bool
    decreases a.len(),
{
    if b.len() == 0 {
        false
    } else if a.len() == 0 {
        true
    } else if a[0] == b[0] {
        key_less(a.drop_first(), b.drop_first())
    } else {
        a[0] < b[0]
    }
}

proof fn lemma_key_total(a: Seq<int>, b: Seq<int>)
    ensures
        key_less(a, b) || key_less(b, a) || a == b,
        !(key_less(a, b) && key_less(b, a)),
        !key_less(a, a),
    decreases a.len(),
{
    if a.len() > 0 {
        lemma_key_total(a.drop_first(), a.drop_first());
    }
    if a.len() > 0 && b.len() > 0 && a[0] == b[0] {
        lemma_key_total(a.drop_first(), b.drop_first());
        if a.drop_first() == b.drop_first() {
            assert(a =~= seq![a[0]] + a.drop_first());
            assert(b =~= seq![b[0]] + b.drop_first());
        }
    }
    if a.len() == 0 && b.len() == 0 {
        assert(a =~= b);
    }
}

proof fn lemma_key_transitive(a: Seq<int>, b: Seq<int>, c: Seq<int>)
    requires
        key_less(a, b),
        key_less(b, c),
    ensures
        key_less(a, c),
    decreases a.len(),
{
    if a.len() > 0 && b.len() > 0 && c.len() > 0 && a[0] == b[0] && b[0] == c[0] {
        lemma_key_transitive(a.drop_first(), b.drop_first(), c.drop_first());
    }
}

pub open spec fn ints(v: Seq<u32>) -> Seq<int> {
    v.map_values(|x: u32| x as int)
}

fn push_component(key: &mut Vec<u32>, kind: u32, name: &Vec<char>)
    ensures
        ints(final(key)@) == ints(old(key)@) + component_key(kind as int, name@),
{
    let ghost start = ints(key@);
    key.push(kind);
    let mut i: usize = 0;
    assert(ints(key@) =~= start + seq![kind as int]);
    let ghost names = name@.map_values(|c: char| (c as u32 + 1) as int);
    assert(start + seq![kind as int] =~= start + (seq![kind as int] + names.take(0)));
    while i < name.len()
        invariant
            i <= name@.len(),
            names == name@.map_values(|c: char| (c as u32 + 1) as int),
            ints(key@) == start + (seq![kind as int] + names.take(i as int)),
        decreases name.len() - i,
    {
        let ghost before = ints(key@);
        let code: u32 = name[i] as u32;
        proof {
            vstd::utf8::char_is_scalar(name@[i as int]);
        }
        key.push(code + 1);
        assert(ints(key@) =~= before.push((code + 1) as int));
        assert(ints(key@) =~= start + (seq![kind as int] + names.take(i as int + 1)));
        i = i + 1;
    }
    let ghost before = ints(key@);
    key.push(0);
    assert(ints(key@) =~= before.push(0));
    assert(names.take(i as int) =~= names);
    assert(ints(key@) =~= start + component_key(kind as int, name@));
}

fn key_of(path: &str) -> (r: Vec<u32>)
    ensures
        ints(r@) == path_key(path@),
{
    let pieces = split_at_char(path, '/');
    let ghost all = text::views(pieces@);
    let mut key: Vec<u32> = Vec::new();
    let none: Vec<char> = Vec::new();
    let mut n: usize = 0;
    assert(ints(key@) =~= Seq::<int>::empty());
    while n < pieces.len()
        invariant
            all == text::views(pieces@),
            none@.len() == 0,
            n <= pieces@.len(),
            n == 0 ==> ints(key@) == Seq::<int>::empty(),
            ints(key@) == pieces_key(all, n as int),
        decreases pieces.len() - n,
    {
        assert(all[n as int] == pieces@[n as int]@);
        assert(none@ =~= Seq::<char>::empty());
        let p = chars_of(pieces[n].as_str());
        let one_dot: bool = p.len() == 1 && p[0] == '.';
        let two_dots: bool = p.len() == 2 && p[0] == '.' && p[1] == '.';
        assert(one_dot == (p@ =~= seq!['.']));
        assert(two_dots == (p@ =~= seq!['.', '.']));
        if p.len() == 0 {
            if n == 0 && pieces.len() > 1 {
                push_component(&mut key, 0, &none);
                assert(ints(key@) =~= component_key(0, Seq::empty()));
            }
        } else if one_dot {
            if n == 0 {
                push_component(&mut key, 1, &none);
                assert(ints(key@) =~= component_key(1, Seq::empty()));
            }
        } else if two_dots {
            push_component(&mut key, 2, &none);
        } else {
            push_component(&mut key, 3, &p);
        }
        n = n + 1;
    }
    key
}

/// Which of two keys comes first.
#[derive(Clone, Copy, PartialEq, Eq, Structural)]
enum Order {
    Before,
    Same,
    After,
}

fn compare(a: &Vec<u32>, b: &Vec<u32>) -> (r: Order)
    ensures
        r == Order::Before <==> key_less(ints(a@), ints(b@)),
        r == Order::Same <==> ints(a@) == ints(b@),
{
    let ghost x = ints(a@);
    let ghost y = ints(b@);
    proof {
        lemma_key_total(x, y);
        assert(x.skip(0) =~= x);
        assert(y.skip(0) =~= y);
    }
    let mut i: usize = 0;
    while i < a.len() && i < b.len()
        invariant
            x == ints(a@),
            y == ints(b@),
            i <= a@.len(),
            i <= b@.len(),
            forall|k: int| 0 <= k < i ==> x[k] == y[k],
            key_less(x, y) == key_less(x.skip(i as int), y.skip(i as int)),
        decreases a.len() - i,
    {
        proof {
            assert(x.skip(i as int)[0] == x[i as int]);
            assert(y.skip(i as int)[0] == y[i as int]);
            assert(x.skip(i as int).drop_first() =~= x.skip(i as int + 1));
            assert(y.skip(i as int).drop_first() =~= y.skip(i as int + 1));
        }
        if a[i] < b[i] {
            assert(x[i as int] != y[i as int]);
            return Order::Before;
        }
        if a[i] > b[i] {
            assert(x[i as int] != y[i as int]);
            return Order::After;
        }
        i = i + 1;
    }
    if a.len() == b.len() {
        assert(x =~= y);
        Order::Same
    } else if a.len() < b.len() {
        assert(x.len() != y.len());
        Order::Before
    } else {
        assert(x.len() != y.len());
        Order::After
    }
}

/// Paths stand in strictly growing order.
pub open spec fn ascending(paths: Seq<Seq<char>>) -> bool {
    forall|i: int, j: int| 0 <= i < j < paths.len() ==> key_less(path_key(#[trigger] paths[i]), path_key(#[trigger] paths[j]))
}

/// Does the list hold a path equal to this one?
pub open spec fn represented(list: Seq<String>, path: Seq<char>) -> bool {
    exists|j: int| 0 <= j < list.len() && path_key((#[trigger] list[j])@) == path_key(path)
}

/// Puts a path in its place; one that stands there already is left alone.
fn insert_path(sorted: &mut Vec<String>, path: String)
    requires
        ascending(text::views(old(sorted)@)),
    ensures
        ascending(text::views(final(sorted)@)),
        represented(final(sorted)@, path@),
        forall|i: int|
            0 <= i < final(sorted)@.len() ==> (#[trigger] final(sorted)@[i])@ == path@ || text::views(old(sorted)@).contains(
                final(sorted)@[i]@,
            ),
        forall|i: int|
            0 <= i < old(sorted)@.len() ==> text::views(final(sorted)@).contains((#[trigger] old(sorted)@[i])@),
{
    let ghost before = text::views(sorted@);
    let key = key_of(path.as_str());
    let ghost k0 = path_key(path@);
    let mut at: usize = 0;
    while at < sorted.len()
        invariant
            before == text::views(sorted@),
            before == text::views(old(sorted)@),
            sorted@ == old(sorted)@,
            ascending(before),
            ints(key@) == k0,
            k0 == path_key(path@),
            at <= sorted@.len(),
            forall|k: int| 0 <= k < at ==> key_less(path_key(#[trigger] before[k]), k0),
        ensures
            at <= sorted@.len(),
            sorted@ == old(sorted)@,
            forall|k: int| 0 <= k < at ==> key_less(path_key(#[trigger] before[k]), k0),
            at < sorted@.len() ==> key_less(k0, path_key(before[at as int])),
        decreases sorted.len() - at,
    {
        let other = key_of(sorted[at].as_str());
        assert(before[at as int] == sorted@[at as int]@);
        proof {
            lemma_key_total(ints(other@), k0);
        }
        match compare(&other, &key) {
            Order::Before => {
                at = at + 1;
            },
            Order::Same => {
                proof {
                    assert(path_key(sorted@[at as int]@) == k0);
                    assert forall|i: int| 0 <= i < sorted@.len() implies before.contains((#[trigger] sorted@[i])@) by {
                        assert(before[i] == sorted@[i]@);
                    }
                }
                return;
            },
            Order::After => {
                break;
            },
        }
    }
    let ghost old_s = sorted@;
    let ghost p = path@;
    sorted.insert(at, path);
    proof {
        let after = text::views(sorted@);
        assert(after =~= before.insert(at as int, p));
        assert forall|i: int, j: int| 0 <= i < j < after.len() implies key_less(
            path_key(#[trigger] after[i]),
            path_key(#[trigger] after[j]),
        ) by {
            let bi = if i < at {
                i
            } else {
                i - 1
            };
            let bj = if j < at {
                j
            } else {
                j - 1
            };
            if i != at && j != at {
                assert(after[i] == before[bi]);
                assert(after[j] == before[bj]);
            } else if j == at {
                assert(after[i] == before[i]);
            } else {
                assert(after[j] == before[j - 1]);
                if j - 1 > at {
                    lemma_key_transitive(k0, path_key(before[at as int]), path_key(before[j - 1]));
                }
            }
        }
        assert(sorted@[at as int]@ == p);
        assert forall|i: int| 0 <= i < sorted@.len() implies (#[trigger] sorted@[i])@ == p || before.contains(sorted@[i]@) by {
            if i < at {
                assert(before[i] == sorted@[i]@);
            } else if i > at {
                assert(before[i - 1] == sorted@[i]@);
            }
        }
        assert forall|i: int| 0 <= i < old_s.len() implies after.contains((#[trigger] old_s[i])@) by {
            if i < at {
                assert(after[i] == old_s[i]@);
            } else {
                assert(after[i + 1] == old_s[i]@);
            }
        }
    }
}

/// Sorts the found plugins and drops what was found twice.
///
/// The result is in strictly growing order; it holds nothing but what was found, and for every
/// path that was found an equal one. Paths are compared component by component.
pub fn discover_plugins(found: &Vec<String>) -> (r: Vec<String>)
    ensures
        ascending(text::views(r@)),
        forall|i: int| 0 <= i < r@.len() ==> text::views(found@).contains((#[trigger] r@[i])@),
        forall|i: int| 0 <= i < found@.len() ==> represented(r@, (#[trigger] found@[i])@),
{
    let mut sorted: Vec<String> = Vec::new();
    let mut n: usize = 0;
    while n < found.len()
        invariant
            n <= found@.len(),
            ascending(text::views(sorted@)),
            forall|i: int| 0 <= i < sorted@.len() ==> text::views(found@).contains((#[trigger] sorted@[i])@),
            forall|i: int| 0 <= i < n ==> represented(sorted@, (#[trigger] found@[i])@),
        decreases found.len() - n,
    {
        let ghost before = sorted@;
        insert_path(&mut sorted, found[n].clone());
        proof {
            assert(text::views(found@)[n as int] == found@[n as int]@);
            assert forall|i: int| 0 <= i < sorted@.len() implies text::views(found@).contains((#[trigger] sorted@[i])@) by {
                if sorted@[i]@ != found@[n as int]@ {
                    assert(text::views(before).contains(sorted@[i]@));
                    let k = choose|k: int| 0 <= k < text::views(before).len() && text::views(before)[k] == sorted@[i]@;
                    assert(text::views(found@).contains(before[k]@));
                }
            }
            assert forall|i: int| 0 <= i < n + 1 implies represented(sorted@, (#[trigger] found@[i])@) by {
                if i < n {
                    assert(represented(before, found@[i]@));
                    let j = choose|j: int| 0 <= j < before.len() && path_key((#[trigger] before[j])@) == path_key(found@[i]@);
                    assert(text::views(sorted@).contains(before[j]@));
                    let k = choose|k: int| 0 <= k < text::views(sorted@).len() && text::views(sorted@)[k] == before[j]@;
                    assert(sorted@[k]@ == before[j]@);
                }
            }
        }
        n = n + 1;
    }
    sorted
}

} // verus!
