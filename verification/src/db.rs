use std::collections::{HashMap, HashSet};
use std::hash::Hash;
use vstd::prelude::*;
use vstd::std_specs::hash::{obeys_key_model, spec_hash_map_iter};
use vstd::std_specs::iter::IteratorSpec;
use vstd::string::*;
use crate::text::same_text;
use crate::stamp::{clock_since_epoch, parts_in_range, stamp_at, stamp_text, UtcParts};
use crate::sort::{sort_by_key_stable, lemma_stable_sorted_permutes, stable_sorted};

verus! {

/// The tables met when following the dependency map `deps` from `t`, at
/// most `fuel` times: `t`, the table it refers to, that table's, and so on.
pub open spec fn dependency_path<T>(deps: Map<T, T>, t: T, fuel: nat) -> Seq<T>
    decreases fuel,
{
    if fuel > 0 && deps.contains_key(t) {
        seq![t] + dependency_path(deps, deps[t], (fuel - 1) as nat)
    } else {
        seq![t]
    }
}

/// The dependency chain of `t`: the path followed as far as a chain
/// without a repeated table can reach in `deps`.
pub open spec fn chain_of<T>(deps: Map<T, T>, t: T) -> Seq<T> {
    dependency_path(deps, t, deps.dom().len())
}

/// Following `deps` from `t` reaches a table that refers to nothing,
/// meets no table twice after `t`, and meets none of `visited`.
pub open spec fn resolvable<'a, T>(deps: Map<T, T>, visited: Set<&'a T>, t: T) -> bool {
    let p = chain_of(deps, t);
    &&& !deps.contains_key(p.last())
    &&& p.drop_first().no_duplicates()
    &&& forall|i: int| 1 <= i < p.len() ==> !visited.contains(&p[i])
}

/// A path that ends at a table without dependency stays the same with more fuel.
proof fn lemma_path_stable<T>(deps: Map<T, T>, t: T, n: nat, m: nat)
    requires
        n <= m,
        !deps.contains_key(dependency_path(deps, t, n).last()),
    ensures
        dependency_path(deps, t, m) == dependency_path(deps, t, n),
    decreases n,
{
    if n == 0 {
        assert(!deps.contains_key(t));
    } else if !deps.contains_key(t) {
    } else {
        let p = dependency_path(deps, deps[t], (n - 1) as nat);
        assert(dependency_path(deps, t, n) == seq![t] + p);
        assert((seq![t] + p).last() == p.last());
        lemma_path_stable(deps, deps[t], (n - 1) as nat, (m - 1) as nat);
    }
}

proof fn lemma_path_nonempty<T>(deps: Map<T, T>, t: T, n: nat)
    ensures
        dependency_path(deps, t, n).len() >= 1,
        dependency_path(deps, t, n)[0] == t,
    decreases n,
{
    if n > 0 && deps.contains_key(t) {
        lemma_path_nonempty(deps, deps[t], (n - 1) as nat);
    }
}

/// The chain of a table that refers to another is that table followed by
/// the chain of the other.
proof fn lemma_chain_step<T>(deps: Map<T, T>, t: T)
    requires
        deps.dom().finite(),
        deps.contains_key(t),
        !deps.contains_key(chain_of(deps, t).last()),
    ensures
        chain_of(deps, t) == seq![t] + chain_of(deps, deps[t]),
{
    let n = deps.dom().len();
    assert(n > 0) by {
        assert(deps.dom().contains(t));
    }
    let p = dependency_path(deps, deps[t], (n - 1) as nat);
    assert(chain_of(deps, t) == seq![t] + p);
    lemma_path_nonempty(deps, deps[t], (n - 1) as nat);
    assert((seq![t] + p).last() == p.last());
    lemma_path_stable(deps, deps[t], (n - 1) as nat, n);
}

/// Each table on a dependency path refers to the next one.
proof fn lemma_path_links<T>(deps: Map<T, T>, t: T, n: nat)
    ensures
        forall|i: int|
            0 <= i < dependency_path(deps, t, n).len() - 1 ==> deps.contains_key(
                #[trigger] dependency_path(deps, t, n)[i],
            ) && deps[dependency_path(deps, t, n)[i]] == dependency_path(deps, t, n)[i + 1],
    decreases n,
{
    lemma_path_nonempty(deps, t, n);
    if n > 0 && deps.contains_key(t) {
        let rest = dependency_path(deps, deps[t], (n - 1) as nat);
        lemma_path_links(deps, deps[t], (n - 1) as nat);
        lemma_path_nonempty(deps, deps[t], (n - 1) as nat);
        let p = dependency_path(deps, t, n);
        assert(p == seq![t] + rest);
        assert forall|i: int| 0 <= i < p.len() - 1 implies deps.contains_key(#[trigger] p[i]) && deps[p[i]] == p[i + 1] by {
            if i > 0 {
                assert(p[i] == rest[i - 1]);
                assert(p[i + 1] == rest[i]);
            }
        }
    }
}

/// The chain that `get_deps` lists for a resolvable table starts at a table
/// without dependency, ends at the table itself, and each table in it is the
/// dependency of the table that follows it.
pub proof fn law_chain_links<'a, T>(deps: Map<T, T>, visited: Set<&'a T>, t: T)
    requires
        resolvable(deps, visited, t),
    ensures
        ({
            let c = chain_of(deps, t).reverse();
            &&& c.len() >= 1
            &&& c.last() == t
            &&& !deps.contains_key(c[0])
            &&& forall|i: int| 0 <= i < c.len() - 1 ==> deps.contains_key(#[trigger] c[i + 1]) && deps[c[i + 1]] == c[i]
        }),
{
    let p = chain_of(deps, t);
    lemma_path_nonempty(deps, t, deps.dom().len());
    lemma_path_links(deps, t, deps.dom().len());
    let c = p.reverse();
    assert(c[0] == p.last());
    assert(c.last() == p[0]);
    assert forall|i: int| 0 <= i < c.len() - 1 implies deps.contains_key(#[trigger] c[i + 1]) && deps[c[i + 1]] == c[i] by {
        let j = p.len() - 2 - i;
        assert(c[i + 1] == p[j]);
        assert(c[i] == p[j + 1]);
    }
}

/// Without any dependency, the chain of a table is the table alone: the
/// shortcut `table_deps_graph` takes for an empty map gives what `get_deps`
/// would.
pub proof fn law_no_deps_chain<T>(t: T)
    ensures
        chain_of(Map::<T, T>::empty(), t) == seq![t],
        chain_of(Map::<T, T>::empty(), t).reverse() == seq![t],
{
    assert(seq![t].reverse() =~= seq![t]);
}

/// The tables that a sequence of references points to.
pub open spec fn derefs<'a, T>(s: Seq<&'a T>) -> Seq<T> {
    s.map_values(|r: &'a T| *r)
}

/// Follows the dependencies of `target` in `deps` ({from: to}) and appends
/// to `result` the tables of its chain, the last dependency first and
/// `target` last. Every table reached after `target` is added to `visited`.
///
/// The chain must not loop nor meet a table of `visited` (`resolvable`):
/// such a graph has no order of dependencies. `obeys_key_model` is vstd's
/// statement that the key type hashes and compares lawfully, which a hash
/// map needs. vstd states no such model for references, so what `visited`
/// holds afterwards is stated under that model for `&T`.
pub fn get_deps<'a, T: Hash + Eq>(
    target: &'a T,
    deps: &'a HashMap<T, T>,
    result: &mut Vec<&'a T>,
    visited: &mut HashSet<&'a T>,
)
    requires
        obeys_key_model::<T>(),
        resolvable(deps@, old(visited)@, *target),
    ensures
        ({
            let p = chain_of(deps@, *target);
            &&& derefs(final(result)@) == derefs(old(result)@) + p.reverse()
            &&& obeys_key_model::<&'a T>() ==> forall|x: &'a T|
                #[trigger] final(visited)@.contains(x) <==> (old(visited)@.contains(x) || p.drop_first().contains(
                    *x,
                ))
        }),
{
    follow_chain(target, deps, result, visited);
}

/// The recursion of `get_deps`, on any table whose chain ends at a table
/// without dependency.
fn follow_chain<'a, T: Hash + Eq>(
    target: &'a T,
    deps: &'a HashMap<T, T>,
    result: &mut Vec<&'a T>,
    visited: &mut HashSet<&'a T>,
)
    requires
        obeys_key_model::<T>(),
        !deps@.contains_key(chain_of(deps@, *target).last()),
    ensures
        ({
            let p = chain_of(deps@, *target);
            &&& derefs(final(result)@) == derefs(old(result)@) + p.reverse()
            &&& obeys_key_model::<&'a T>() ==> forall|x: &'a T|
                #[trigger] final(visited)@.contains(x) <==> (old(visited)@.contains(x) || p.drop_first().contains(
                    *x,
                ))
        }),
    decreases chain_of(deps@, *target).len(),
{
    proof {
        lemma_path_nonempty(deps@, *target, deps@.dom().len());
    }
    match deps.get(target) {
        Some(link) => {
            let ghost p = chain_of(deps@, *target);
            proof {
                lemma_chain_step(deps@, *target);
                assert(p.drop_first() == chain_of(deps@, *link));
                assert(p[1] == *link);
            }
            let ghost old_result = result@;
            let ghost old_visited = visited@;
            visited.insert(link);
            let ghost mid_visited = visited@;
            follow_chain(link, deps, result, visited);
            result.push(target);
            proof {
                let q = chain_of(deps@, *link);
                assert(derefs(result@) =~= derefs(old_result) + q.reverse() + seq![*target]);
                assert(p.reverse() =~= q.reverse().push(*target)) by {
                    assert(p == seq![*target] + q);
                    assert forall|i: int| 0 <= i < p.len() implies #[trigger] p.reverse()[i]
                        == q.reverse().push(*target)[i] by {
                        if i < q.len() {
                            assert(p.reverse()[i] == p[p.len() - 1 - i]);
                            assert(p[p.len() - 1 - i] == q[q.len() - 1 - i]);
                        }
                    }
                }
                if obeys_key_model::<&'a T>() {
                    assert(mid_visited == old_visited.insert(link));
                    assert forall|x: &'a T|
                        visited@.contains(x) <==> (old_visited.contains(x) || p.drop_first().contains(
                            *x,
                        )) by {
                        assert(q[0] == *link);
                        assert(visited@.contains(x) <==> (mid_visited.contains(x) || q.drop_first().contains(*x)));
                        assert(mid_visited.contains(x) <==> (old_visited.contains(x) || x == link));
                        assert(p.drop_first() == q);
                        assert(q.contains(*x) <==> (*x == q[0] || q.drop_first().contains(*x))) by {
                            if q.contains(*x) {
                                let j = choose|j: int| 0 <= j < q.len() && q[j] == *x;
                                if j > 0 {
                                    assert(q.drop_first()[j - 1] == *x);
                                }
                            }
                            if q.drop_first().contains(*x) {
                                let j = choose|j: int| 0 <= j < q.drop_first().len() && q.drop_first()[j] == *x;
                                assert(q[j + 1] == *x);
                            }
                            if *x == q[0] {
                                assert(q.contains(q[0]));
                            }
                        }
                        if *x == *link {
                            assert(x == link);
                        }
                    }
                }
            }
        },
        None => {
            proof {
                assert(chain_of(deps@, *target) == seq![*target]);
                assert(seq![*target].reverse() =~= seq![*target]);
                assert(chain_of(deps@, *target).drop_first() =~= Seq::<T>::empty());
            }
            let ghost old_result = result@;
            result.push(target);
            assert(derefs(result@) =~= derefs(old_result) + seq![*target]);
        },
    }
}

/// For each table of `tables`, in order, the table and the chain that
/// `get_deps` computes for it with an empty `visited` set: its dependencies,
/// the deepest first, then the table itself.
pub fn table_deps_graph<'a, T: Hash + Eq>(tables: &'a Vec<T>, deps: &'a HashMap<T, T>) -> (graph:
    Vec<(&'a T, Vec<&'a T>)>)
    requires
        obeys_key_model::<T>(),
        forall|i: int| 0 <= i < tables.len() ==> resolvable(deps@, Set::empty(), #[trigger] tables@[i]),
    ensures
        graph.len() == tables.len(),
        forall|i: int|
            0 <= i < tables.len() ==> *(#[trigger] graph@[i]).0 == tables@[i] && derefs(graph@[i].1@)
                == chain_of(deps@, tables@[i]).reverse(),
{
    let mut graph: Vec<(&'a T, Vec<&'a T>)> = Vec::new();
    if deps.len() == 0 {
        for k in 0..tables.len()
            invariant
                graph.len() == k,
                deps@.dom().len() == 0,
                forall|i: int|
                    0 <= i < k ==> *(#[trigger] graph@[i]).0 == tables@[i] && derefs(graph@[i].1@)
                        == chain_of(deps@, tables@[i]).reverse(),
        {
            let table = &tables[k];
            let single = vec![table];
            proof {
                assert(chain_of(deps@, *table) == seq![*table]);
                assert(seq![*table].reverse() =~= seq![*table]);
                assert(derefs(single@) =~= seq![*table]);
            }
            graph.push((table, single));
        }
        return graph;
    }
    for k in 0..tables.len()
        invariant
            graph.len() == k,
            obeys_key_model::<T>(),
            forall|i: int| 0 <= i < tables.len() ==> resolvable(deps@, Set::empty(), #[trigger] tables@[i]),
            forall|i: int|
                0 <= i < k ==> *(#[trigger] graph@[i]).0 == tables@[i] && derefs(graph@[i].1@)
                    == chain_of(deps@, tables@[i]).reverse(),
    {
        let table = &tables[k];
        let mut refs: Vec<&'a T> = Vec::new();
        let mut visited: HashSet<&'a T> = HashSet::with_capacity(tables.len());
        proof {
            assert(visited@ == Set::<&'a T>::empty());
            assert(resolvable(deps@, Set::empty(), tables@[k as int]));
        }
        get_deps(table, deps, &mut refs, &mut visited);
        proof {
            assert(derefs(Seq::<&'a T>::empty()) =~= Seq::<T>::empty());
            assert(derefs(refs@) =~= chain_of(deps@, *table).reverse());
        }
        graph.push((table, refs));
    }
    graph
}



/// The character sequences of a sequence of strings.
pub open spec fn names_of(s: Seq<String>) -> Seq<Seq<char>> {
    s.map_values(|t: String| t@)
}

/// How many tables of `refs` ({table: table it refers to}) refer to `name`.
pub open spec fn ref_count(refs: Map<String, String>, name: Seq<char>) -> nat {
    refs.dom().filter(refers_to(refs, name)).len()
}

/// Whether a table refers to `name` in `refs`.
pub open spec fn refers_to(refs: Map<String, String>, name: Seq<char>) -> spec_fn(String) -> bool {
    |k: String| refs[k]@ == name
}

/// The names of the listed tables and of the tables referred to.
pub open spec fn all_names(tables: Seq<String>, refs: Map<String, String>) -> Set<Seq<char>> {
    names_of(tables).to_set() + referenced_names(refs)
}

/// The names of the tables that `refs` refers to.
pub open spec fn referenced_names(refs: Map<String, String>) -> Set<Seq<char>> {
    refs.values().map(|v: String| v@)
}

/// How many pairs of `s` have `name` as their second part.
spec fn count_values<'a>(s: Seq<(&'a String, &'a String)>, name: Seq<char>) -> nat
    decreases s.len(),
{
    if s.len() == 0 {
        0
    } else {
        count_values(s.drop_last(), name) + if (*s.last().1)@ == name {
            1nat
        } else {
            0nat
        }
    }
}

spec fn key_list<'a>(s: Seq<(&'a String, &'a String)>) -> Seq<String> {
    s.map_values(|p: (&'a String, &'a String)| *p.0)
}

spec fn keys_of<'a>(s: Seq<(&'a String, &'a String)>) -> Set<String> {
    key_list(s).to_set()
}

/// Counting the pairs of a listing of a map is counting the keys of the map.
proof fn lemma_count_keys<'a>(m: Map<String, String>, s: Seq<(&'a String, &'a String)>, name: Seq<char>)
    requires
        s.no_duplicates(),
        forall|i: int| 0 <= i < s.len() ==> m.contains_key(*(#[trigger] s[i]).0) && m[*s[i].0] == *s[i].1,
    ensures
        keys_of(s).finite(),
        count_values(s, name) == keys_of(s).filter(refers_to(m, name)).len(),
    decreases s.len(),
{
    let pred = refers_to(m, name);
    if s.len() == 0 {
        assert(keys_of(s) =~= Set::<String>::empty());
        assert(keys_of(s).filter(pred) =~= Set::<String>::empty());
    } else {
        let t = s.drop_last();
        let x = s.last();
        assert(t.no_duplicates());
        assert forall|i: int| 0 <= i < t.len() implies m.contains_key(*(#[trigger] t[i]).0) && m[*t[i].0] == *t[i].1 by {
            assert(t[i] == s[i]);
        }
        lemma_count_keys(m, t, name);
        assert forall|k: String| #[trigger] keys_of(s).contains(k) <==> (keys_of(t).contains(k) || k == *x.0) by {
            if keys_of(s).contains(k) {
                let j = choose|j: int| 0 <= j < key_list(s).len() && key_list(s)[j] == k;
                if j < t.len() {
                    assert(key_list(t)[j] == k);
                } else {
                    assert(*x.0 == k);
                }
            }
            if keys_of(t).contains(k) {
                let j = choose|j: int| 0 <= j < key_list(t).len() && key_list(t)[j] == k;
                assert(key_list(s)[j] == k);
            }
            if k == *x.0 {
                assert(key_list(s)[s.len() - 1] == k);
            }
        }
        assert(keys_of(s) =~= keys_of(t).insert(*x.0));
        assert(!keys_of(t).contains(*x.0)) by {
            if keys_of(t).contains(*x.0) {
                let j = choose|j: int| 0 <= j < key_list(t).len() && key_list(t)[j] == *x.0;
                assert(*t[j].0 == *x.0);
                assert(s[j] == t[j]);
                assert(*s[j].1 == *x.1);
                assert(s[j] == s[s.len() - 1]);
            }
        }
        if pred(*x.0) {
            assert(keys_of(s).filter(pred) =~= keys_of(t).filter(pred).insert(*x.0));
            assert(m[*x.0] == *x.1);
        } else {
            assert(keys_of(s).filter(pred) =~= keys_of(t).filter(pred));
        }
    }
}

/// A name that no pair carries is counted zero times.
proof fn lemma_count_absent<'a>(s: Seq<(&'a String, &'a String)>, name: Seq<char>)
    requires
        !value_list(s).to_set().contains(name),
    ensures
        count_values(s, name) == 0,
    decreases s.len(),
{
    if s.len() > 0 {
        let t = s.drop_last();
        assert(value_list(s)[s.len() - 1] == (*s.last().1)@);
        assert forall|i: int| 0 <= i < t.len() implies value_list(t)[i] == #[trigger] value_list(s)[i] by {}
        if value_list(t).to_set().contains(name) {
            let j = choose|j: int| 0 <= j < value_list(t).len() && value_list(t)[j] == name;
            assert(value_list(s)[j] == name);
        }
        lemma_count_absent(t, name);
    }
}

/// A listing of all pairs of a map, each once: its keys are the keys of the
/// map and its values the values of the map.
proof fn lemma_listing_of_map<'a>(m: Map<String, String>, s: Seq<(&'a String, &'a String)>)
    requires
        forall|i: int| 0 <= i < s.len() ==> m.contains_key(*(#[trigger] s[i]).0) && m[*s[i].0] == *s[i].1,
        forall|k: String| #[trigger] m.contains_key(k) ==> s.contains((&k, &m[k])),
    ensures
        keys_of(s) == m.dom(),
        value_list(s).to_set() == referenced_names(m),
{
    assert forall|k: String| #[trigger] keys_of(s).contains(k) <==> m.dom().contains(k) by {
        if keys_of(s).contains(k) {
            let j = choose|j: int| 0 <= j < key_list(s).len() && key_list(s)[j] == k;
            assert(*s[j].0 == k);
        }
        if m.dom().contains(k) {
            let j = choose|j: int| 0 <= j < s.len() && s[j] == (&k, &m[k]);
            assert(key_list(s)[j] == k);
        }
    }
    assert(keys_of(s) =~= m.dom());
    let vs = referenced_names(m);
    assert forall|n: Seq<char>| #[trigger] value_list(s).to_set().contains(n) <==> vs.contains(n) by {
        if value_list(s).to_set().contains(n) {
            let j = choose|j: int| 0 <= j < value_list(s).len() && value_list(s)[j] == n;
            let k = *s[j].0;
            assert(m.values().contains(m[k]));
            assert(vs.contains(n));
        }
        if vs.contains(n) {
            let v = choose|v: String| m.values().contains(v) && v@ == n;
            let k = choose|k: String| m.dom().contains(k) && m[k] == v;
            let j = choose|j: int| 0 <= j < s.len() && s[j] == (&k, &m[k]);
            assert(value_list(s)[j] == n);
        }
    }
    assert(value_list(s).to_set() =~= vs);
}

/// The names of the second parts of the pairs of `s`, in order.
spec fn value_list<'a>(s: Seq<(&'a String, &'a String)>) -> Seq<Seq<char>> {
    s.map_values(|p: (&'a String, &'a String)| (*p.1)@)
}

/// The position of `name` in `names`, if it is there.
fn position_of(names: &Vec<String>, name: &String) -> (r: Option<usize>)
    ensures
        match r {
            Some(j) => j < names.len() && names@[j as int]@ == name@,
            None => !names_of(names@).contains(name@),
        },
{
    let mut j: usize = 0;
    while j < names.len()
        invariant
            j <= names.len(),
            forall|q: int| 0 <= q < j ==> names@[q]@ != name@,
        decreases names.len() - j,
    {
        if names[j] == *name {
            return Some(j);
        }
        j = j + 1;
    }
    proof {
        if names_of(names@).contains(name@) {
            let q = choose|q: int| 0 <= q < names_of(names@).len() && names_of(names@)[q] == name@;
            assert(names@[q]@ == name@);
        }
    }
    None
}

/// The tables that `table_refs` refers to, each once, with how many
/// tables refer to it.
fn count_references(table_refs: &HashMap<String, String>) -> (r: (Vec<String>, Vec<usize>))
    requires
        obeys_key_model::<String>(),
    ensures
        r.0.len() == r.1.len(),
        names_of(r.0@).no_duplicates(),
        names_of(r.0@).to_set() == referenced_names(table_refs@),
        forall|j: int| 0 <= j < r.1.len() ==> #[trigger] r.1@[j] == ref_count(table_refs@, r.0@[j]@),
{
    let total = table_refs.len();
    let mut names: Vec<String> = Vec::new();
    let mut counts: Vec<usize> = Vec::new();
    let ghost full = spec_hash_map_iter(&table_refs).remaining();
    for kv in it: table_refs.iter()
        invariant
            total == table_refs@.dom().len(),
            it.seq().len() == total,
            it.seq() == full,
            full.no_duplicates(),
            names.len() == counts.len(),
            names_of(names@).no_duplicates(),
            forall|j: int| 0 <= j < counts.len() ==> #[trigger] counts@[j] == count_values(full.take(it.index()), names@[j]@),
            forall|j: int| 0 <= j < counts.len() ==> #[trigger] counts@[j] <= it.index(),
            names_of(names@).to_set() == value_list(full.take(it.index())).to_set(),
    {
        let (_table, target) = kv;
        let ghost s = full;
        let ghost idx = it.index();
        assert(s.take(idx + 1).drop_last() == s.take(idx));
        assert(s.take(idx + 1).last() == kv);
        assert(value_list(s.take(idx + 1)) == value_list(s.take(idx)).push(target@));
        proof {
            value_list(s.take(idx)).lemma_push_to_set_commute(target@);
        }
        match position_of(&names, target) {
            Some(j) => {
                let c = counts[j] + 1;
                counts.set(j, c);
                proof {
                    assert forall|q: int| 0 <= q < counts.len() implies #[trigger] counts@[q] == count_values(s.take(idx + 1), names@[q]@) by {
                        if q != j {
                            assert(names@[q]@ != target@) by {
                                assert(names_of(names@)[q] == names@[q]@);
                                assert(names_of(names@)[j as int] == names@[j as int]@);
                            }
                        }
                    }
                    assert(names_of(names@).to_set().contains(target@)) by {
                        assert(names_of(names@)[j as int] == target@);
                    }
                    assert(names_of(names@).to_set() =~= value_list(s.take(idx + 1)).to_set());
                }
            },
            None => {
                let ghost old_names = names@;
                names.push(target.clone());
                counts.push(1);
                proof {
                    assert(names_of(names@) =~= names_of(old_names).push(target@));
                    names_of(old_names).lemma_push_to_set_commute(target@);
                    assert(names_of(names@).no_duplicates()) by {
                        assert forall|a: int, b: int| 0 <= a < b < names_of(names@).len() implies names_of(names@)[a] != names_of(names@)[b] by {
                            if b == old_names.len() {
                                assert(names_of(old_names).to_set().contains(names_of(old_names)[a]));
                            }
                        }
                    }
                    assert forall|q: int| 0 <= q < counts.len() implies #[trigger] counts@[q] == count_values(s.take(idx + 1), names@[q]@) by {
                        if q < old_names.len() {
                            assert(names@[q]@ != target@) by {
                                assert(names_of(old_names)[q] == old_names[q]@);
                            }
                        } else {
                            assert(count_values(s.take(idx), target@) == 0) by {
                                lemma_count_absent(s.take(idx), target@);
                            }
                        }
                    }
                }
            },
        }
    }
    proof {
        assert(full.take(full.len() as int) =~= full);
        lemma_listing_of_map(table_refs@, full);
        assert forall|j: int| 0 <= j < counts.len() implies #[trigger] counts@[j] == ref_count(table_refs@, names@[j]@) by {
            lemma_count_keys(table_refs@, full, names@[j]@);
        }
    }
    (names, counts)
}

/// A name that no table refers to has no referrer.
proof fn lemma_unreferenced(refs: Map<String, String>, name: Seq<char>)
    requires
        !referenced_names(refs).contains(name),
    ensures
        ref_count(refs, name) == 0,
{
    assert(refs.dom().filter(refers_to(refs, name)) =~= Set::<String>::empty()) by {
        assert forall|k: String| !#[trigger] refs.dom().filter(refers_to(refs, name)).contains(k) by {
            if refs.dom().contains(k) && refs[k]@ == name {
                assert(refs.values().contains(refs[k]));
                assert(referenced_names(refs).contains(refs[k]@));
            }
        }
    }
}

/// The sort key that puts the most referenced names first.
fn descending_rank(e: &(String, usize)) -> (r: usize)
    ensures
        r == usize::MAX - e.1,
{
    usize::MAX - e.1
}

/// Orders the tables of a dump: every table of `tables` and every table
/// that `table_refs` ({table: table it refers to}) refers to appears once,
/// the tables referred to most often first.
pub fn define_tables_order(tables: Vec<String>, table_refs: HashMap<String, String>) -> (order: Vec<String>)
    requires
        obeys_key_model::<String>(),
    ensures
        names_of(order@).no_duplicates(),
        names_of(order@).to_set() == all_names(tables@, table_refs@),
        forall|i: int, j: int|
            0 <= i < j < order.len() ==> ref_count(table_refs@, (#[trigger] order@[i])@) >= ref_count(
                table_refs@,
                (#[trigger] order@[j])@,
            ),
{
    let ghost refs = table_refs@;
    let ghost referenced = referenced_names(refs);
    let (mut names, mut counts) = count_references(&table_refs);
    let n_tables = tables.len();
    for i in 0..n_tables
        invariant
            n_tables == tables.len(),
            refs == table_refs@,
            referenced == referenced_names(refs),
            names.len() == counts.len(),
            names_of(names@).no_duplicates(),
            forall|j: int| 0 <= j < counts.len() ==> #[trigger] counts@[j] == ref_count(refs, names@[j]@),
            names_of(names@).to_set() == referenced + names_of(tables@.take(i as int)).to_set(),
    {
        let ghost prev = names_of(tables@.take(i as int));
        assert(names_of(tables@.take(i + 1)) =~= prev.push(tables@[i as int]@));
        proof {
            prev.lemma_push_to_set_commute(tables@[i as int]@);
        }
        match position_of(&names, &tables[i]) {
            Some(j) => {
                assert(names_of(names@)[j as int] == tables@[i as int]@);
                assert(names_of(names@).to_set() =~= referenced + names_of(tables@.take(i + 1)).to_set());
            },
            None => {
                let ghost old_names = names@;
                assert(!names_of(old_names).to_set().contains(tables@[i as int]@));
                names.push(tables[i].clone());
                counts.push(0);
                proof {
                    assert(names_of(names@) =~= names_of(old_names).push(tables@[i as int]@));
                    names_of(old_names).lemma_push_to_set_commute(tables@[i as int]@);
                    assert(names_of(names@).no_duplicates()) by {
                        assert forall|a: int, b: int| 0 <= a < b < names_of(names@).len() implies names_of(names@)[a] != names_of(names@)[b] by {
                            if b == old_names.len() {
                                assert(names_of(old_names).to_set().contains(names_of(old_names)[a]));
                            }
                        }
                    }
                    assert(!referenced.contains(tables@[i as int]@));
                    lemma_unreferenced(refs, tables@[i as int]@);
                    assert(names_of(names@).to_set() =~= referenced + names_of(tables@.take(i + 1)).to_set());
                }
            },
        }
    }
    assert(tables@.take(n_tables as int) == tables@);
    let mut pairs: Vec<(String, usize)> = Vec::new();
    for j in 0..names.len()
        invariant
            names.len() == counts.len(),
            pairs.len() == j,
            forall|q: int| 0 <= q < j ==> (#[trigger] pairs@[q]).0@ == names@[q]@ && pairs@[q].1 == counts@[q],
    {
        pairs.push((names[j].clone(), counts[j]));
    }
    let ghost unsorted = pairs@;
    let ghost rank = |e: (String, usize)| (usize::MAX - e.1) as usize;
    assert(unsorted.no_duplicates()) by {
        assert forall|a: int, b: int| 0 <= a < b < unsorted.len() implies unsorted[a] != unsorted[b] by {
            assert(names_of(names@)[a] == names@[a]@);
            assert(names_of(names@)[b] == names@[b]@);
        }
    }
    sort_by_key_stable(
        &mut pairs,
        descending_rank,
        Ghost(rank),
    );
    let ghost sorted = pairs@;
    proof {
        lemma_stable_sorted_permutes(unsorted, sorted, rank);
    }
    let mut order: Vec<String> = Vec::new();
    for j in 0..pairs.len()
        invariant
            order.len() == j,
            pairs@ == sorted,
            forall|q: int| 0 <= q < j ==> (#[trigger] order@[q])@ == sorted[q].0@,
    {
        order.push(pairs[j].0.clone());
    }
    proof {
        assert forall|x: (String, usize)| #[trigger] sorted.contains(x) implies x.1 == ref_count(refs, x.0@) && names_of(names@).contains(x.0@) by {
            let q = choose|q: int| 0 <= q < unsorted.len() && unsorted[q] == x;
            assert(names_of(names@)[q] == names@[q]@);
        }
        assert(names_of(order@).no_duplicates()) by {
            assert forall|a: int, b: int| 0 <= a < b < names_of(order@).len() implies names_of(order@)[a] != names_of(order@)[b] by {
                if names_of(order@)[a] == names_of(order@)[b] {
                    assert(sorted.contains(sorted[a]));
                    assert(sorted.contains(sorted[b]));
                    let x = choose|x: int| 0 <= x < unsorted.len() && unsorted[x] == sorted[a];
                    let y = choose|y: int| 0 <= y < unsorted.len() && unsorted[y] == sorted[b];
                    assert(names_of(names@)[x] == names@[x]@);
                    assert(names_of(names@)[y] == names@[y]@);
                }
            }
        }
        assert forall|n: Seq<char>| #[trigger] names_of(order@).to_set().contains(n) <==> names_of(names@).to_set().contains(n) by {
            if names_of(order@).to_set().contains(n) {
                let a = choose|a: int| 0 <= a < names_of(order@).len() && names_of(order@)[a] == n;
                assert(sorted.contains(sorted[a]));
            }
            if names_of(names@).to_set().contains(n) {
                let q = choose|q: int| 0 <= q < names_of(names@).len() && names_of(names@)[q] == n;
                assert(unsorted.contains(unsorted[q]));
                assert(sorted.contains(unsorted[q]));
                let a = choose|a: int| 0 <= a < sorted.len() && sorted[a] == unsorted[q];
                assert(names_of(order@)[a] == n);
            }
        }
        assert(names_of(order@).to_set() =~= all_names(tables@, table_refs@));
        assert forall|i: int, j: int| 0 <= i < j < order.len() implies ref_count(table_refs@, (#[trigger] order@[i])@) >= ref_count(
                table_refs@,
                (#[trigger] order@[j])@,
            ) by {
            assert(sorted.contains(sorted[i]));
            assert(sorted.contains(sorted[j]));
            assert(rank(sorted[i]) <= rank(sorted[j]));
        }
    }
    order
}


/// The number of dependencies in an entry of a dependency graph.
pub open spec fn deps_count<'a, T>(e: (&'a T, Vec<&'a T>)) -> usize {
    e.1@.len() as usize
}

fn deps_len<'a, T>(e: &(&'a T, Vec<&'a T>)) -> (r: usize)
    ensures
        r == deps_count(*e),
{
    e.1.len()
}

/// Sorts the entries of a dependency graph by their number of
/// dependencies, fewest first; entries with as many dependencies keep
/// their order.
pub fn sort_deps_graph<'a, T>(graph: &mut Vec<(&'a T, Vec<&'a T>)>)
    ensures
        stable_sorted(old(graph)@, final(graph)@, |e: (&'a T, Vec<&'a T>)| deps_count(e)),
{
    sort_by_key_stable(graph, deps_len, Ghost(|e: (&'a T, Vec<&'a T>)| deps_count(e)));
}

/// The text of an optional string.
pub open spec fn text_of(o: Option<String>) -> Option<Seq<char>> {
    match o {
        Some(s) => Some(s@),
        None => None,
    }
}

/// The name of a dump file: in `folder` when there is one, made of the
/// database name and the time of the dump.
pub open spec fn filename_spec(db_name: Seq<char>, folder: Option<Seq<char>>, stamp: Seq<char>) -> Seq<char> {
    let prefix = match folder {
        Some(f) => f + "/"@,
        None => Seq::empty(),
    };
    prefix + "backup_"@ + db_name + "_"@ + stamp + ".dump"@
}

/// The name of the dump file of database `db_name`, made at time `stamp`,
/// in `folder` when there is one.
pub fn backup_filename(db_name: &str, folder: &Option<String>, stamp: &str) -> (r: String)
    ensures
        r@ == filename_spec(db_name@, text_of(*folder), stamp@),
{
    let prefix = match folder {
        Some(v) => String::from_str(v.as_str()).concat("/"),
        None => String::new(),
    };
    let r = prefix.concat("backup_").concat(db_name).concat("_").concat(stamp).concat(".dump");
    assert(r@ =~= filename_spec(db_name@, text_of(*folder), stamp@));
    r
}

/// The name of the dump file of database `db_name`, made now, in `folder`
/// when there is one: its time stamp is that of the present moment in UTC,
/// `year-month-day_hour:minute:second`. None when the clock reads a moment
/// that the time stamp cannot be made of: before 1970, or beyond chrono's
/// range.
pub fn create_filename(db_name: &str, folder: &Option<String>) -> (r: Option<String>)
    ensures
        r matches Some(name) ==> exists|now: UtcParts|
            parts_in_range(now) && name@ == filename_spec(db_name@, text_of(*folder), stamp_text(now)),
{
    let (secs, nanos) = match clock_since_epoch() {
        Some(d) => d,
        None => return None,
    };
    match stamp_at(secs, nanos) {
        Some(stamp) => Some(backup_filename(db_name, folder, stamp.as_str())),
        None => None,
    }
}

/// The values of the `materialtypesenum` column type.
#[derive(Debug, Clone, Copy, PartialEq, Eq)]
pub enum MaterialTypesEnum {
    Book,
    Article,
    Course,
    Lecture,
    Audiobook,
}

/// The text of a material type.
pub open spec fn material_text(m: MaterialTypesEnum) -> Seq<char> {
    match m {
        MaterialTypesEnum::Book => "book"@,
        MaterialTypesEnum::Article => "article"@,
        MaterialTypesEnum::Course => "course"@,
        MaterialTypesEnum::Lecture => "lecture"@,
        MaterialTypesEnum::Audiobook => "audiobook"@,
    }
}

impl MaterialTypesEnum {
    /// The text of the material type, in lower case.
    pub fn to_string(&self) -> (r: String)
        ensures
            r@ == material_text(*self),
    {
        let v = match self {
            MaterialTypesEnum::Book => "book",
            MaterialTypesEnum::Article => "article",
            MaterialTypesEnum::Course => "course",
            MaterialTypesEnum::Lecture => "lecture",
            MaterialTypesEnum::Audiobook => "audiobook",
        };
        String::from_str(v)
    }
}

/// How the value of a column is read and written into a dump.
#[derive(Debug, Clone, Copy, PartialEq, Eq)]
pub enum ColumnKind {
    /// A 32-bit integer, written as a number.
    Int4,
    /// A 64-bit integer, written as a number.
    Int8,
    /// A text, written as a string.
    Text,
    /// A UUID, written as a string.
    Uuid,
    /// A boolean.
    Bool,
    /// A timestamp, written as a string.
    Timestamp,
    /// A JSON value, written as it is.
    Json,
    /// A date, written as a string.
    Date,
    /// A material type, written as its text.
    MaterialType,
}

/// The kind of a column whose PostgreSQL type is named `pg_type`; none
/// for a type that a dump cannot hold.
pub open spec fn column_kind_spec(pg_type: Seq<char>) -> Option<ColumnKind> {
    if pg_type == "INT4"@ {
        Some(ColumnKind::Int4)
    } else if pg_type == "INT8"@ {
        Some(ColumnKind::Int8)
    } else if pg_type == "VARCHAR"@ || pg_type == "TEXT"@ {
        Some(ColumnKind::Text)
    } else if pg_type == "UUID"@ {
        Some(ColumnKind::Uuid)
    } else if pg_type == "BOOL"@ {
        Some(ColumnKind::Bool)
    } else if pg_type == "TIMESTAMP"@ {
        Some(ColumnKind::Timestamp)
    } else if pg_type == "JSONB"@ || pg_type == "JSON"@ {
        Some(ColumnKind::Json)
    } else if pg_type == "DATE"@ {
        Some(ColumnKind::Date)
    } else if pg_type == "materialtypesenum"@ {
        Some(ColumnKind::MaterialType)
    } else {
        None
    }
}

/// The kind of a column whose PostgreSQL type is named `pg_type`, or none
/// when a dump cannot hold it.
pub fn column_kind(pg_type: &str) -> (r: Option<ColumnKind>)
    ensures
        r == column_kind_spec(pg_type@),
{
    if same_text(pg_type, "INT4") {
        Some(ColumnKind::Int4)
    } else if same_text(pg_type, "INT8") {
        Some(ColumnKind::Int8)
    } else if same_text(pg_type, "VARCHAR") || same_text(pg_type, "TEXT") {
        Some(ColumnKind::Text)
    } else if same_text(pg_type, "UUID") {
        Some(ColumnKind::Uuid)
    } else if same_text(pg_type, "BOOL") {
        Some(ColumnKind::Bool)
    } else if same_text(pg_type, "TIMESTAMP") {
        Some(ColumnKind::Timestamp)
    } else if same_text(pg_type, "JSONB") || same_text(pg_type, "JSON") {
        Some(ColumnKind::Json)
    } else if same_text(pg_type, "DATE") {
        Some(ColumnKind::Date)
    } else if same_text(pg_type, "materialtypesenum") {
        Some(ColumnKind::MaterialType)
    } else {
        None
    }
}

/// The value of a column as read from a row, by the kind of the column;
/// none for SQL `NULL`. UUIDs, timestamps and dates are held as the text
/// that their own types write. JSON columns are not among them: their value
/// goes into the dump as it is.
#[derive(Debug, Clone, PartialEq, Eq)]
pub enum Cell {
    Int4(Option<i32>),
    Int8(Option<i64>),
    Text(Option<String>),
    Uuid(Option<String>),
    Bool(Option<bool>),
    Timestamp(Option<String>),
    Date(Option<String>),
    MaterialType(Option<MaterialTypesEnum>),
}

/// A value of a dumped row, as the JSON dump writes it.
#[derive(Debug, Clone, PartialEq, Eq)]
pub enum DumpValue {
    Null,
    Number(i64),
    Str(String),
    Bool(bool),
}

/// The dumped value of a cell: `Null` for SQL `NULL`; integers as numbers;
/// texts, UUIDs, timestamps and dates as strings; booleans as they are;
/// material types as their text.
pub open spec fn cell_value_matches(c: Cell, v: DumpValue) -> bool {
    match c {
        Cell::Int4(Some(x)) => v == DumpValue::Number(x as i64),
        Cell::Int8(Some(x)) => v == DumpValue::Number(x),
        Cell::Text(Some(t)) => v == DumpValue::Str(t),
        Cell::Uuid(Some(t)) => v == DumpValue::Str(t),
        Cell::Bool(Some(b)) => v == DumpValue::Bool(b),
        Cell::Timestamp(Some(t)) => v == DumpValue::Str(t),
        Cell::Date(Some(t)) => v == DumpValue::Str(t),
        Cell::MaterialType(Some(m)) => v matches DumpValue::Str(t) && t@ == material_text(m),
        _ => v == DumpValue::Null,
    }
}

/// The value that a dump holds for a cell of a row.
pub fn cell_value(c: Cell) -> (r: DumpValue)
    ensures
        cell_value_matches(c, r),
{
    match c {
        Cell::Int4(Some(x)) => DumpValue::Number(x as i64),
        Cell::Int8(Some(x)) => DumpValue::Number(x),
        Cell::Text(Some(t)) => DumpValue::Str(t),
        Cell::Uuid(Some(t)) => DumpValue::Str(t),
        Cell::Bool(Some(b)) => DumpValue::Bool(b),
        Cell::Timestamp(Some(t)) => DumpValue::Str(t),
        Cell::Date(Some(t)) => DumpValue::Str(t),
        Cell::MaterialType(Some(m)) => DumpValue::Str(m.to_string()),
        _ => DumpValue::Null,
    }
}

/// The query that reads every row of `table`.
pub fn select_all_query(table: &str) -> (r: String)
    ensures
        r@ == "SELECT * FROM "@ + table@,
{
    String::from_str("SELECT * FROM ").concat(table)
}

/// A cell holding SQL `NULL` of any column kind, and only such a cell, is
/// dumped as `Null`; any other cell is dumped as its own value: an integer
/// as that number, a boolean as that boolean, a text, UUID, timestamp or
/// date as that text, a material type as its lower-case name.
pub proof fn law_cell_value_keeps_the_value(c: Cell, v: DumpValue)
    requires
        cell_value_matches(c, v),
    ensures
        (v == DumpValue::Null) == (c == Cell::Int4(None) || c == Cell::Int8(None) || c == Cell::Text(None)
            || c == Cell::Uuid(None) || c == Cell::Bool(None) || c == Cell::Timestamp(None) || c
            == Cell::Date(None) || c == Cell::MaterialType(None)),
        c matches Cell::Int4(Some(x)) ==> v == DumpValue::Number(x as i64),
        c matches Cell::Int8(Some(x)) ==> v == DumpValue::Number(x),
        c matches Cell::Bool(Some(b)) ==> v == DumpValue::Bool(b),
        c matches Cell::Text(Some(t)) ==> v == DumpValue::Str(t),
        c matches Cell::Uuid(Some(t)) ==> v == DumpValue::Str(t),
        c matches Cell::Timestamp(Some(t)) ==> v == DumpValue::Str(t),
        c matches Cell::Date(Some(t)) ==> v == DumpValue::Str(t),
        c == Cell::MaterialType(Some(MaterialTypesEnum::Book)) ==> (v matches DumpValue::Str(t) && t@ == "book"@),
        c == Cell::MaterialType(Some(MaterialTypesEnum::Article)) ==> (v matches DumpValue::Str(t) && t@ == "article"@),
        c == Cell::MaterialType(Some(MaterialTypesEnum::Course)) ==> (v matches DumpValue::Str(t) && t@ == "course"@),
        c == Cell::MaterialType(Some(MaterialTypesEnum::Lecture)) ==> (v matches DumpValue::Str(t) && t@ == "lecture"@),
        c == Cell::MaterialType(Some(MaterialTypesEnum::Audiobook)) ==> (v matches DumpValue::Str(t) && t@ == "audiobook"@),
{
}

} // verus!
