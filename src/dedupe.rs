//! Pruning of a plugin's vendored dependencies against the host's baseline.
use vstd::prelude::*;
use crate::strmap::StrMap;

verus! {

/// A vendored copy of `name` is redundant when the host locks it at exactly
/// the version the plugin locks.
pub open spec fn redundant(
    host: Map<Seq<char>, Seq<char>>,
    plugin: Map<Seq<char>, Seq<char>>,
    name: Seq<char>,
) -> bool {
    host.contains_key(name) && plugin.contains_key(name) && plugin[name] == host[name]
}

/// The names among `present` whose copies a dedupe pass removes, in order.
pub open spec fn removals(
    host: Map<Seq<char>, Seq<char>>,
    plugin: Map<Seq<char>, Seq<char>>,
    present: Seq<Seq<char>>,
) -> Seq<Seq<char>>
    decreases present.len(),
{
    if present.len() == 0 {
        Seq::empty()
    } else {
        let rest = removals(host, plugin, present.drop_last());
        if redundant(host, plugin, present.last()) {
            rest.push(present.last())
        } else {
            rest
        }
    }
}

/// The names among `present` whose copies a dedupe pass keeps, in order.
pub open spec fn kept(
    host: Map<Seq<char>, Seq<char>>,
    plugin: Map<Seq<char>, Seq<char>>,
    present: Seq<Seq<char>>,
) -> Seq<Seq<char>>
    decreases present.len(),
{
    if present.len() == 0 {
        Seq::empty()
    } else {
        let rest = kept(host, plugin, present.drop_last());
        if redundant(host, plugin, present.last()) {
            rest
        } else {
            rest.push(present.last())
        }
    }
}

/// The names of a vector of strings, as character sequences.
pub open spec fn names_of(v: Seq<String>) -> Seq<Seq<char>> {
    v.map_values(|s: String| s@)
}

/// The dependency directories to delete, given the host's locked versions,
/// the plugin's locked versions, and the dependency names whose directories
/// are present in the plugin's tree.
pub fn plan_dedupe(host: &StrMap, plugin: &StrMap, present: &Vec<String>) -> (r: Vec<String>)
    requires
        host.wf(),
        plugin.wf(),
    ensures
        names_of(r@) == removals(host@, plugin@, names_of(present@)),
{
    let mut r: Vec<String> = Vec::new();
    let mut i: usize = 0;
    while i < present.len()
        invariant
            host.wf(),
            plugin.wf(),
            i <= present@.len(),
            names_of(r@) == removals(host@, plugin@, names_of(present@).subrange(0, i as int)),
        decreases present@.len() - i,
    {
        let name = &present[i];
        let remove = match (host.get(name), plugin.get(name)) {
            (Some(h), Some(p)) => *h == *p,
            _ => false,
        };
        let ghost before = r@;
        if remove {
            r.push(name.clone());
            assert(names_of(r@) =~= names_of(before).push(name@));
        }
        assert(names_of(present@).subrange(0, i + 1).drop_last() =~= names_of(present@).subrange(0, i as int));
        i = i + 1;
    }
    assert(names_of(present@).subrange(0, present@.len() as int) =~= names_of(present@));
    r
}

/// Every present name is removed or kept, never both; those removed are the
/// redundant ones.
pub proof fn lemma_partition(
    host: Map<Seq<char>, Seq<char>>,
    plugin: Map<Seq<char>, Seq<char>>,
    present: Seq<Seq<char>>,
    name: Seq<char>,
)
    ensures
        removals(host, plugin, present).contains(name) <==> (present.contains(name) && redundant(host, plugin, name)),
        kept(host, plugin, present).contains(name) <==> (present.contains(name) && !redundant(host, plugin, name)),
    decreases present.len(),
{
    if present.len() > 0 {
        let t = present.drop_last();
        lemma_partition(host, plugin, t, name);
        assert(present =~= t.push(present.last()));
        assert(present.contains(name) <==> (t.contains(name) || present.last() == name)) by {
            if present.contains(name) {
                let i = choose|i: int| 0 <= i < present.len() && present[i] == name;
                if i < present.len() - 1 {
                    assert(t[i] == name);
                }
            }
            if t.contains(name) {
                let i = choose|i: int| 0 <= i < t.len() && t[i] == name;
                assert(present[i] == name);
            }
            if present.last() == name {
                assert(present[present.len() - 1] == name);
            }
        }
        let r = removals(host, plugin, t);
        let k = kept(host, plugin, t);
        assert(r.push(present.last()).contains(name) <==> (r.contains(name) || present.last() == name)) by {
            let rp = r.push(present.last());
            if rp.contains(name) {
                let i = choose|i: int| 0 <= i < rp.len() && rp[i] == name;
                if i < r.len() {
                    assert(r[i] == name);
                }
            }
            if r.contains(name) {
                let i = choose|i: int| 0 <= i < r.len() && r[i] == name;
                assert(rp[i] == name);
            }
            if present.last() == name {
                assert(rp[r.len() as int] == name);
            }
        }
        assert(k.push(present.last()).contains(name) <==> (k.contains(name) || present.last() == name)) by {
            let kp = k.push(present.last());
            if kp.contains(name) {
                let i = choose|i: int| 0 <= i < kp.len() && kp[i] == name;
                if i < k.len() {
                    assert(k[i] == name);
                }
            }
            if k.contains(name) {
                let i = choose|i: int| 0 <= i < k.len() && k[i] == name;
                assert(kp[i] == name);
            }
            if present.last() == name {
                assert(kp[k.len() as int] == name);
            }
        }
    }
}

/// Dedupe is idempotent: on the tree it leaves, a second pass removes nothing
/// and keeps everything.
pub proof fn lemma_dedupe_idempotent(
    host: Map<Seq<char>, Seq<char>>,
    plugin: Map<Seq<char>, Seq<char>>,
    present: Seq<Seq<char>>,
)
    ensures
        removals(host, plugin, kept(host, plugin, present)) == Seq::<Seq<char>>::empty(),
        kept(host, plugin, kept(host, plugin, present)) == kept(host, plugin, present),
    decreases present.len(),
{
    if present.len() > 0 {
        let t = present.drop_last();
        lemma_dedupe_idempotent(host, plugin, t);
        let k = kept(host, plugin, t);
        if !redundant(host, plugin, present.last()) {
            assert(k.push(present.last()).drop_last() =~= k);
        }
    }
}

/// A dependency that the host does not lock is never removed, whatever
/// version the plugin locks it at.
pub proof fn lemma_private_kept(
    host: Map<Seq<char>, Seq<char>>,
    plugin: Map<Seq<char>, Seq<char>>,
    present: Seq<Seq<char>>,
    name: Seq<char>,
)
    requires
        !host.contains_key(name),
    ensures
        !removals(host, plugin, present).contains(name),
        present.contains(name) ==> kept(host, plugin, present).contains(name),
{
    lemma_partition(host, plugin, present, name);
}

} // verus!
