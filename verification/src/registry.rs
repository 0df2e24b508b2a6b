//! Name-based registry: values registered under unique names.
use vstd::prelude::*;
use crate::seqs::{lemma_filter_contains_iff, lemma_filter_no_duplicates, lemma_push_no_duplicates, lemma_take_full, lemma_take_succ_filter};
use crate::text::concat;
use crate::pid::Pid;

verus! {

/// Errors that can occur when registering a value in the registry.
#[derive(Debug, Clone, PartialEq, Eq)]
pub enum RegistryError {
    /// A value with this name is already registered.
    AlreadyRegistered(String),
}

impl RegistryError {
    pub open spec fn spec_text(&self) -> Seq<char> {
        match self {
            RegistryError::AlreadyRegistered(name) => "name '"@ + name@ + "' is already registered"@,
        }
    }

    /// The error message.
    pub fn to_string(&self) -> (s: String)
        ensures
            s@ == self.spec_text(),
    {
        match self {
            RegistryError::AlreadyRegistered(name) => {
                let head = concat("name '", name.as_str());
                concat(head.as_str(), "' is already registered")
            },
        }
    }
}

/// Values registered under names; each name is registered at most once.
pub struct Registry<V> {
    entries: Vec<(String, V)>,
}

/// Keep entries whose name is not `name`.
pub open spec fn other_name<V>(name: Seq<char>) -> spec_fn((Seq<char>, V)) -> bool {
    |e: (Seq<char>, V)| e.0 != name
}

/// The names of a sequence of entries.
pub open spec fn entry_names<V>(s: Seq<(Seq<char>, V)>) -> Seq<Seq<char>> {
    s.map_values(|e: (Seq<char>, V)| e.0)
}

impl<V> Registry<V> {
    /// The registrations as (name, value) pairs, in registration order.
    pub closed spec fn view(&self) -> Seq<(Seq<char>, V)> {
        self.entries@.map_values(|e: (String, V)| (e.0@, e.1))
    }

    /// `name` is registered.
    pub open spec fn has(&self, name: Seq<char>) -> bool {
        entry_names(self.view()).contains(name)
    }

    /// No name is registered twice.
    pub open spec fn wf(&self) -> bool {
        entry_names(self.view()).no_duplicates()
    }

    /// An empty registry.
    pub fn new() -> (r: Registry<V>)
        ensures
            r.wf(),
            r.view() == Seq::<(Seq<char>, V)>::empty(),
    {
        let r = Registry { entries: Vec::new() };
        assert(r.view() =~= Seq::<(Seq<char>, V)>::empty());
        assert(entry_names(r.view()) =~= Seq::<Seq<char>>::empty());
        r
    }

    /// Index of the entry registered as `name`.
    fn find(&self, name: &String) -> (r: Option<usize>)
        ensures
            r is None <==> !self.has(name@),
            r matches Some(i) ==> i < self.view().len() && self.view()[i as int].0 == name@,
    {
        let mut i: usize = 0;
        while i < self.entries.len()
            invariant
                i <= self.entries.len(),
                forall|k: int| 0 <= k < i ==> self.view()[k].0 != name@,
            decreases self.entries.len() - i,
        {
            if self.entries[i].0 == *name {
                assert(self.view()[i as int].0 == name@);
                assert(entry_names(self.view())[i as int] == name@);
                return Some(i);
            }
            i = i + 1;
        }
        proof {
            if self.has(name@) {
                let k = choose|k: int| 0 <= k < entry_names(self.view()).len() && entry_names(self.view())[k] == name@;
                assert(self.view()[k].0 == name@);
            }
        }
        None
    }
}

/// Register a value by name.
///
/// Fails with `AlreadyRegistered(name)` when the name is already taken.
pub fn register<V>(registry: &mut Registry<V>, name: &str, value: V) -> (r: Result<(), RegistryError>)
    requires
        old(registry).wf(),
    ensures
        final(registry).wf(),
        r is Err <==> old(registry).has(name@),
        r matches Err(RegistryError::AlreadyRegistered(n)) ==> n@ == name@,
        r is Err ==> final(registry).view() == old(registry).view(),
        r is Ok ==> final(registry).view() == old(registry).view().push((name@, value)),
{
    let key = name.to_owned();
    if registry.find(&key).is_some() {
        return Err(RegistryError::AlreadyRegistered(key));
    }
    let ghost before = registry.view();
    registry.entries.push((key, value));
    proof {
        assert(registry.view() =~= before.push((name@, value)));
        assert(entry_names(registry.view()) =~= entry_names(before).push(name@));
        lemma_push_no_duplicates(entry_names(before), name@);
    }
    Ok(())
}

/// Look up the value registered as `name`.
pub fn whereis<'a, V>(registry: &'a Registry<V>, name: &str) -> (r: Option<&'a V>)
    requires
        registry.wf(),
    ensures
        r is None <==> !registry.has(name@),
        r matches Some(v) ==> registry.view().contains((name@, *v)),
{
    let key = name.to_owned();
    match registry.find(&key) {
        Some(i) => {
            let v = &registry.entries[i].1;
            assert(registry.view()[i as int] == (name@, *v));
            Some(v)
        },
        None => None,
    }
}

/// Remove a registration by name. No-op if the name is not registered.
pub fn unregister<V>(registry: &mut Registry<V>, name: &str)
    requires
        old(registry).wf(),
    ensures
        final(registry).wf(),
        final(registry).view() == old(registry).view().filter(other_name::<V>(name@)),
        !final(registry).has(name@),
{
    let key = name.to_owned();
    let ghost pred = other_name::<V>(name@);
    let ghost orig = registry.view();
    let mut kept: Vec<(String, V)> = Vec::new();
    while registry.entries.len() > 0
        invariant
            pred == other_name::<V>(name@),
            key@ == name@,
            registry.entries@.len() <= orig.len(),
            registry.view() == orig.skip(orig.len() - registry.entries@.len()),
            kept@.map_values(|e: (String, V)| (e.0@, e.1)) == orig.take(orig.len() - registry.entries@.len()).filter(pred),
        decreases registry.entries.len(),
    {
        let ghost n = orig.len() - registry.entries@.len();
        let ghost rest = registry.entries@;
        assert(forall|k: int| 0 <= k < rest.len() ==> #[trigger] old_view_at(rest, k) == registry.view()[k]);
        proof {
            assert(orig[n] == registry.view()[0]);
            lemma_take_succ_filter(orig, n, pred);
        }
        let e = registry.entries.remove(0);
        proof {
            assert(registry.entries@ =~= rest.subrange(1, rest.len() as int));
            assert forall|k: int| 0 <= k < registry.view().len() implies registry.view()[k] == orig.skip(n + 1)[k] by {
                assert(registry.view()[k] == (rest[k + 1].0@, rest[k + 1].1));
                assert(old_view_at(rest, k + 1) == orig.skip(n)[k + 1]);
            }
            assert(registry.view() =~= orig.skip(n + 1));
        }
        if e.0 != key {
            let ghost before = kept@;
            kept.push(e);
            proof {
                assert(kept@.map_values(|e: (String, V)| (e.0@, e.1)) =~= before.map_values(
                    |e: (String, V)| (e.0@, e.1),
                ).push(orig[n]));
            }
        }
    }
    registry.entries = kept;
    proof {
        lemma_take_full(orig);
        assert(registry.view() == orig.filter(pred));
        lemma_names_filter(orig, name@);
    }
}

/// Keep the entries that no process owns as `pid`.
pub open spec fn not_owned_by<T>(pid: Pid) -> spec_fn((Seq<char>, (Option<Pid>, T))) -> bool {
    |e: (Seq<char>, (Option<Pid>, T))| e.1.0 != Some(pid)
}

/// Remove every name bound to the process `pid`: in a registry whose
/// values carry the pid they stand for, when they stand for one.
pub fn unregister_pid<T>(registry: &mut Registry<(Option<Pid>, T)>, pid: Pid)
    requires
        old(registry).wf(),
    ensures
        final(registry).wf(),
        final(registry).view() == old(registry).view().filter(not_owned_by::<T>(pid)),
        forall|n: Seq<char>, v: (Option<Pid>, T)| #[trigger] final(registry).view().contains((n, v)) ==> v.0 != Some(pid),
{
    let ghost pred = not_owned_by::<T>(pid);
    let ghost orig = registry.view();
    let mut kept: Vec<(String, (Option<Pid>, T))> = Vec::new();
    while registry.entries.len() > 0
        invariant
            pred == not_owned_by::<T>(pid),
            registry.entries@.len() <= orig.len(),
            registry.view() == orig.skip(orig.len() - registry.entries@.len()),
            kept@.map_values(|e: (String, (Option<Pid>, T))| (e.0@, e.1)) == orig.take(
                orig.len() - registry.entries@.len(),
            ).filter(pred),
        decreases registry.entries.len(),
    {
        let ghost n = orig.len() - registry.entries@.len();
        let ghost rest = registry.entries@;
        assert(forall|k: int| 0 <= k < rest.len() ==> #[trigger] old_view_at(rest, k) == registry.view()[k]);
        proof {
            assert(orig[n] == registry.view()[0]);
            lemma_take_succ_filter(orig, n, pred);
        }
        let e = registry.entries.remove(0);
        proof {
            assert(registry.entries@ =~= rest.subrange(1, rest.len() as int));
            assert forall|k: int| 0 <= k < registry.view().len() implies registry.view()[k] == orig.skip(n + 1)[k] by {
                assert(registry.view()[k] == (rest[k + 1].0@, rest[k + 1].1));
                assert(old_view_at(rest, k + 1) == orig.skip(n)[k + 1]);
            }
            assert(registry.view() =~= orig.skip(n + 1));
        }
        let owned = match e.1.0 {
            Some(p) => p.id == pid.id,
            None => false,
        };
        if !owned {
            let ghost before = kept@;
            kept.push(e);
            proof {
                assert(kept@.map_values(|e: (String, (Option<Pid>, T))| (e.0@, e.1)) =~= before.map_values(
                    |e: (String, (Option<Pid>, T))| (e.0@, e.1),
                ).push(orig[n]));
            }
        }
    }
    registry.entries = kept;
    proof {
        lemma_take_full(orig);
        assert(registry.view() == orig.filter(pred));
        lemma_names_filter_keeps_distinct(orig, pred);
        assert forall|n: Seq<char>, v: (Option<Pid>, T)| #[trigger] registry.view().contains((n, v)) implies v.0 != Some(pid) by {
            lemma_filter_contains_iff(orig, pred, (n, v));
        }
    }
}

/// The first name bound to the process `pid`, if any.
pub fn name_of<T>(registry: &Registry<(Option<Pid>, T)>, pid: Pid) -> (r: Option<String>)
    ensures
        r is None <==> forall|k: int| 0 <= k < registry.view().len() ==> (#[trigger] registry.view()[k]).1.0 != Some(pid),
        r matches Some(n) ==> exists|k: int| {
            &&& 0 <= k < registry.view().len()
            &&& #[trigger] registry.view()[k].1.0 == Some(pid)
            &&& registry.view()[k].0 == n@
            &&& forall|j: int| 0 <= j < k ==> (#[trigger] registry.view()[j]).1.0 != Some(pid)
        },
{
    let mut i: usize = 0;
    while i < registry.entries.len()
        invariant
            i <= registry.entries@.len(),
            forall|j: int| 0 <= j < i ==> (#[trigger] registry.view()[j]).1.0 != Some(pid),
        decreases registry.entries.len() - i,
    {
        let owned = match registry.entries[i].1.0 {
            Some(p) => p.id == pid.id,
            None => false,
        };
        if owned {
            let n = registry.entries[i].0.clone();
            proof {
                assert(registry.view()[i as int].1.0 == Some(pid));
            }
            return Some(n);
        }
        proof {
            assert(registry.view()[i as int].1 == registry.entries@[i as int].1);
        }
        i = i + 1;
    }
    None
}

/// Filtering entries by any predicate keeps their names distinct.
proof fn lemma_names_filter_keeps_distinct<V>(s: Seq<(Seq<char>, V)>, p: spec_fn((Seq<char>, V)) -> bool)
    requires
        entry_names(s).no_duplicates(),
    ensures
        entry_names(s.filter(p)).no_duplicates(),
    decreases s.len(),
{
    reveal(Seq::filter);
    if s.len() > 0 {
        let d = s.drop_last();
        assert(entry_names(d) =~= entry_names(s).drop_last());
        assert forall|i: int, j: int| 0 <= i < entry_names(d).len() && 0 <= j < entry_names(d).len() && i != j
            implies entry_names(d)[i] != entry_names(d)[j] by {
            assert(entry_names(d)[i] == entry_names(s)[i]);
            assert(entry_names(d)[j] == entry_names(s)[j]);
        }
        lemma_names_filter_keeps_distinct(d, p);
        if p(s.last()) {
            assert(entry_names(d.filter(p).push(s.last())) =~= entry_names(d.filter(p)).push(s.last().0));
            if entry_names(d.filter(p)).contains(s.last().0) {
                let k = choose|k: int| 0 <= k < entry_names(d.filter(p)).len() && entry_names(d.filter(p))[k] == s.last().0;
                let x = d.filter(p)[k];
                assert(d.filter(p).contains(x));
                lemma_filter_contains_iff(d, p, x);
                let q = choose|q: int| 0 <= q < d.len() && d[q] == x;
                assert(entry_names(s)[q] == entry_names(s)[s.len() - 1]);
            }
            lemma_push_no_duplicates(entry_names(d.filter(p)), s.last().0);
        }
    } else {
        assert(entry_names(s.filter(p)) =~= Seq::<Seq<char>>::empty());
    }
}

/// The registration held at index `k` of `s`, by its view.
pub open spec fn old_view_at<V>(s: Seq<(String, V)>, k: int) -> (Seq<char>, V) {
    (s[k].0@, s[k].1)
}

/// Filtering out one name keeps names distinct and drops that name.
proof fn lemma_names_filter<V>(s: Seq<(Seq<char>, V)>, name: Seq<char>)
    requires
        entry_names(s).no_duplicates(),
    ensures
        entry_names(s.filter(other_name::<V>(name))).no_duplicates(),
        !entry_names(s.filter(other_name::<V>(name))).contains(name),
    decreases s.len(),
{
    reveal(Seq::filter);
    let p = other_name::<V>(name);
    if s.len() > 0 {
        let d = s.drop_last();
        assert(entry_names(d) =~= entry_names(s).drop_last());
        assert forall|i: int, j: int| 0 <= i < entry_names(d).len() && 0 <= j < entry_names(d).len() && i != j
            implies entry_names(d)[i] != entry_names(d)[j] by {
            assert(entry_names(d)[i] == entry_names(s)[i]);
            assert(entry_names(d)[j] == entry_names(s)[j]);
        }
        lemma_names_filter(d, name);
        if p(s.last()) {
            assert(entry_names(d.filter(p).push(s.last())) =~= entry_names(d.filter(p)).push(s.last().0));
            if entry_names(d.filter(p)).contains(s.last().0) {
                let k = choose|k: int| 0 <= k < entry_names(d.filter(p)).len() && entry_names(d.filter(p))[k] == s.last().0;
                let x = d.filter(p)[k];
                assert(d.filter(p).contains(x));
                lemma_filter_contains_iff(d, p, x);
                let q = choose|q: int| 0 <= q < d.len() && d[q] == x;
                assert(entry_names(s)[q] == entry_names(s)[s.len() - 1]);
            }
            lemma_push_no_duplicates(entry_names(d.filter(p)), s.last().0);
        }
    } else {
        assert(entry_names(s.filter(p)) =~= Seq::<Seq<char>>::empty());
    }
}

/// List all registered names, in registration order.
pub fn registered<V>(registry: &Registry<V>) -> (r: Vec<String>)
    ensures
        r@.map_values(|s: String| s@) == entry_names(registry.view()),
{
    let mut out: Vec<String> = Vec::new();
    let mut i: usize = 0;
    while i < registry.entries.len()
        invariant
            i <= registry.entries.len(),
            out@.map_values(|s: String| s@) == entry_names(registry.view()).take(i as int),
        decreases registry.entries.len() - i,
    {
        let ghost before = out@;
        out.push(registry.entries[i].0.clone());
        proof {
            assert(registry.view()[i as int].0 == registry.entries@[i as int].0@);
            assert(entry_names(registry.view())[i as int] == registry.view()[i as int].0);
            assert(out@.map_values(|s: String| s@) =~= before.map_values(|s: String| s@).push(registry.entries@[i as int].0@));
            assert(out@.map_values(|s: String| s@) =~= entry_names(registry.view()).take(i + 1));
        }
        i = i + 1;
    }
    proof {
        lemma_take_full(entry_names(registry.view()));
    }
    out
}

/// Replace the value registered as `name`, keeping its place. Returns
/// whether `name` was registered; nothing changes when it was not.
pub fn replace<V>(registry: &mut Registry<V>, name: &str, value: V) -> (found: bool)
    requires
        old(registry).wf(),
    ensures
        final(registry).wf(),
        found == old(registry).has(name@),
        found ==> final(registry).view() == old(registry).view().update(
            entry_names(old(registry).view()).index_of(name@),
            (name@, value),
        ),
        !found ==> final(registry).view() == old(registry).view(),
{
    let key = name.to_owned();
    match registry.find(&key) {
        None => false,
        Some(i) => {
            let ghost names = entry_names(old(registry).view());
            proof {
                let j = names.index_of(name@);
                assert(names[i as int] == name@);
                assert(names.contains(name@));
                assert(names[j] == name@);
                if j != i {
                    assert(names[j] == names[i as int]);
                }
            }
            registry.entries.set(i, (key, value));
            proof {
                assert(registry.view() =~= old(registry).view().update(i as int, (name@, value)));
                assert(entry_names(registry.view()) =~= names);
            }
            true
        },
    }
}

/// The registered values, in registration order.
pub fn values<V>(registry: &Registry<V>) -> (r: Vec<&V>)
    ensures
        r@.len() == registry.view().len(),
        forall|i: int| 0 <= i < r@.len() ==> *(#[trigger] r@[i]) == registry.view()[i].1,
{
    let mut out: Vec<&V> = Vec::new();
    let mut i: usize = 0;
    while i < registry.entries.len()
        invariant
            i <= registry.entries.len(),
            out@.len() == i,
            forall|k: int| 0 <= k < i ==> *(#[trigger] out@[k]) == registry.view()[k].1,
        decreases registry.entries.len() - i,
    {
        out.push(&registry.entries[i].1);
        i = i + 1;
    }
    out
}

/// A name stands for one value: in a well-formed registry two
/// registrations of the same name carry the same value, so `whereis`
/// finds the value `register` stored.
pub proof fn law_name_has_one_value<V>(registry: &Registry<V>, name: Seq<char>, a: V, b: V)
    requires
        registry.wf(),
        registry.view().contains((name, a)),
        registry.view().contains((name, b)),
    ensures
        a == b,
{
    let v = registry.view();
    let i = choose|i: int| 0 <= i < v.len() && v[i] == (name, a);
    let j = choose|j: int| 0 <= j < v.len() && v[j] == (name, b);
    assert(entry_names(v)[i] == name);
    assert(entry_names(v)[j] == name);
}

/// After `unregister(name)` no registration of `name` is left, and every
/// other registration stays.
pub proof fn law_unregister_forgets_only_that_name<V>(entries: Seq<(Seq<char>, V)>, name: Seq<char>, e: (Seq<char>, V))
    ensures
        entries.filter(other_name::<V>(name)).contains(e) <==> entries.contains(e) && e.0 != name,
{
    lemma_filter_contains_iff(entries, other_name::<V>(name), e);
}

} // verus!
