//! The spawnable manifest set: everything that may be spawned later, on
//! request. A component never supplies a manifest; it names one, so a name
//! must resolve to exactly one manifest and the set rejects two that share
//! a name.

use vstd::prelude::*;
use crate::broker::graph::{manifests, named};
use crate::broker::manifest::{Manifest, ManifestView};

verus! {

/// The broker's set of on-demand-spawnable manifests, by name.
#[derive(Debug, Clone)]
pub struct SpawnableSet {
    by_name: Vec<Manifest>,
}

/// Why a spawnable set could not be assembled.
#[derive(Debug, Clone, PartialEq, Eq)]
pub enum SpawnableError {
    /// Two spawnable manifests share a name.
    DuplicateManifest { name: String },
}

/// The manifests after taking in the first `n` of `ms`, or the name of
/// the first manifest whose name was already taken.
pub open spec fn indexed(ms: Seq<ManifestView>, n: int) -> Result<Seq<ManifestView>, Seq<char>>
    decreases n,
{
    if n <= 0 {
        Ok(Seq::empty())
    } else {
        match indexed(ms, n - 1) {
            Err(e) => Err(e),
            Ok(acc) => if named(acc, ms[n - 1].name) is Some {
                Err(ms[n - 1].name)
            } else {
                Ok(acc.push(ms[n - 1]))
            },
        }
    }
}

/// The map from name to manifest that a sequence of manifests stands for.
pub open spec fn by_name_map(es: Seq<ManifestView>) -> Map<Seq<char>, ManifestView> {
    Map::new(|k: Seq<char>| named(es, k) is Some, |k: Seq<char>| es[named(es, k)->0])
}

impl SpawnableSet {
    /// The manifests in the order they were taken in.
    pub closed spec fn entries(&self) -> Seq<ManifestView> {
        manifests(self.by_name@)
    }
}

impl View for SpawnableSet {
    type V = Map<Seq<char>, ManifestView>;

    open spec fn view(&self) -> Map<Seq<char>, ManifestView> {
        by_name_map(self.entries())
    }
}

proof fn lemma_named_bounds(cs: Seq<ManifestView>, x: Seq<char>)
    ensures
        named(cs, x) matches Some(p) ==> 0 <= p < cs.len() && cs[p].name == x,
    decreases cs.len(),
{
    if cs.len() > 0 && cs[0].name != x {
        lemma_named_bounds(cs.drop_first(), x);
    }
}

proof fn lemma_indexed_err_persists(ms: Seq<ManifestView>, k: int, n: int)
    requires
        0 < k <= n,
        indexed(ms, k) is Err,
    ensures
        indexed(ms, n) == indexed(ms, k),
    decreases n - k,
{
    if k < n {
        lemma_indexed_err_persists(ms, k, n - 1);
    }
}

proof fn lemma_named_at_set(cs: Seq<ManifestView>, name: Seq<char>, i: int)
    requires
        0 <= i <= cs.len(),
        forall|j: int| 0 <= j < i ==> (#[trigger] cs[j]).name != name,
        i == cs.len() || cs[i].name == name,
    ensures
        named(cs, name) == (if i < cs.len() {
            Some(i)
        } else {
            None::<int>
        }),
    decreases cs.len(),
{
    if cs.len() > 0 && i > 0 {
        let t = cs.drop_first();
        assert forall|j: int| 0 <= j < i - 1 implies (#[trigger] t[j]).name != name by {
            assert(t[j] == cs[j + 1]);
        }
        if i < cs.len() {
            assert(t[i - 1] == cs[i]);
        }
        lemma_named_at_set(t, name, i - 1);
    }
}

impl SpawnableSet {
    /// An empty spawnable set: a broker that delegates no spawns.
    pub fn new() -> (s: SpawnableSet)
        ensures
            s@ == Map::<Seq<char>, ManifestView>::empty(),
            s.entries().len() == 0,
    {
        let s = SpawnableSet { by_name: Vec::new() };
        assert(s@ =~= Map::<Seq<char>, ManifestView>::empty());
        s
    }

    /// The first manifest named `name`, or the number of manifests.
    fn find(&self, name: &String) -> (i: usize)
        ensures
            i <= self.entries().len(),
            named(self.entries(), name@) == (if i < self.entries().len() {
                Some(i as int)
            } else {
                None::<int>
            }),
    {
        let mut i: usize = 0;
        while i < self.by_name.len() && self.by_name[i].name != *name
            invariant
                i <= self.by_name@.len(),
                forall|j: int| 0 <= j < i ==> (#[trigger] self.entries()[j]).name != name@,
            decreases self.by_name@.len() - i,
        {
            assert(self.entries()[i as int] == self.by_name@[i as int]@);
            i = i + 1;
        }
        proof {
            if i < self.by_name@.len() {
                assert(self.entries()[i as int] == self.by_name@[i as int]@);
            }
            lemma_named_at_set(self.entries(), name@, i as int);
        }
        i
    }

    /// Assemble a spawnable set from a manifest list, rejecting two
    /// manifests that share a name.
    #[verifier::loop_isolation(false)]
    pub fn build(manifests_in: Vec<Manifest>) -> (r: Result<SpawnableSet, SpawnableError>)
        ensures
            match indexed(manifests(manifests_in@), manifests_in@.len() as int) {
                Ok(es) => r matches Ok(s) && s.entries() == es,
                Err(name) => r matches Err(SpawnableError::DuplicateManifest { name: n }) && n@
                    == name,
            },
    {
        let ghost ms = manifests(manifests_in@);
        let ghost total = ms.len() as int;
        let mut set = SpawnableSet { by_name: Vec::new() };
        assert(set.entries() =~= Seq::<ManifestView>::empty());
        let mut rest = manifests_in;
        while rest.len() > 0
            invariant
                0 <= total - rest@.len() <= total,
                total == ms.len(),
                manifests(rest@) == ms.subrange(total - rest@.len(), total),
                indexed(ms, total - rest@.len()) == Ok::<Seq<ManifestView>, Seq<char>>(
                    set.entries(),
                ),
            decreases rest@.len(),
        {
            let ghost k = total - rest@.len();
            let ghost before = rest@;
            let manifest = rest.remove(0);
            assert(manifests(before)[0] == before[0]@);
            assert(manifest@ == ms[k]);
            assert forall|j: int| 0 <= j < rest@.len() implies #[trigger] manifests(rest@)[j]
                == ms[total - rest@.len() + j] by {
                assert(rest@[j] == before[j + 1]);
                assert(manifests(before)[j + 1] == before[j + 1]@);
            }
            assert(manifests(rest@) =~= ms.subrange(total - rest@.len(), total));
            let i = set.find(&manifest.name);
            if i < set.by_name.len() {
                proof {
                    lemma_indexed_err_persists(ms, k + 1, total);
                }
                return Err(SpawnableError::DuplicateManifest { name: manifest.name });
            }
            let ghost es = set.entries();
            set.by_name.push(manifest);
            assert(set.entries() =~= es.push(ms[k]));
        }
        assert(ms.subrange(0, total) =~= ms);
        Ok(set)
    }

    /// The spawnable manifest of the given name, if the set holds one.
    pub fn get(&self, name: &str) -> (r: Option<&Manifest>)
        ensures
            match named(self.entries(), name@) {
                Some(i) => r matches Some(m) && m@ == self.entries()[i],
                None => r is None,
            },
            self@.contains_key(name@) == r is Some,
            r matches Some(m) ==> m@ == self@[name@],
    {
        let key = name.to_owned();
        let i = self.find(&key);
        if i < self.by_name.len() {
            assert(self.entries()[i as int] == self.by_name@[i as int]@);
            Some(&self.by_name[i])
        } else {
            None
        }
    }

    /// How many manifests the set holds.
    pub fn len(&self) -> (n: usize)
        ensures
            n == self.entries().len(),
    {
        self.by_name.len()
    }

    /// Whether the set holds no manifest.
    pub fn is_empty(&self) -> (b: bool)
        ensures
            b == (self.entries().len() == 0),
    {
        self.by_name.len() == 0
    }
}

/// The manifests a set was assembled from are distinct by name.
proof fn lemma_indexed_distinct(ms: Seq<ManifestView>, n: int)
    requires
        0 <= n <= ms.len(),
        indexed(ms, n) is Ok,
    ensures
        indexed(ms, n)->Ok_0 == ms.subrange(0, n),
        forall|i: int, j: int|
            0 <= i < j < n ==> (#[trigger] ms[i]).name != (#[trigger] ms[j]).name,
    decreases n,
{
    if n > 0 {
        lemma_indexed_distinct(ms, n - 1);
        let acc = ms.subrange(0, n - 1);
        assert forall|i: int| 0 <= i < n - 1 implies (#[trigger] ms[i]).name != ms[n - 1].name by {
            if ms[i].name == ms[n - 1].name {
                assert(acc[i] == ms[i]);
                crate::broker::graph::lemma_named_some(acc, ms[n - 1].name, i);
            }
        }
        assert(acc.push(ms[n - 1]) =~= ms.subrange(0, n));
    }
}

/// A set assembled from a manifest list holds every one of them under its
/// name, and nothing else.
pub proof fn lemma_build_indexes_by_name(ms: Seq<ManifestView>)
    requires
        indexed(ms, ms.len() as int) is Ok,
    ensures
        by_name_map(indexed(ms, ms.len() as int)->Ok_0).len() == ms.len(),
        forall|i: int|
            0 <= i < ms.len() ==> by_name_map(indexed(ms, ms.len() as int)->Ok_0)[(
            #[trigger] ms[i]).name] == ms[i],
        forall|k: Seq<char>|
            by_name_map(indexed(ms, ms.len() as int)->Ok_0).contains_key(k) <==> exists|i: int|
                0 <= i < ms.len() && (#[trigger] ms[i]).name == k,
{
    lemma_indexed_distinct(ms, ms.len() as int);
    let es = indexed(ms, ms.len() as int)->Ok_0;
    assert(es =~= ms);
    let m = by_name_map(es);
    assert forall|i: int| 0 <= i < ms.len() implies m[(#[trigger] ms[i]).name] == ms[i] by {
        assert forall|j: int| 0 <= j < i implies (#[trigger] ms[j]).name != ms[i].name by {}
        lemma_named_at_set(ms, ms[i].name, i);
    }
    assert forall|k: Seq<char>| m.contains_key(k) <==> exists|i: int|
        0 <= i < ms.len() && (#[trigger] ms[i]).name == k by {
        lemma_named_bounds(ms, k);
        if exists|i: int| 0 <= i < ms.len() && (#[trigger] ms[i]).name == k {
            let i = choose|i: int| 0 <= i < ms.len() && (#[trigger] ms[i]).name == k;
            crate::broker::graph::lemma_named_some(ms, k, i);
        }
    }
    lemma_names_len(ms, ms.len() as int);
    assert(m.dom() =~= names_of(ms, ms.len() as int));
}

/// The names of the first `n` manifests.
pub open spec fn names_of(ms: Seq<ManifestView>, n: int) -> Set<Seq<char>> {
    Set::new(|k: Seq<char>| exists|i: int| 0 <= i < n && (#[trigger] ms[i]).name == k)
}

proof fn lemma_names_len(ms: Seq<ManifestView>, n: int)
    requires
        0 <= n <= ms.len(),
        forall|i: int, j: int|
            0 <= i < j < ms.len() ==> (#[trigger] ms[i]).name != (#[trigger] ms[j]).name,
    ensures
        names_of(ms, n).finite(),
        names_of(ms, n).len() == n,
    decreases n,
{
    if n == 0 {
        assert(names_of(ms, 0) =~= Set::<Seq<char>>::empty());
    } else {
        lemma_names_len(ms, n - 1);
        assert(names_of(ms, n) =~= names_of(ms, n - 1).insert(ms[n - 1].name));
        assert(!names_of(ms, n - 1).contains(ms[n - 1].name));
    }
}

impl SpawnableError {
    /// The message this rejection reads as.
    pub fn message(&self) -> (m: String)
        ensures
            m@ == (match self {
                SpawnableError::DuplicateManifest { name } => "two spawnable manifests are named `"@
                    + name@ + "`"@,
            }),
    {
        let mut out: Vec<char> = Vec::new();
        match self {
            SpawnableError::DuplicateManifest { name } => {
                crate::text::put_str(&mut out, "two spawnable manifests are named `");
                crate::text::put_str(&mut out, name.as_str());
                crate::text::put_str(&mut out, "`");
            },
        }
        crate::text::string_of(out.as_slice())
    }
}

} // verus!
