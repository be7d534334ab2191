//! Loading an image's dependencies, one library at a time: the walk keeps
//! the libraries still to load (last in, first out) and the install names
//! already settled; the caller reads and maps each library the walk asks
//! for and hands the result back.

use vstd::prelude::*;
use crate::assoc::assoc_lookup;
use crate::linker::Linker;
use crate::macho::MachOBinary;
use crate::resolver::{probe_list, texts_of};

verus! {

broadcast use vstd::string::group_string_axioms;

/// A library waiting to be loaded: its install name, the path of the image
/// that depends on it, and that image's rpaths.
pub struct PendingDylib {
    pub name: String,
    pub loader_path: String,
    pub rpaths: Vec<String>,
}

impl PendingDylib {
    pub open spec fn view(&self) -> (Seq<char>, Seq<char>, Seq<Seq<char>>) {
        (self.name@, self.loader_path@, texts_of(self.rpaths@))
    }
}

/// The state of a dependency walk.
pub struct DependencyWalk {
    to_load: Vec<PendingDylib>,
    settled: Vec<String>,
    executable_path: String,
    roots: Ghost<Seq<Seq<char>>>,
}

/// What one step of the walk found.
#[derive(Debug)]
pub enum WalkStep {
    /// Nothing is left to load.
    Finished,
    /// The library was loaded already, or the registry provides it.
    Skipped(String),
    /// No file was found for the library; it is not looked for again.
    NotFound(String),
    /// Load the file at `linux_path` for the library, then call `finish_dependency`.
    Load { name: String, linux_path: String },
}

/// The libraries an image asks for: each dependency with the image's path
/// and rpaths, in the image's order.
pub open spec fn requests_of(b: MachOBinary) -> Seq<(Seq<char>, Seq<char>, Seq<Seq<char>>)> {
    Seq::new(b.dylib_deps@.len(), |i: int| (b.dylib_deps@[i].name@, b.path@, texts_of(b.rpaths@)))
}

/// The requests of a library loaded from `path`: each of its dependencies
/// with that path and its rpaths.
pub open spec fn requests_from(b: MachOBinary, path: Seq<char>) -> Seq<(Seq<char>, Seq<char>, Seq<Seq<char>>)> {
    Seq::new(b.dylib_deps@.len(), |i: int| (b.dylib_deps@[i].name@, path, texts_of(b.rpaths@)))
}

/// The install names an image depends on, in its order.
pub open spec fn dep_names(b: MachOBinary) -> Seq<Seq<char>> {
    Seq::new(b.dylib_deps@.len(), |i: int| b.dylib_deps@[i].name@)
}

/// The install names still to load.
pub open spec fn pending_names(w: DependencyWalk) -> Seq<Seq<char>> {
    Seq::new(w.pending().len(), |i: int| w.pending()[i].0)
}

/// Whether a library is needed: the main executable depends on it, or a
/// loaded library does.
pub open spec fn needed(w: DependencyWalk, l: Linker, n: Seq<char>) -> bool {
    w.roots().contains(n)
        || exists|i: int| 0 <= i < l.loaded().len() && #[trigger] dep_names(l.loaded()[i].1).contains(n)
}

/// Whether the walk accounts for a library: settled, provided by the
/// registry, or still to load.
pub open spec fn covered(w: DependencyWalk, l: Linker, n: Seq<char>) -> bool {
    w.settled().contains(n) || assoc_lookup(l.registry(), n) is Some || pending_names(w).contains(n)
}

/// The walk accounts for every needed library, except `skip` (a library
/// being loaded between `next_dependency` and `finish_dependency`).
pub open spec fn walk_closed(w: DependencyWalk, l: Linker, skip: Option<Seq<char>>) -> bool {
    forall|n: Seq<char>| #[trigger] needed(w, l, n) ==> covered(w, l, n) || skip == Some(n)
}

/// A finished walk has loaded everything recursively: once nothing is left
/// to load, every library the executable or a loaded library depends on is
/// settled or provided by the registry.
pub proof fn law_finished_walk_settles_all_needed(w: DependencyWalk, l: Linker, n: Seq<char>)
    requires
        walk_closed(w, l, None),
        w.pending().len() == 0,
        needed(w, l, n),
    ensures
        w.settled().contains(n) || assoc_lookup(l.registry(), n) is Some,
{
    assert(covered(w, l, n));
    assert(pending_names(w).len() == 0);
}

impl DependencyWalk {
    /// The libraries still to load; the last one is taken first.
    pub closed spec fn pending(&self) -> Seq<(Seq<char>, Seq<char>, Seq<Seq<char>>)> {
        Seq::new(self.to_load@.len(), |i: int| self.to_load@[i].view())
    }

    /// The install names settled so far (loaded, or not found).
    pub closed spec fn settled(&self) -> Seq<Seq<char>> {
        texts_of(self.settled@)
    }

    /// The main executable's path (for @executable_path).
    pub closed spec fn executable(&self) -> Seq<char> {
        self.executable_path@
    }

    /// The install names the main executable depends on.
    pub closed spec fn roots(&self) -> Seq<Seq<char>> {
        self.roots@
    }

    /// Start a walk over the dependencies of `binary`.
    pub fn new(binary: &MachOBinary) -> (r: DependencyWalk)
        ensures
            r.pending() == requests_of(*binary),
            r.settled().len() == 0,
            r.executable() == binary.path@,
            r.roots() == dep_names(*binary),
            forall|l: Linker| l.loaded().len() == 0 ==> #[trigger] walk_closed(r, l, None),
    {
        let mut to_load: Vec<PendingDylib> = Vec::new();
        let mut i: usize = 0;
        while i < binary.dylib_deps.len()
            invariant
                i <= binary.dylib_deps@.len(),
                to_load@.len() == i,
                forall|k: int| 0 <= k < i ==> #[trigger] to_load@[k].view() == requests_of(*binary)[k],
            decreases binary.dylib_deps.len() - i,
        {
            let p = PendingDylib {
                name: binary.dylib_deps[i].name.clone(),
                loader_path: binary.path.clone(),
                rpaths: clone_strings(&binary.rpaths),
            };
            to_load.push(p);
            i = i + 1;
        }
        let w = DependencyWalk { to_load, settled: Vec::new(), executable_path: binary.path.clone(),
            roots: Ghost(dep_names(*binary)) };
        proof {
            assert(w.pending() =~= requests_of(*binary));
            assert(w.settled() =~= Seq::<Seq<char>>::empty());
            assert(pending_names(w) =~= dep_names(*binary));
            assert forall|l: Linker| l.loaded().len() == 0 implies #[trigger] walk_closed(w, l, None) by {
                assert forall|n: Seq<char>| #[trigger] needed(w, l, n) implies covered(w, l, n) by {
                    assert(w.roots().contains(n));
                }
            }
        }
        w
    }

    /// Whether `name` is settled.
    fn is_settled(&self, name: &String) -> (r: bool)
        ensures
            r == self.settled().contains(name@),
    {
        let mut i: usize = 0;
        while i < self.settled.len()
            invariant
                i <= self.settled@.len(),
                forall|k: int| 0 <= k < i ==> #[trigger] self.settled()[k] != name@,
            decreases self.settled.len() - i,
        {
            if self.settled[i] == *name {
                proof {
                    assert(self.settled()[i as int] == name@);
                }
                return true;
            }
            i = i + 1;
        }
        false
    }

    fn settle(&mut self, name: String)
        ensures
            final(self).settled() == old(self).settled().push(name@),
            final(self).pending() == old(self).pending(),
            final(self).executable() == old(self).executable(),
            final(self).roots() == old(self).roots(),
    {
        let ghost before = self.settled();
        let ghost n = name@;
        self.settled.push(name);
        proof {
            assert(self.settled() =~= before.push(n));
            assert(self.pending() =~= old(self).pending());
        }
    }
}

/// A copy of a list of strings.
fn clone_strings(v: &Vec<String>) -> (r: Vec<String>)
    ensures
        texts_of(r@) == texts_of(v@),
{
    let mut out: Vec<String> = Vec::new();
    let mut i: usize = 0;
    while i < v.len()
        invariant
            i <= v@.len(),
            out@.len() == i,
            forall|k: int| 0 <= k < i ==> #[trigger] out@[k]@ == v@[k]@,
        decreases v.len() - i,
    {
        out.push(v[i].clone());
        i = i + 1;
    }
    proof {
        assert(texts_of(out@) =~= texts_of(v@));
    }
    out
}

/// Whether `path` is a file the resolver may give for `name` requested by
/// the image at `loader` with `rpaths`: the override when there is one, else
/// one of the paths it probes.
pub open spec fn resolution_allowed(l: Linker, exec: Seq<char>, req: (Seq<char>, Seq<char>, Seq<Seq<char>>),
    path: Seq<char>) -> bool {
    match l.resolver().override_of(req.0) {
        Some(o) => path == o,
        None => probe_list(req.0, Some(exec), Some(req.1), req.2, l.resolver().shim_dirs()).contains(path),
    }
}

/// After the last pending library is taken off (and the settled names
/// kept or extended), the walk still accounts for every needed library
/// except, perhaps, the one taken off.
proof fn lemma_closed_after_pop(w0: DependencyWalk, w1: DependencyWalk, l: Linker, name: Seq<char>)
    requires
        walk_closed(w0, l, None),
        w1.roots() == w0.roots(),
        w0.pending().len() > 0,
        w1.pending() == w0.pending().drop_last(),
        w0.pending().last().0 == name,
        forall|m: Seq<char>| #[trigger] w0.settled().contains(m) ==> w1.settled().contains(m),
    ensures
        forall|n: Seq<char>| #[trigger] needed(w1, l, n) ==> covered(w1, l, n) || n == name,
{
    assert(pending_names(w1) =~= pending_names(w0).drop_last());
    assert forall|n: Seq<char>| #[trigger] needed(w1, l, n) implies covered(w1, l, n) || n == name by {
        assert(needed(w0, l, n));
        if pending_names(w0).contains(n) && n != name {
            let k = choose|k: int| 0 <= k < pending_names(w0).len() && pending_names(w0)[k] == n;
            assert(k != pending_names(w0).len() - 1);
            assert(pending_names(w1)[k] == n);
        }
    }
}

/// A settled name stays settled when another is pushed.
proof fn lemma_settled_push(s: Seq<Seq<char>>, x: Seq<char>)
    ensures
        forall|m: Seq<char>| #[trigger] s.contains(m) ==> s.push(x).contains(m),
        s.push(x).contains(x),
{
    assert forall|m: Seq<char>| #[trigger] s.contains(m) implies s.push(x).contains(m) by {
        let k = choose|k: int| 0 <= k < s.len() && s[k] == m;
        assert(s.push(x)[k] == m);
    }
    assert(s.push(x)[s.len() as int] == x);
}

/// Settling the library being loaded, with its dependencies added to the
/// walk and the library kept (`loaded1`), closes the walk again.
proof fn lemma_closed_after_finish(w0: DependencyWalk, w1: DependencyWalk, l0: Linker, l1: Linker,
    name: Seq<char>, added: Option<MachOBinary>, path: Seq<char>)
    requires
        walk_closed(w0, l0, Some(name)),
        w1.roots() == w0.roots(),
        w1.settled() == w0.settled().push(name),
        l1.registry() == l0.registry(),
        match added {
            None => w1.pending() == w0.pending() && l1.loaded() == l0.loaded(),
            Some(b) => w1.pending() == w0.pending() + requests_from(b, path)
                && l1.loaded() == match crate::assoc::assoc_index(l0.loaded(), name) {
                    Some(i) => l0.loaded().update(i, (name, b)),
                    None => l0.loaded().push((name, b)),
                },
        },
    ensures
        walk_closed(w1, l1, None),
{
    lemma_settled_push(w0.settled(), name);
    let p0 = pending_names(w0);
    let p1 = pending_names(w1);
    assert forall|m: Seq<char>| #[trigger] p0.contains(m) implies p1.contains(m) by {
        let k = choose|k: int| 0 <= k < p0.len() && p0[k] == m;
        assert(p1[k] == m);
    }
    assert forall|n: Seq<char>| #[trigger] needed(w1, l1, n) implies covered(w1, l1, n) by {
        if w1.roots().contains(n) {
            assert(needed(w0, l0, n));
        } else {
            let i = choose|i: int| 0 <= i < l1.loaded().len() && #[trigger] dep_names(l1.loaded()[i].1).contains(n);
            match added {
                None => {
                    assert(needed(w0, l0, n));
                },
                Some(b) => {
                    if l1.loaded()[i].1 == b {
                        let j = choose|j: int| 0 <= j < dep_names(b).len() && dep_names(b)[j] == n;
                        assert(p1[p0.len() + j] == n);
                    } else {
                        match crate::assoc::assoc_index(l0.loaded(), name) {
                            Some(x) => {
                                crate::assoc::lemma_assoc_index(l0.loaded(), name);
                                assert(i != x);
                                assert(l1.loaded()[i] == l0.loaded()[i]);
                            },
                            None => {
                                assert(i < l0.loaded().len());
                                assert(l1.loaded()[i] == l0.loaded()[i]);
                            },
                        }
                        assert(needed(w0, l0, n));
                    }
                },
            }
        }
    }
}

impl Linker {
    /// Take the next library off the walk. One already settled, or one the
    /// registry provides, is skipped; one the resolver finds no file for is
    /// settled as not found; else the caller is to load the file found.
    pub fn next_dependency(&self, walk: &mut DependencyWalk) -> (r: WalkStep)
        ensures
            final(walk).executable() == old(walk).executable(),
            final(walk).roots() == old(walk).roots(),
            walk_closed(*old(walk), *self, None) ==> match r {
                WalkStep::Load { name, linux_path: _ } => walk_closed(*final(walk), *self, Some(name@)),
                _ => walk_closed(*final(walk), *self, None),
            },
            old(walk).pending().len() == 0 ==> r is Finished && *final(walk) == *old(walk),
            old(walk).pending().len() > 0 ==> ({
                let req = old(walk).pending().last();
                &&& final(walk).pending() == old(walk).pending().drop_last()
                &&& (old(walk).settled().contains(req.0) || assoc_lookup(self.registry(), req.0) is Some)
                        ==> (r matches WalkStep::Skipped(n) && n@ == req.0 && final(walk).settled() == old(walk).settled())
                &&& !(old(walk).settled().contains(req.0) || assoc_lookup(self.registry(), req.0) is Some) ==> (
                        (r matches WalkStep::NotFound(n) && n@ == req.0 && self.resolver().override_of(req.0) is None
                            && final(walk).settled() == old(walk).settled().push(req.0))
                        || (r matches WalkStep::Load { name, linux_path } && name@ == req.0
                            && resolution_allowed(*self, old(walk).executable(), req, linux_path@)
                            && final(walk).settled() == old(walk).settled()))
            }),
    {
        if walk.to_load.len() == 0 {
            return WalkStep::Finished;
        }
        let ghost before = walk.pending();
        let p = walk.to_load.pop().unwrap();
        proof {
            assert(walk.pending() =~= before.drop_last());
            assert(p.view() == before.last());
        }
        let ghost w0 = *old(walk);
        let ghost w1 = *walk;
        let ghost pname = p.name@;
        if walk.is_settled(&p.name) || self.has_registry_entry(&p.name) {
            proof {
                if walk_closed(w0, *self, None) {
                    lemma_closed_after_pop(w0, w1, *self, pname);
                }
            }
            return WalkStep::Skipped(p.name);
        }
        let found = self.resolver_ref().resolve(p.name.as_str(), Some(walk.executable_path.as_str()),
            Some(p.loader_path.as_str()), p.rpaths.as_slice());
        match found {
            None => {
                let n = p.name.clone();
                walk.settle(p.name);
                proof {
                    lemma_settled_push(w1.settled(), pname);
                    if walk_closed(w0, *self, None) {
                        lemma_closed_after_pop(w0, *walk, *self, pname);
                    }
                }
                WalkStep::NotFound(n)
            },
            Some(path) => {
                proof {
                    if walk_closed(w0, *self, None) {
                        lemma_closed_after_pop(w0, w1, *self, pname);
                    }
                }
                WalkStep::Load { name: p.name, linux_path: path }
            },
        }
    }

    /// Record the outcome of loading a library the walk asked for: a library
    /// that could not be read is settled; a loaded one is kept under its
    /// install name, its own dependencies join the walk, and it is settled.
    pub fn finish_dependency(&mut self, walk: &mut DependencyWalk, name: String, linux_path: String,
        lib: Option<MachOBinary>)
        ensures
            final(walk).executable() == old(walk).executable(),
            final(walk).roots() == old(walk).roots(),
            walk_closed(*old(walk), *old(self), Some(name@)) ==> walk_closed(*final(walk), *final(self), None),
            final(walk).settled() == old(walk).settled().push(name@),
            final(self).registry() == old(self).registry(),
            final(self).resolver() == old(self).resolver(),
            match lib {
                None => final(walk).pending() == old(walk).pending() && final(self).loaded() == old(self).loaded(),
                Some(b) => final(walk).pending() == old(walk).pending() + requests_from(b, linux_path@)
                    && final(self).loaded() == ({
                        let libs = old(self).loaded();
                        match crate::assoc::assoc_index(libs, name@) {
                            Some(i) => libs.update(i, (name@, b)),
                            None => libs.push((name@, b)),
                        }
                    }),
            },
    {
        let ghost w0 = *old(walk);
        let ghost l0 = *old(self);
        let ghost nv = name@;
        let ghost lp = linux_path@;
        let ghost added = lib;
        match lib {
            None => {
                walk.settle(name);
                proof {
                    if walk_closed(w0, l0, Some(nv)) {
                        lemma_closed_after_finish(w0, *walk, l0, *self, nv, added, lp);
                    }
                }
            },
            Some(b) => {
                let ghost before = walk.pending();
                let mut i: usize = 0;
                while i < b.dylib_deps.len()
                    invariant
                        i <= b.dylib_deps@.len(),
                        walk.pending() == before + requests_from(b, linux_path@).take(i as int),
                        walk.settled() == old(walk).settled(),
                        walk.executable() == old(walk).executable(),
                        walk.roots() == old(walk).roots(),
                    decreases b.dylib_deps.len() - i,
                {
                    let p = PendingDylib {
                        name: b.dylib_deps[i].name.clone(),
                        loader_path: linux_path.clone(),
                        rpaths: clone_strings(&b.rpaths),
                    };
                    let ghost pv = p.view();
                    let ghost mid = walk.pending();
                    walk.to_load.push(p);
                    proof {
                        assert(walk.pending() =~= mid.push(pv));
                        assert(requests_from(b, linux_path@).take(i + 1) =~= requests_from(b, linux_path@).take(i as int).push(pv));
                    }
                    i = i + 1;
                }
                proof {
                    assert(requests_from(b, linux_path@).take(i as int) =~= requests_from(b, linux_path@));
                }
                let n = name.clone();
                self.add_loaded_library(n, b);
                walk.settle(name);
                proof {
                    if walk_closed(w0, l0, Some(nv)) {
                        lemma_closed_after_finish(w0, *walk, l0, *self, nv, added, lp);
                    }
                }
            },
        }
    }
}

} // verus!
