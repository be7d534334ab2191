//! Mapping of Darwin install names (@rpath, @loader_path, @executable_path,
//! absolute paths) to files on this system.

use vstd::prelude::*;
use crate::text::{owned, strip_prefix};
use crate::assoc::{assoc_lookup, lemma_assoc_update, lemma_assoc_push, lemma_assoc_absent, lemma_assoc_first};

verus! {

broadcast use vstd::string::group_string_axioms;

/// The parent of a path, as `std::path::Path::parent` computes it.
pub uninterp spec fn path_parent(p: Seq<char>) -> Option<Seq<char>>;

/// `a` joined with `b`, as `std::path::Path::join` computes it.
pub uninterp spec fn path_join(a: Seq<char>, b: Seq<char>) -> Seq<char>;

/// The last component of a path, as `std::path::Path::file_name` computes it.
pub uninterp spec fn path_file_name(p: Seq<char>) -> Option<Seq<char>>;

/// `std::path::Path::parent`.
#[verifier::external_body]
pub(crate) fn parent_of(p: &str) -> (r: Option<String>)
    ensures
        match path_parent(p@) {
            Some(q) => r matches Some(s) && s@ == q,
            None => r is None,
        },
{
    std::path::Path::new(p).parent().map(|q| q.to_string_lossy().into_owned())
}

/// `std::path::Path::join`.
#[verifier::external_body]
fn join_path(a: &str, b: &str) -> (r: String)
    ensures
        r@ == path_join(a@, b@),
{
    std::path::Path::new(a).join(b).to_string_lossy().into_owned()
}

/// `std::path::Path::file_name`.
#[verifier::external_body]
fn file_name_of(p: &str) -> (r: Option<String>)
    ensures
        match path_file_name(p@) {
            Some(q) => r matches Some(s) && s@ == q,
            None => r is None,
        },
{
    std::path::Path::new(p).file_name().map(|q| q.to_string_lossy().into_owned())
}

/// `std::path::Path::exists`: whether the file system holds the path now.
/// What it answers depends on the file system, so nothing is stated of it.
#[verifier::external_body]
fn path_exists(p: &str) -> bool {
    std::path::Path::new(p).exists()
}

/// The text of a string literal, as a sequence.
pub open spec fn lit_executable_path() -> Seq<char> {
    seq!['@', 'e', 'x', 'e', 'c', 'u', 't', 'a', 'b', 'l', 'e', '_', 'p', 'a', 't', 'h']
}

pub open spec fn lit_loader_path() -> Seq<char> {
    seq!['@', 'l', 'o', 'a', 'd', 'e', 'r', '_', 'p', 'a', 't', 'h']
}

pub open spec fn lit_rpath() -> Seq<char> {
    seq!['@', 'r', 'p', 'a', 't', 'h']
}

pub open spec fn slash() -> Seq<char> {
    seq!['/']
}

/// `s` without `prefix`, when it begins with it.
pub open spec fn spec_strip(s: Seq<char>, prefix: Seq<char>) -> Option<Seq<char>> {
    if prefix.len() <= s.len() && s.take(prefix.len() as int) == prefix {
        Some(s.skip(prefix.len() as int))
    } else {
        None
    }
}

/// The directory an rpath entry names, with @executable_path and
/// @loader_path substituted; None when the path it needs is absent or has
/// no parent.
pub open spec fn spec_resolve_rpath(rpath: Seq<char>, exec: Option<Seq<char>>, loader: Option<Seq<char>>) -> Option<Seq<char>> {
    if let Some(rest) = spec_strip(rpath, lit_executable_path() + slash()) {
        match exec { Some(e) => match path_parent(e) { Some(d) => Some(path_join(d, rest)), None => None }, None => None }
    } else if rpath == lit_executable_path() {
        match exec { Some(e) => path_parent(e), None => None }
    } else if let Some(rest) = spec_strip(rpath, lit_loader_path() + slash()) {
        match loader { Some(l) => match path_parent(l) { Some(d) => Some(path_join(d, rest)), None => None }, None => None }
    } else if rpath == lit_loader_path() {
        match loader { Some(l) => path_parent(l), None => None }
    } else {
        Some(rpath)
    }
}

/// The candidates tried for `@rpath/rest` over the first `n` rpaths, and
/// whether every one of them resolved (an rpath that does not resolve ends
/// the whole lookup with nothing).
pub open spec fn rpath_candidates(rpaths: Seq<Seq<char>>, rest: Seq<char>, exec: Option<Seq<char>>,
    loader: Option<Seq<char>>, n: nat) -> (Seq<Seq<char>>, bool)
    decreases n,
{
    if n == 0 {
        (Seq::empty(), true)
    } else {
        let prev = rpath_candidates(rpaths, rest, exec, loader, (n - 1) as nat);
        if !prev.1 {
            prev
        } else {
            match spec_resolve_rpath(rpaths[n - 1], exec, loader) {
                Some(d) => (prev.0.push(path_join(d, rest)), true),
                None => (prev.0, false),
            }
        }
    }
}

/// The candidates tried from the @-prefix of an install name, and whether
/// the lookup goes on to the shim directories afterwards.
pub open spec fn prefix_candidates(p: Seq<char>, exec: Option<Seq<char>>, loader: Option<Seq<char>>,
    rpaths: Seq<Seq<char>>) -> (Seq<Seq<char>>, bool) {
    if let Some(rest) = spec_strip(p, lit_executable_path() + slash()) {
        match exec {
            Some(e) => match path_parent(e) { Some(d) => (seq![path_join(d, rest)], true), None => (Seq::empty(), true) },
            None => (Seq::empty(), true),
        }
    } else if let Some(rest) = spec_strip(p, lit_loader_path() + slash()) {
        match loader {
            Some(l) => match path_parent(l) { Some(d) => (seq![path_join(d, rest)], true), None => (Seq::empty(), true) },
            None => (Seq::empty(), true),
        }
    } else if let Some(rest) = spec_strip(p, lit_rpath() + slash()) {
        rpath_candidates(rpaths, rest, exec, loader, rpaths.len())
    } else {
        (Seq::empty(), true)
    }
}

/// The shim-directory candidates for a file name.
pub open spec fn shim_candidates(dirs: Seq<Seq<char>>, name: Seq<char>) -> Seq<Seq<char>> {
    Seq::new(dirs.len(), |i: int| path_join(dirs[i], name))
}

/// Every path `resolve` probes for existence, in order (after a miss in the
/// override table): the @-prefix candidates, then (when the lookup goes on
/// and the name has a last component) each shim directory joined with it,
/// then the name itself.
pub open spec fn probe_list(p: Seq<char>, exec: Option<Seq<char>>, loader: Option<Seq<char>>,
    rpaths: Seq<Seq<char>>, dirs: Seq<Seq<char>>) -> Seq<Seq<char>> {
    let pre = prefix_candidates(p, exec, loader, rpaths);
    if !pre.1 {
        pre.0
    } else {
        match path_file_name(p) {
            Some(f) => pre.0 + shim_candidates(dirs, f) + seq![p],
            None => pre.0,
        }
    }
}

/// An install name `@loader_path/rest` is first looked for beside the
/// library that loads it: when the loader's path has a parent directory,
/// the first probe is that directory joined with `rest`, and the probes do
/// not depend on the executable's path.
pub proof fn law_loader_path_probes_beside_the_loader(rest: Seq<char>, loader: Seq<char>, d: Seq<char>,
    exec1: Option<Seq<char>>, exec2: Option<Seq<char>>, rpaths: Seq<Seq<char>>, dirs: Seq<Seq<char>>)
    requires
        path_parent(loader) == Some(d),
    ensures
        probe_list(lit_loader_path() + slash() + rest, exec1, Some(loader), rpaths, dirs).len() > 0,
        probe_list(lit_loader_path() + slash() + rest, exec1, Some(loader), rpaths, dirs)[0] == path_join(d, rest),
        probe_list(lit_loader_path() + slash() + rest, exec1, Some(loader), rpaths, dirs)
            == probe_list(lit_loader_path() + slash() + rest, exec2, Some(loader), rpaths, dirs),
{
    let p = lit_loader_path() + slash() + rest;
    let ep = lit_executable_path() + slash();
    let lp = lit_loader_path() + slash();
    assert(p[1] == 'l');
    assert(spec_strip(p, ep) is None) by {
        if ep.len() <= p.len() && p.take(ep.len() as int) == ep {
            assert(p.take(ep.len() as int)[1] == ep[1]);
        }
    }
    assert(p.take(lp.len() as int) =~= lp);
    assert(p.skip(lp.len() as int) =~= rest);
    assert(spec_strip(p, lp) == Some(rest));
}

/// An install name `@executable_path/rest` is first looked for beside the
/// executable: when its path has a parent directory, the first probe is
/// that directory joined with `rest`, and the probes do not depend on the
/// loading library's path.
pub proof fn law_executable_path_probes_beside_the_executable(rest: Seq<char>, exec: Seq<char>, d: Seq<char>,
    loader1: Option<Seq<char>>, loader2: Option<Seq<char>>, rpaths: Seq<Seq<char>>, dirs: Seq<Seq<char>>)
    requires
        path_parent(exec) == Some(d),
    ensures
        probe_list(lit_executable_path() + slash() + rest, Some(exec), loader1, rpaths, dirs).len() > 0,
        probe_list(lit_executable_path() + slash() + rest, Some(exec), loader1, rpaths, dirs)[0] == path_join(d, rest),
        probe_list(lit_executable_path() + slash() + rest, Some(exec), loader1, rpaths, dirs)
            == probe_list(lit_executable_path() + slash() + rest, Some(exec), loader2, rpaths, dirs),
{
    let p = lit_executable_path() + slash() + rest;
    let ep = lit_executable_path() + slash();
    assert(p.take(ep.len() as int) =~= ep);
    assert(p.skip(ep.len() as int) =~= rest);
    assert(spec_strip(p, ep) == Some(rest));
}

/// Plain rpath entries (ones that do not start with '@') are tried in
/// order: for `@rpath/rest`, the i-th probe is the i-th rpath joined with
/// `rest`.
pub proof fn law_rpath_probes_follow_the_rpaths(rest: Seq<char>, exec: Option<Seq<char>>,
    loader: Option<Seq<char>>, rpaths: Seq<Seq<char>>, dirs: Seq<Seq<char>>, i: int)
    requires
        forall|k: int| 0 <= k < rpaths.len() ==> #[trigger] rpaths[k].len() > 0 && rpaths[k][0] != '@',
        0 <= i < rpaths.len(),
    ensures
        probe_list(lit_rpath() + slash() + rest, exec, loader, rpaths, dirs).len() > i,
        probe_list(lit_rpath() + slash() + rest, exec, loader, rpaths, dirs)[i] == path_join(rpaths[i], rest),
{
    let p = lit_rpath() + slash() + rest;
    let ep = lit_executable_path() + slash();
    let lp = lit_loader_path() + slash();
    let rp = lit_rpath() + slash();
    assert(p[1] == 'r');
    assert(spec_strip(p, ep) is None) by {
        if ep.len() <= p.len() && p.take(ep.len() as int) == ep {
            assert(p.take(ep.len() as int)[1] == ep[1]);
        }
    }
    assert(spec_strip(p, lp) is None) by {
        if lp.len() <= p.len() && p.take(lp.len() as int) == lp {
            assert(p.take(lp.len() as int)[1] == lp[1]);
        }
    }
    assert(p.take(rp.len() as int) =~= rp);
    assert(p.skip(rp.len() as int) =~= rest);
    assert(spec_strip(p, rp) == Some(rest));
    lemma_plain_rpaths(rpaths, rest, exec, loader, rpaths.len());
}

/// Over plain rpaths every entry resolves to itself.
proof fn lemma_plain_rpaths(rpaths: Seq<Seq<char>>, rest: Seq<char>, exec: Option<Seq<char>>,
    loader: Option<Seq<char>>, n: nat)
    requires
        forall|k: int| 0 <= k < rpaths.len() ==> #[trigger] rpaths[k].len() > 0 && rpaths[k][0] != '@',
        n <= rpaths.len(),
    ensures
        rpath_candidates(rpaths, rest, exec, loader, n).1,
        rpath_candidates(rpaths, rest, exec, loader, n).0.len() == n,
        forall|k: int| 0 <= k < n ==> #[trigger] rpath_candidates(rpaths, rest, exec, loader, n).0[k]
            == path_join(rpaths[k], rest),
    decreases n,
{
    if n > 0 {
        lemma_plain_rpaths(rpaths, rest, exec, loader, (n - 1) as nat);
        let r = rpaths[n - 1];
        let ep = lit_executable_path() + slash();
        let lp = lit_loader_path() + slash();
        assert(r[0] != '@');
        assert(spec_strip(r, ep) is None) by {
            if ep.len() <= r.len() && r.take(ep.len() as int) == ep {
                assert(r.take(ep.len() as int)[0] == ep[0]);
            }
        }
        assert(spec_strip(r, lp) is None) by {
            if lp.len() <= r.len() && r.take(lp.len() as int) == lp {
                assert(r.take(lp.len() as int)[0] == lp[0]);
            }
        }
        assert(r != lit_executable_path()) by { if r == lit_executable_path() { assert(r[0] == '@'); } }
        assert(r != lit_loader_path()) by { if r == lit_loader_path() { assert(r[0] == '@'); } }
        assert(spec_resolve_rpath(r, exec, loader) == Some(r));
    }
}

/// Install-name substitutions and search directories.
pub struct DylibResolver {
    overrides: Vec<(String, String)>,
    shim_dirs: Vec<String>,
}

impl DylibResolver {
    /// The override table, in insertion order of first appearance.
    pub closed spec fn overrides(&self) -> Seq<(Seq<char>, Seq<char>)> {
        Seq::new(self.overrides@.len(), |i: int| (self.overrides@[i].0@, self.overrides@[i].1@))
    }

    /// The shim directories, in the order they were added.
    pub closed spec fn shim_dirs(&self) -> Seq<Seq<char>> {
        Seq::new(self.shim_dirs@.len(), |i: int| self.shim_dirs@[i]@)
    }

    /// The override of a Darwin path: the first entry for it.
    pub open spec fn override_of(&self, p: Seq<char>) -> Option<Seq<char>> {
        assoc_lookup(self.overrides(), p)
    }

    pub fn new() -> (r: DylibResolver)
        ensures
            r.overrides().len() == 0,
            r.shim_dirs().len() == 0,
    {
        DylibResolver { overrides: Vec::new(), shim_dirs: Vec::new() }
    }

    /// Add a directory searched for a library's file name.
    pub fn add_shim_dir(&mut self, dir: String)
        ensures
            final(self).shim_dirs() == old(self).shim_dirs().push(dir@),
            final(self).overrides() == old(self).overrides(),
    {
        let ghost d = dir@;
        self.shim_dirs.push(dir);
        proof {
            assert(self.shim_dirs() =~= old(self).shim_dirs().push(d));
            assert(self.overrides() =~= old(self).overrides());
        }
    }

    /// Map a Darwin path to a Linux path, replacing an earlier mapping of it.
    pub fn add_override(&mut self, darwin_path: String, linux_path: String)
        ensures
            final(self).shim_dirs() == old(self).shim_dirs(),
            final(self).override_of(darwin_path@) == Some(linux_path@),
            forall|p: Seq<char>| p != darwin_path@ ==> #[trigger] final(self).override_of(p) == old(self).override_of(p),
    {
        let ghost dp = darwin_path@;
        let ghost lp = linux_path@;
        let mut i: usize = 0;
        while i < self.overrides.len()
            invariant
                i <= self.overrides@.len(),
                self.overrides@ == old(self).overrides@,
                self.shim_dirs@ == old(self).shim_dirs@,
                forall|j: int| 0 <= j < i ==> #[trigger] self.overrides()[j].0 != dp,
                darwin_path@ == dp,
                linux_path@ == lp,
            decreases self.overrides.len() - i,
        {
            if self.overrides[i].0 == darwin_path {
                let ghost before = self.overrides();
                self.overrides.set(i, (darwin_path, linux_path));
                proof {
                    assert(self.overrides() =~= before.update(i as int, (before[i as int].0, lp)));
                    assert forall|p: Seq<char>| #[trigger] self.override_of(p) == (if p == dp { Some(lp) } else { old(self).override_of(p) }) by {
                        lemma_assoc_update(before, i as int, lp, p);
                    }
                    assert(self.shim_dirs() =~= old(self).shim_dirs());
                }
                return;
            }
            i = i + 1;
        }
        let ghost before = self.overrides();
        self.overrides.push((darwin_path, linux_path));
        proof {
            assert(self.overrides() =~= before.push((dp, lp)));
            lemma_assoc_absent(before, dp);
            assert forall|p: Seq<char>| #[trigger] self.override_of(p) == (if p == dp { Some(lp) } else { old(self).override_of(p) }) by {
                lemma_assoc_push(before, (dp, lp), p);
            }
            assert(self.shim_dirs() =~= old(self).shim_dirs());
        }
    }
}


/// The texts of a slice of strings.
pub open spec fn texts_of(v: Seq<String>) -> Seq<Seq<char>> {
    Seq::new(v.len(), |i: int| v[i]@)
}

/// The view of an optional string slice.
pub open spec fn opt_text(o: Option<&str>) -> Option<Seq<char>> {
    match o {
        Some(s) => Some(s@),
        None => None,
    }
}

/// `s` with `prefix` stripped, when `s` begins with it.
fn strip(s: &str, prefix: &str) -> (r: Option<String>)
    ensures
        match spec_strip(s@, prefix@) {
            Some(t) => r matches Some(x) && x@ == t,
            None => r is None,
        },
{
    strip_prefix(s, prefix)
}

/// The directory of `p`'s parent joined with `rest`.
fn parent_join(p: Option<&str>, rest: &str) -> (r: Option<String>)
    ensures
        match opt_text(p) {
            Some(e) => match path_parent(e) {
                Some(d) => r matches Some(x) && x@ == path_join(d, rest@),
                None => r is None,
            },
            None => r is None,
        },
{
    match p {
        Some(e) => match parent_of(e) {
            Some(d) => Some(join_path(d.as_str(), rest)),
            None => None,
        },
        None => None,
    }
}

/// The parent directory of `p`.
fn parent_opt(p: Option<&str>) -> (r: Option<String>)
    ensures
        match opt_text(p) {
            Some(e) => match path_parent(e) {
                Some(d) => r matches Some(x) && x@ == d,
                None => r is None,
            },
            None => r is None,
        },
{
    match p {
        Some(e) => parent_of(e),
        None => None,
    }
}

impl DylibResolver {
    /// The directory an rpath entry names, with @executable_path and @loader_path substituted.
    fn resolve_rpath(&self, rpath: &str, executable_path: Option<&str>, loader_path: Option<&str>) -> (r: Option<String>)
        ensures
            match spec_resolve_rpath(rpath@, opt_text(executable_path), opt_text(loader_path)) {
                Some(d) => r matches Some(x) && x@ == d,
                None => r is None,
            },
    {
        let ep = "@executable_path/";
        let e = "@executable_path";
        let lp = "@loader_path/";
        let l = "@loader_path";
        proof {
            reveal_strlit("@executable_path/");
            reveal_strlit("@executable_path");
            reveal_strlit("@loader_path/");
            reveal_strlit("@loader_path");
            assert(ep@ =~= lit_executable_path() + slash());
            assert(e@ =~= lit_executable_path());
            assert(lp@ =~= lit_loader_path() + slash());
            assert(l@ =~= lit_loader_path());
        }
        let rpath_s = owned(rpath);
        if let Some(rest) = strip(rpath, ep) {
            parent_join(executable_path, rest.as_str())
        } else if rpath_s == owned(e) {
            parent_opt(executable_path)
        } else if let Some(rest) = strip(rpath, lp) {
            parent_join(loader_path, rest.as_str())
        } else if rpath_s == owned(l) {
            parent_opt(loader_path)
        } else {
            Some(rpath_s)
        }
    }

    /// The candidates for `@rpath/rest` over all rpaths, and whether every rpath resolved.
    fn rpath_probes(&self, rest: &str, executable_path: Option<&str>, loader_path: Option<&str>,
        rpaths: &[String]) -> (r: (Vec<String>, bool))
        ensures
            (texts_of(r.0@), r.1) == rpath_candidates(texts_of(rpaths@), rest@, opt_text(executable_path),
                opt_text(loader_path), rpaths@.len()),
    {
        let ghost rps = texts_of(rpaths@);
        let mut out: Vec<String> = Vec::new();
        let mut i: usize = 0;
        while i < rpaths.len()
            invariant
                i <= rpaths@.len(),
                rps == texts_of(rpaths@),
                rpath_candidates(rps, rest@, opt_text(executable_path), opt_text(loader_path), i as nat)
                    == (texts_of(out@), true),
            decreases rpaths.len() - i,
        {
            match self.resolve_rpath(rpaths[i].as_str(), executable_path, loader_path) {
                Some(d) => {
                    let ghost o = out@;
                    out.push(join_path(d.as_str(), rest));
                    proof {
                        assert(texts_of(out@) =~= texts_of(o).push(path_join(d@, rest@)));
                    }
                },
                None => {
                    proof {
                        lemma_rpath_stop(rps, rest@, opt_text(executable_path), opt_text(loader_path),
                            (i + 1) as nat, rpaths@.len());
                    }
                    return (out, false);
                },
            }
            i = i + 1;
        }
        (out, true)
    }

    /// The candidates from the @-prefix of an install name, and whether the lookup goes on.
    fn prefix_probes(&self, darwin_path: &str, executable_path: Option<&str>, loader_path: Option<&str>,
        rpaths: &[String]) -> (r: (Vec<String>, bool))
        ensures
            (texts_of(r.0@), r.1) == prefix_candidates(darwin_path@, opt_text(executable_path),
                opt_text(loader_path), texts_of(rpaths@)),
    {
        let ep = "@executable_path/";
        let lp = "@loader_path/";
        let rp = "@rpath/";
        proof {
            reveal_strlit("@executable_path/");
            reveal_strlit("@loader_path/");
            reveal_strlit("@rpath/");
            assert(ep@ =~= lit_executable_path() + slash());
            assert(lp@ =~= lit_loader_path() + slash());
            assert(rp@ =~= lit_rpath() + slash());
        }
        let mut out: Vec<String> = Vec::new();
        if let Some(rest) = strip(darwin_path, ep) {
            if let Some(c) = parent_join(executable_path, rest.as_str()) {
                out.push(c);
                proof { assert(texts_of(out@) =~= seq![c@]); }
            } else {
                proof { assert(texts_of(out@) =~= Seq::<Seq<char>>::empty()); }
            }
            (out, true)
        } else if let Some(rest) = strip(darwin_path, lp) {
            if let Some(c) = parent_join(loader_path, rest.as_str()) {
                out.push(c);
                proof { assert(texts_of(out@) =~= seq![c@]); }
            } else {
                proof { assert(texts_of(out@) =~= Seq::<Seq<char>>::empty()); }
            }
            (out, true)
        } else if let Some(rest) = strip(darwin_path, rp) {
            self.rpath_probes(rest.as_str(), executable_path, loader_path, rpaths)
        } else {
            proof { assert(texts_of(out@) =~= Seq::<Seq<char>>::empty()); }
            (out, true)
        }
    }

    /// Every path `resolve` probes, in order, after a miss in the override table.
    pub fn probe_paths(&self, darwin_path: &str, executable_path: Option<&str>, loader_path: Option<&str>,
        rpaths: &[String]) -> (r: Vec<String>)
        ensures
            texts_of(r@) == probe_list(darwin_path@, opt_text(executable_path), opt_text(loader_path),
                texts_of(rpaths@), self.shim_dirs()),
    {
        let (mut out, go_on) = self.prefix_probes(darwin_path, executable_path, loader_path, rpaths);
        if !go_on {
            return out;
        }
        let name = match file_name_of(darwin_path) {
            Some(f) => f,
            None => { return out; },
        };
        let ghost pre = texts_of(out@);
        let mut i: usize = 0;
        while i < self.shim_dirs.len()
            invariant
                i <= self.shim_dirs@.len(),
                texts_of(out@) == pre + shim_candidates(self.shim_dirs(), name@).take(i as int),
            decreases self.shim_dirs.len() - i,
        {
            let ghost o = out@;
            out.push(join_path(self.shim_dirs[i].as_str(), name.as_str()));
            proof {
                assert(texts_of(out@) =~= texts_of(o).push(path_join(self.shim_dirs@[i as int]@, name@)));
            }
            i = i + 1;
            proof {
                assert(texts_of(out@) =~= pre + shim_candidates(self.shim_dirs(), name@).take(i as int));
            }
        }
        let ghost o2 = out@;
        out.push(owned(darwin_path));
        proof {
            assert(shim_candidates(self.shim_dirs(), name@).take(i as int) =~= shim_candidates(self.shim_dirs(), name@));
            assert(texts_of(out@) =~= texts_of(o2) + seq![darwin_path@]);
        }
        out
    }

    /// Resolve a library path, substituting @rpath, @loader_path and
    /// @executable_path: the override when there is one, else the first
    /// probed path (see `probe_paths`) that exists, picked by
    /// `first_existing` from the file system's answers. Those answers come
    /// from the disk, so which probe is returned is not stated here, only
    /// that a returned path is one of the probes.
    pub fn resolve(&self, darwin_path: &str, executable_path: Option<&str>, loader_path: Option<&str>,
        rpaths: &[String]) -> (r: Option<String>)
        ensures
            self.override_of(darwin_path@) matches Some(o) ==> r matches Some(x) && x@ == o,
            self.override_of(darwin_path@) is None ==> (r matches Some(x) ==> probe_list(darwin_path@,
                opt_text(executable_path), opt_text(loader_path), texts_of(rpaths@), self.shim_dirs()).contains(x@)),
    {
        let key = owned(darwin_path);
        let mut k: usize = 0;
        while k < self.overrides.len()
            invariant
                k <= self.overrides@.len(),
                key@ == darwin_path@,
                forall|j: int| 0 <= j < k ==> #[trigger] self.overrides()[j].0 != key@,
            decreases self.overrides.len() - k,
        {
            if self.overrides[k].0 == key {
                proof {
                    lemma_assoc_first(self.overrides(), key@, k as int);
                }
                return Some(self.overrides[k].1.clone());
            }
            k = k + 1;
        }
        proof {
            lemma_assoc_absent(self.overrides(), key@);
        }
        let probes = self.probe_paths(darwin_path, executable_path, loader_path, rpaths);
        let mut answers: Vec<bool> = Vec::new();
        let mut i: usize = 0;
        while i < probes.len()
            invariant
                i <= probes@.len(),
                answers@.len() == i,
            decreases probes.len() - i,
        {
            let found = path_exists(probes[i].as_str());
            answers.push(found);
            i = i + 1;
            if found {
                break;
            }
        }
        let r = first_existing(&probes, &answers);
        proof {
            lemma_first_existing_in(texts_of(probes@), answers@, 0);
        }
        r
    }
}

/// The first of `probes` from index `i` on whose answer in `exists` is
/// true; `None` when no answered probe from `i` on exists.
pub open spec fn first_existing_from(probes: Seq<Seq<char>>, exists: Seq<bool>, i: int) -> Option<Seq<char>>
    decreases exists.len() - i,
{
    if i < 0 || i >= exists.len() || i >= probes.len() {
        None
    } else if exists[i] {
        Some(probes[i])
    } else {
        first_existing_from(probes, exists, i + 1)
    }
}

/// The first probe that the existence answers report present: `exists[i]`
/// answers for `probes[i]`, and probes past the answers are not looked at.
pub fn first_existing(probes: &Vec<String>, exists: &Vec<bool>) -> (r: Option<String>)
    requires
        exists@.len() <= probes@.len(),
    ensures
        match first_existing_from(texts_of(probes@), exists@, 0) {
            Some(p) => r matches Some(x) && x@ == p,
            None => r is None,
        },
{
    let mut i: usize = 0;
    while i < exists.len()
        invariant
            i <= exists@.len() <= probes@.len(),
            first_existing_from(texts_of(probes@), exists@, 0) == first_existing_from(texts_of(probes@), exists@, i as int),
        decreases exists.len() - i,
    {
        if exists[i] {
            proof {
                assert(texts_of(probes@)[i as int] == probes@[i as int]@);
            }
            return Some(probes[i].clone());
        }
        i = i + 1;
    }
    None
}

/// A probe the rule picks is one of the probes.
proof fn lemma_first_existing_in(probes: Seq<Seq<char>>, exists: Seq<bool>, i: int)
    requires
        0 <= i,
        exists.len() <= probes.len(),
    ensures
        first_existing_from(probes, exists, i) matches Some(p) ==> probes.contains(p),
    decreases exists.len() - i,
{
    if i < exists.len() && !exists[i] {
        lemma_first_existing_in(probes, exists, i + 1);
    }
    if i < exists.len() && exists[i] {
        assert(probes[i] == probes[i]);
    }
}

proof fn lemma_rpath_stop(rps: Seq<Seq<char>>, rest: Seq<char>, exec: Option<Seq<char>>,
    loader: Option<Seq<char>>, n: nat, m: nat)
    requires
        n <= m,
        !rpath_candidates(rps, rest, exec, loader, n).1,
    ensures
        rpath_candidates(rps, rest, exec, loader, m) == rpath_candidates(rps, rest, exec, loader, n),
    decreases m - n,
{
    if n < m {
        lemma_rpath_stop(rps, rest, exec, loader, n, (m - 1) as nat);
    }
}

} // verus!
