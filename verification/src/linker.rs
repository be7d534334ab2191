//! Symbol resolution for imports: the shim registry, the libraries loaded
//! so far, and the order in which dependencies are loaded.

use vstd::prelude::*;
use crate::assoc::{assoc_lookup, assoc_index, assoc_set, lemma_assoc_set, lemma_assoc_index, lemma_assoc_first, lemma_assoc_absent};
use crate::macho::{MachOBinary, LoaderError, find_text_segment, first_text_index, text_vmaddr, text_segment_vmaddr,
    entry_fits, entry_overflow_text, check_entry};
use crate::resolver::DylibResolver;
use crate::link_tables::{exports_within_tables, exports_within_tables_check, exports_refused_text};
use crate::text::{owned, starts_with, ends_with, strip_prefix, rsplit_first, after_last};

verus! {

broadcast use vstd::string::group_string_axioms;

/// Errors of linking.
#[derive(Debug)]
pub enum LinkError {
    Parse(String),
    Unresolved { symbol: String, dylib: String },
    Loader(LoaderError),
    LibraryNotFound(String),
}

/// goblin's export list of an image: (name, offset) pairs, or the error of
/// parsing the image or reading its export trie.
pub uninterp spec fn goblin_export_list(data: Seq<u8>) -> Result<Seq<(Seq<char>, u64)>, Seq<char>>;

/// goblin's nlist symbols of an image: each (name, n_value), or None where
/// goblin could not read the entry; or the error of parsing the image.
pub uninterp spec fn goblin_symbol_list(data: Seq<u8>) -> Result<Seq<Option<(Seq<char>, u64)>>, Seq<char>>;

/// The export list the linker reads: goblin's, or the entry-overflow error
/// where `entry_fits` fails.
pub open spec fn export_list(data: Seq<u8>) -> Result<Seq<(Seq<char>, u64)>, Seq<char>> {
    if !entry_fits(data) {
        Err(entry_overflow_text())
    } else if !exports_within_tables(data) {
        Err(exports_refused_text())
    } else {
        goblin_export_list(data)
    }
}

/// The symbol list the linker reads: goblin's, or the entry-overflow error
/// where `entry_fits` fails.
pub open spec fn symbol_list(data: Seq<u8>) -> Result<Seq<Option<(Seq<char>, u64)>>, Seq<char>> {
    if entry_fits(data) { goblin_symbol_list(data) } else { Err(entry_overflow_text()) }
}

/// `MachO::parse(data, 0)` then `exports()`: each export's name and offset.
///
/// Its `requires` keeps out the images on which goblin's entry arithmetic
/// overflows (`entry_fits`) and the export tries on which goblin's trie walk
/// would index past its library list, add offsets past usize, or loop back
/// (`exports_within_tables`).
#[verifier::external_body]
fn goblin_exports(data: &[u8]) -> (r: Result<Vec<(String, u64)>, String>)
    requires
        entry_fits(data@),
        exports_within_tables(data@),
    ensures
        match goblin_export_list(data@) {
            Ok(v) => r matches Ok(x) && x@.len() == v.len()
                && forall|i: int| 0 <= i < v.len() ==> #[trigger] pair_is(x@[i], v[i]),
            Err(e) => r matches Err(m) && m@ == e,
        },
{
    let m = goblin::mach::MachO::parse(data, 0).map_err(|e| e.to_string())?;
    let ex = m.exports().map_err(|e| e.to_string())?;
    Ok(ex.into_iter().map(|e| (e.name, e.offset)).collect())
}

/// `MachO::parse(data, 0)` then `symbols()`: each symbol's name and n_value
/// (None for an entry goblin could not read).
/// Its `requires` keeps out the images on which goblin's entry arithmetic
/// would leave u64 (see `entry_fits`), where goblin panics.
#[verifier::external_body]
pub(crate) fn goblin_symbols(data: &[u8]) -> (r: Result<Vec<Option<(String, u64)>>, String>)
    requires
        entry_fits(data@),
    ensures
        match goblin_symbol_list(data@) {
            Ok(v) => r matches Ok(x) && x@.len() == v.len()
                && forall|i: int| 0 <= i < v.len() ==> #[trigger] opt_pair_is(x@[i], v[i]),
            Err(e) => r matches Err(m) && m@ == e,
        },
{
    let m = goblin::mach::MachO::parse(data, 0).map_err(|e| e.to_string())?;
    Ok(m.symbols().map(|s| s.ok().map(|(n, nl)| (n.to_string(), nl.n_value))).collect())
}

/// Whether an exec (name, value) pair carries the given one.
pub open spec fn pair_is(x: (String, u64), v: (Seq<char>, u64)) -> bool {
    x.0@ == v.0 && x.1 == v.1
}

/// Whether an exec (name, value) option carries the given one.
pub open spec fn opt_pair_is(x: Option<(String, u64)>, v: Option<(Seq<char>, u64)>) -> bool {
    match (x, v) {
        (Some(a), Some(b)) => a.0@ == b.0 && a.1 == b.1,
        (None, None) => true,
        _ => false,
    }
}

/// The first export named `symbol`.
pub open spec fn export_offset(ex: Seq<(Seq<char>, u64)>, symbol: Seq<char>) -> Option<u64> {
    assoc_lookup(ex, symbol)
}

/// Whether an nlist name matches `symbol`, with or without its leading underscore.
pub open spec fn nlist_name_matches(name: Seq<char>, symbol: Seq<char>) -> bool {
    name == symbol || (name.len() > 0 && name[0] == '_' && name.skip(1) == symbol)
}

/// The value of the first readable nlist symbol that matches and is not 0.
pub open spec fn nlist_value(syms: Seq<Option<(Seq<char>, u64)>>, symbol: Seq<char>) -> Option<u64>
    decreases syms.len(),
{
    if syms.len() == 0 {
        None
    } else {
        match syms[0] {
            Some((n, v)) => if nlist_name_matches(n, symbol) && v != 0 { Some(v) } else { nlist_value(syms.drop_first(), symbol) },
            None => nlist_value(syms.drop_first(), symbol),
        }
    }
}

/// Where `symbol` lies in a loaded image: the export trie first (an
/// export's offset is relative to __TEXT's vmaddr; a sum past u64 counts
/// as no match), then the nlist symbols; None when goblin cannot parse the
/// image or it has no __TEXT segment.
pub open spec fn symbol_in_binary(b: MachOBinary, symbol: Seq<char>) -> Option<u64> {
    match first_text_index(b.segments@) {
        None => None,
        Some(t) => {
            let base = b.segments@[t].vmaddr;
            let from_exports = match export_list(b.data@) {
                Ok(ex) => match export_offset(ex, symbol) {
                    Some(off) => if base + off <= u64::MAX { Some((base + off) as u64) } else { None },
                    None => None,
                },
                Err(_) => None,
            };
            match from_exports {
                Some(a) => Some(a),
                None => match symbol_list(b.data@) {
                    Ok(syms) => nlist_value(syms, symbol),
                    Err(_) => None,
                },
            }
        },
    }
}

/// The offset of the first export named `symbol`.
fn export_lookup(exports: &Vec<(String, u64)>, symbol: &String, Ghost(ex): Ghost<Seq<(Seq<char>, u64)>>) -> (r: Option<u64>)
    requires
        exports@.len() == ex.len(),
        forall|k: int| 0 <= k < ex.len() ==> #[trigger] pair_is(exports@[k], ex[k]),
    ensures
        r == export_offset(ex, symbol@),
{
    let mut i: usize = 0;
    while i < exports.len()
        invariant
            i <= exports@.len() == ex.len(),
            forall|k: int| 0 <= k < ex.len() ==> #[trigger] pair_is(exports@[k], ex[k]),
            forall|k: int| 0 <= k < i ==> #[trigger] ex[k].0 != symbol@,
        decreases exports.len() - i,
    {
        if exports[i].0 == *symbol {
            proof {
                assert(pair_is(exports@[i as int], ex[i as int]));
                lemma_assoc_first(ex, symbol@, i as int);
            }
            return Some(exports[i].1);
        }
        proof {
            assert(pair_is(exports@[i as int], ex[i as int]));
        }
        i = i + 1;
    }
    proof {
        lemma_assoc_absent(ex, symbol@);
    }
    None
}

/// The value of the first readable matching nlist symbol that is not 0.
fn nlist_lookup(syms: &Vec<Option<(String, u64)>>, symbol: &str, Ghost(sv): Ghost<Seq<Option<(Seq<char>, u64)>>>) -> (r: Option<u64>)
    requires
        syms@.len() == sv.len(),
        forall|k: int| 0 <= k < sv.len() ==> #[trigger] opt_pair_is(syms@[k], sv[k]),
    ensures
        r == nlist_value(sv, symbol@),
{
    let mut j: usize = 0;
    proof {
        assert(sv.skip(0) =~= sv);
    }
    while j < syms.len()
        invariant
            j <= syms@.len() == sv.len(),
            forall|k: int| 0 <= k < sv.len() ==> #[trigger] opt_pair_is(syms@[k], sv[k]),
            nlist_value(sv, symbol@) == nlist_value(sv.skip(j as int), symbol@),
        decreases syms.len() - j,
    {
        proof {
            assert(opt_pair_is(syms@[j as int], sv[j as int]));
            assert(sv.skip(j as int)[0] == sv[j as int]);
            assert(sv.skip(j as int).drop_first() =~= sv.skip(j + 1));
        }
        match &syms[j] {
            Some((name, value)) => {
                if *value != 0 && name_matches(name.as_str(), symbol) {
                    return Some(*value);
                }
            },
            None => {},
        }
        j = j + 1;
    }
    proof {
        assert(sv.skip(j as int).len() == 0);
    }
    None
}

/// Find `symbol` in a loaded image.
pub fn find_symbol_in_binary(binary: &MachOBinary, symbol: &str) -> (r: Option<u64>)
    ensures
        r == symbol_in_binary(*binary, symbol@),
{
    match check_entry(binary.data.as_slice()) {
        Err(m) => { return None; },
        Ok(_) => {},
    }
    let t = match find_text_segment(&binary.segments) {
        Some(t) => t,
        None => { return None; },
    };
    let base = binary.segments[t].vmaddr;
    let sym = owned(symbol);
    if exports_within_tables_check(binary.data.as_slice()) {
        if let Ok(exports) = goblin_exports(binary.data.as_slice()) {
            let ghost ex = export_list(binary.data@)->Ok_0;
            if let Some(off) = export_lookup(&exports, &sym, Ghost(ex)) {
                if base as u128 + off as u128 <= u64::MAX as u128 {
                    return Some(base + off);
                }
            }
        }
    }
    let syms = match goblin_symbols(binary.data.as_slice()) {
        Ok(v) => v,
        Err(_) => { return None; },
    };
    let ghost sv = symbol_list(binary.data@)->Ok_0;
    nlist_lookup(&syms, symbol, Ghost(sv))
}

/// Whether `name` is `symbol`, or `_` followed by `symbol`.
fn name_matches(name: &str, symbol: &str) -> (r: bool)
    ensures
        r == nlist_name_matches(name@, symbol@),
{
    if owned(name) == owned(symbol) {
        return true;
    }
    let u = "_";
    proof {
        reveal_strlit("_");
        assert(u@ =~= seq!['_']);
        if name@.len() > 0 {
            assert((name@.take(1) == u@) == (name@[0] == '_')) by {
                if name@[0] == '_' {
                    assert(name@.take(1) =~= u@);
                }
                if name@.take(1) == u@ {
                    assert(name@.take(1)[0] == name@[0]);
                }
            }
        }
    }
    match strip_prefix(name, u) {
        Some(rest) => rest == owned(symbol),
        None => false,
    }
}


/// The symbols of one registry entry, as text.
pub open spec fn symbols_view(v: Seq<(String, u64)>) -> Seq<(Seq<char>, u64)> {
    Seq::new(v.len(), |i: int| (v[i].0@, v[i].1))
}

/// Whether `s` ends with `suffix`.
pub open spec fn text_ends_with(s: Seq<char>, suffix: Seq<char>) -> bool {
    suffix.len() <= s.len() && s.skip(s.len() - suffix.len()) == suffix
}

/// The exact-path registry lookup.
pub open spec fn registry_exact(reg: Seq<(Seq<char>, Seq<(Seq<char>, u64)>)>, dylib: Seq<char>, symbol: Seq<char>) -> Option<u64> {
    match assoc_lookup(reg, dylib) {
        Some(syms) => assoc_lookup(syms, symbol),
        None => None,
    }
}

/// The first registry entry whose path ends with `short` and that holds `symbol`.
pub open spec fn registry_by_suffix(reg: Seq<(Seq<char>, Seq<(Seq<char>, u64)>)>, short: Seq<char>, symbol: Seq<char>) -> Option<u64>
    decreases reg.len(),
{
    if reg.len() == 0 {
        None
    } else if text_ends_with(reg[0].0, short) && assoc_lookup(reg[0].1, symbol) is Some {
        assoc_lookup(reg[0].1, symbol)
    } else {
        registry_by_suffix(reg.drop_first(), short, symbol)
    }
}

/// The symbol in the library loaded under `dylib`.
pub open spec fn loaded_exact(libs: Seq<(Seq<char>, MachOBinary)>, dylib: Seq<char>, symbol: Seq<char>) -> Option<u64> {
    match assoc_lookup(libs, dylib) {
        Some(b) => symbol_in_binary(b, symbol),
        None => None,
    }
}

/// The symbol in the first loaded library that has it.
pub open spec fn loaded_any(libs: Seq<(Seq<char>, MachOBinary)>, symbol: Seq<char>) -> Option<u64>
    decreases libs.len(),
{
    if libs.len() == 0 {
        None
    } else {
        match symbol_in_binary(libs[0].1, symbol) {
            Some(a) => Some(a),
            None => loaded_any(libs.drop_first(), symbol),
        }
    }
}

/// The first of a sequence of optional answers that is present.
pub open spec fn first_some(a: Option<u64>, b: Option<u64>) -> Option<u64> {
    match a { Some(x) => Some(x), None => b }
}

/// Where the linker finds `symbol` of `dylib` without outside help: the
/// registry under the exact path, then under any path ending with the
/// library's file name, then the library loaded under that path, then any
/// loaded library.
pub open spec fn static_lookup(reg: Seq<(Seq<char>, Seq<(Seq<char>, u64)>)>, libs: Seq<(Seq<char>, MachOBinary)>,
    dylib: Seq<char>, symbol: Seq<char>) -> Option<u64> {
    first_some(registry_exact(reg, dylib, symbol),
        first_some(registry_by_suffix(reg, after_last(dylib, '/'), symbol),
            first_some(loaded_exact(libs, dylib, symbol), loaded_any(libs, symbol))))
}

/// The registry after recording `symbol` of `dylib` at `addr`: the
/// symbol's entry of the dylib's table replaced, or appended.
pub open spec fn symbols_insert(syms: Seq<(Seq<char>, u64)>, symbol: Seq<char>, addr: u64) -> Seq<(Seq<char>, u64)> {
    match assoc_index(syms, symbol) {
        Some(j) => syms.update(j, (symbol, addr)),
        None => syms.push((symbol, addr)),
    }
}

pub open spec fn registry_insert(reg: Seq<(Seq<char>, Seq<(Seq<char>, u64)>)>, dylib: Seq<char>, symbol: Seq<char>,
    addr: u64) -> Seq<(Seq<char>, Seq<(Seq<char>, u64)>)> {
    match assoc_index(reg, dylib) {
        Some(i) => reg.update(i, (dylib, symbols_insert(reg[i].1, symbol, addr))),
        None => reg.push((dylib, seq![(symbol, addr)])),
    }
}

/// The address a symbol resolves to, given what the linker's own tables
/// hold (`lookup`) and what the fallback gave: the tables' answer, else a
/// non-zero fallback answer, else 0 for a weak import; None when it stays
/// unresolved.
pub open spec fn resolution(lookup: Option<u64>, fallback: Option<u64>, is_weak: bool) -> Option<u64> {
    match lookup {
        Some(a) => Some(a),
        None => match fallback {
            Some(a) if a != 0 => Some(a),
            _ => if is_weak { Some(0) } else { None },
        },
    }
}

/// A hit in the linker's own tables decides the resolution whatever the
/// fallback would have answered, so the fallback need not be consulted then.
pub proof fn law_fallback_unused_on_hit(lookup: Option<u64>, f1: Option<u64>, f2: Option<u64>, is_weak: bool)
    requires
        lookup is Some,
    ensures
        resolution(lookup, f1, is_weak) == resolution(lookup, f2, is_weak),
        resolution(lookup, f1, is_weak) == lookup,
{
}

/// What the linker tries when its own tables miss.
#[derive(Debug, PartialEq, Eq)]
pub enum Fallback {
    /// Create (or reuse) a stub Objective-C class of this name.
    ObjcClass(String),
    /// Look the name up among the symbols already loaded in the process.
    DynamicSymbol(String),
    /// Nothing more to try.
    Nothing,
}

/// The fallback a symbol calls for: an _OBJC_CLASS_$_ or _OBJC_METACLASS_$_
/// symbol names a class; a Swift symbol (_$s, $s, _swift_) is looked up by
/// its name without the leading underscore.
pub open spec fn spec_fallback(symbol: Seq<char>) -> Option<(bool, Seq<char>)> {
    let cls = seq!['_', 'O', 'B', 'J', 'C', '_', 'C', 'L', 'A', 'S', 'S', '_', '$', '_'];
    let meta = seq!['_', 'O', 'B', 'J', 'C', '_', 'M', 'E', 'T', 'A', 'C', 'L', 'A', 'S', 'S', '_', '$', '_'];
    if cls.len() <= symbol.len() && symbol.take(cls.len() as int) == cls {
        Some((true, symbol.skip(cls.len() as int)))
    } else if meta.len() <= symbol.len() && symbol.take(meta.len() as int) == meta {
        Some((true, symbol.skip(meta.len() as int)))
    } else if is_swift_symbol(symbol) {
        Some((false, if symbol.len() > 0 && symbol[0] == '_' { symbol.skip(1) } else { symbol }))
    } else {
        None
    }
}

/// Whether a symbol is a Swift one (_$s, $s or _swift_ prefix).
pub open spec fn is_swift_symbol(symbol: Seq<char>) -> bool {
    let a = seq!['_', '$', 's'];
    let b = seq!['$', 's'];
    let c = seq!['_', 's', 'w', 'i', 'f', 't', '_'];
    (a.len() <= symbol.len() && symbol.take(a.len() as int) == a)
        || (b.len() <= symbol.len() && symbol.take(b.len() as int) == b)
        || (c.len() <= symbol.len() && symbol.take(c.len() as int) == c)
}

impl Fallback {
    pub open spec fn view(&self) -> Option<(bool, Seq<char>)> {
        match self {
            Fallback::ObjcClass(n) => Some((true, n@)),
            Fallback::DynamicSymbol(n) => Some((false, n@)),
            Fallback::Nothing => None,
        }
    }
}

/// Whether `symbol` is a Swift symbol.
pub fn swift_symbol(symbol: &str) -> (r: bool)
    ensures
        r == is_swift_symbol(symbol@),
{
    let a = "_$s";
    let b = "$s";
    let c = "_swift_";
    proof {
        reveal_strlit("_$s");
        reveal_strlit("$s");
        reveal_strlit("_swift_");
        assert(a@ =~= seq!['_', '$', 's']);
        assert(b@ =~= seq!['$', 's']);
        assert(c@ =~= seq!['_', 's', 'w', 'i', 'f', 't', '_']);
    }
    starts_with(symbol, a) || starts_with(symbol, b) || starts_with(symbol, c)
}

/// The fallback `symbol` calls for when the linker's tables miss it.
pub fn fallback_request(symbol: &str) -> (r: Fallback)
    ensures
        r.view() == spec_fallback(symbol@),
{
    let cls = "_OBJC_CLASS_$_";
    let meta = "_OBJC_METACLASS_$_";
    let u = "_";
    proof {
        reveal_strlit("_OBJC_CLASS_$_");
        reveal_strlit("_OBJC_METACLASS_$_");
        reveal_strlit("_");
        assert(cls@ =~= seq!['_', 'O', 'B', 'J', 'C', '_', 'C', 'L', 'A', 'S', 'S', '_', '$', '_']);
        assert(meta@ =~= seq!['_', 'O', 'B', 'J', 'C', '_', 'M', 'E', 'T', 'A', 'C', 'L', 'A', 'S', 'S', '_', '$', '_']);
        assert(u@ =~= seq!['_']);
        if symbol@.len() > 0 {
            assert((symbol@.take(1) == u@) == (symbol@[0] == '_')) by {
                if symbol@[0] == '_' {
                    assert(symbol@.take(1) =~= u@);
                }
                if symbol@.take(1) == u@ {
                    assert(symbol@.take(1)[0] == symbol@[0]);
                }
            }
        }
    }
    if let Some(name) = strip_prefix(symbol, cls) {
        return Fallback::ObjcClass(name);
    }
    if let Some(name) = strip_prefix(symbol, meta) {
        return Fallback::ObjcClass(name);
    }
    if swift_symbol(symbol) {
        let clean = match strip_prefix(symbol, u) {
            Some(rest) => rest,
            None => owned(symbol),
        };
        return Fallback::DynamicSymbol(clean);
    }
    Fallback::Nothing
}

/// The dynamic linker's state: the shim registry (library path -> symbol
/// -> address), the library resolver, and the libraries loaded so far.
pub struct Linker {
    registry: Vec<(String, Vec<(String, u64)>)>,
    resolver: DylibResolver,
    loaded_libraries: Vec<(String, MachOBinary)>,
}

impl Linker {
    /// The registry, as text.
    pub closed spec fn registry(&self) -> Seq<(Seq<char>, Seq<(Seq<char>, u64)>)> {
        Seq::new(self.registry@.len(), |i: int| (self.registry@[i].0@, symbols_view(self.registry@[i].1@)))
    }

    /// The loaded libraries by the install name they were loaded for.
    pub closed spec fn loaded(&self) -> Seq<(Seq<char>, MachOBinary)> {
        Seq::new(self.loaded_libraries@.len(), |i: int| (self.loaded_libraries@[i].0@, self.loaded_libraries@[i].1))
    }

    /// The library resolver.
    pub closed spec fn resolver(&self) -> DylibResolver {
        self.resolver
    }

    /// A linker with an empty registry, a fresh resolver and nothing loaded.
    /// The shim and framework tables hold addresses of the running process,
    /// so the program registers them (`register_symbol`) after creating it.
    pub fn new() -> (r: Linker)
        ensures
            r.registry().len() == 0,
            r.loaded().len() == 0,
            r.resolver().overrides().len() == 0,
            r.resolver().shim_dirs().len() == 0,
    {
        let l = Linker { registry: Vec::new(), resolver: DylibResolver::new(), loaded_libraries: Vec::new() };
        proof {
            assert(l.registry() =~= Seq::<(Seq<char>, Seq<(Seq<char>, u64)>)>::empty());
            assert(l.loaded() =~= Seq::<(Seq<char>, MachOBinary)>::empty());
        }
        l
    }

    /// Add a directory searched for libraries.
    pub fn add_shim_dir(&mut self, dir: String)
        ensures
            final(self).resolver().shim_dirs() == old(self).resolver().shim_dirs().push(dir@),
            final(self).resolver().overrides() == old(self).resolver().overrides(),
            final(self).registry() == old(self).registry(),
            final(self).loaded() == old(self).loaded(),
    {
        self.resolver.add_shim_dir(dir);
        proof {
            assert(self.registry() =~= old(self).registry());
            assert(self.loaded() =~= old(self).loaded());
        }
    }

    /// Map a Darwin library path to a file.
    pub fn add_override(&mut self, darwin_path: String, linux_path: String)
        ensures
            final(self).resolver().shim_dirs() == old(self).resolver().shim_dirs(),
            final(self).resolver().override_of(darwin_path@) == Some(linux_path@),
            forall|p: Seq<char>| p != darwin_path@ ==> #[trigger] final(self).resolver().override_of(p)
                == old(self).resolver().override_of(p),
            final(self).registry() == old(self).registry(),
            final(self).loaded() == old(self).loaded(),
    {
        self.resolver.add_override(darwin_path, linux_path);
        proof {
            assert(self.registry() =~= old(self).registry());
            assert(self.loaded() =~= old(self).loaded());
        }
    }
}


/// The first index of `key` in an association list of strings.
fn key_index<T, U>(v: &Vec<(String, T)>, key: &String, Ghost(view): Ghost<Seq<(Seq<char>, U)>>) -> (r: Option<usize>)
    requires
        v@.len() == view.len(),
        forall|k: int| 0 <= k < view.len() ==> #[trigger] view[k].0 == v@[k].0@,
    ensures
        r matches Some(i) ==> i < v@.len() && assoc_index(view, key@) == Some(i as int),
        r is None ==> assoc_index(view, key@) is None,
{
    let mut i: usize = 0;
    while i < v.len()
        invariant
            i <= v@.len() == view.len(),
            forall|k: int| 0 <= k < view.len() ==> #[trigger] view[k].0 == v@[k].0@,
            forall|k: int| 0 <= k < i ==> #[trigger] view[k].0 != key@,
        decreases v.len() - i,
    {
        if v[i].0 == *key {
            proof {
                lemma_assoc_first(view, key@, i as int);
            }
            return Some(i);
        }
        i = i + 1;
    }
    proof {
        lemma_assoc_absent(view, key@);
    }
    None
}

/// The address of `symbol` in one registry entry's table.
fn symbols_get(syms: &Vec<(String, u64)>, symbol: &String) -> (r: Option<u64>)
    ensures
        r == assoc_lookup(symbols_view(syms@), symbol@),
{
    let ghost view = symbols_view(syms@);
    match key_index::<u64, u64>(syms, symbol, Ghost(view)) {
        Some(j) => {
            proof { lemma_assoc_index(view, symbol@); }
            Some(syms[j].1)
        },
        None => {
            proof { lemma_assoc_index(view, symbol@); }
            None
        },
    }
}

impl Linker {
    /// Record `symbol` of `dylib` at `addr`, replacing an earlier address of it.
    pub fn register_symbol(&mut self, dylib: String, symbol: String, addr: u64)
        ensures
            final(self).registry() == registry_insert(old(self).registry(), dylib@, symbol@, addr),
            final(self).loaded() == old(self).loaded(),
            final(self).resolver() == old(self).resolver(),
    {
        let ghost reg = self.registry();
        let ghost dv = dylib@;
        let ghost sv = symbol@;
        match key_index::<Vec<(String, u64)>, Seq<(Seq<char>, u64)>>(&self.registry, &dylib, Ghost(reg)) {
            Some(i) => {
                let (name, mut syms) = self.registry.remove(i);
                let ghost sview = symbols_view(syms@);
                proof {
                    assert(sview == reg[i as int].1);
                    lemma_assoc_index(reg, dv);
                }
                match key_index::<u64, u64>(&syms, &symbol, Ghost(sview)) {
                    Some(j) => {
                        syms.set(j, (symbol, addr));
                        proof {
                            assert(symbols_view(syms@) =~= sview.update(j as int, (sv, addr)));
                        }
                    },
                    None => {
                        syms.push((symbol, addr));
                        proof {
                            assert(symbols_view(syms@) =~= sview.push((sv, addr)));
                        }
                    },
                }
                self.registry.insert(i, (name, syms));
                proof {
                    assert(self.registry() =~= registry_insert(reg, dv, sv, addr));
                }
            },
            None => {
                let mut syms: Vec<(String, u64)> = Vec::new();
                syms.push((symbol, addr));
                self.registry.push((dylib, syms));
                proof {
                    assert(symbols_view(syms@) =~= seq![(sv, addr)]);
                    assert(self.registry() =~= registry_insert(reg, dv, sv, addr));
                }
            },
        }
        proof {
            assert(self.loaded() =~= old(self).loaded());
        }
    }

    /// The registry's answer for the exact library path.
    fn registry_exact_get(&self, dylib: &String, symbol: &String) -> (r: Option<u64>)
        ensures
            r == registry_exact(self.registry(), dylib@, symbol@),
    {
        let ghost reg = self.registry();
        match key_index::<Vec<(String, u64)>, Seq<(Seq<char>, u64)>>(&self.registry, dylib, Ghost(reg)) {
            Some(i) => {
                proof { lemma_assoc_index(reg, dylib@); }
                symbols_get(&self.registry[i].1, symbol)
            },
            None => {
                proof { lemma_assoc_index(reg, dylib@); }
                None
            },
        }
    }

    /// The first registry entry whose path ends with `short` and holds `symbol`.
    fn registry_suffix_get(&self, short: &str, symbol: &String) -> (r: Option<u64>)
        ensures
            r == registry_by_suffix(self.registry(), short@, symbol@),
    {
        let ghost reg = self.registry();
        let mut i: usize = 0;
        proof { assert(reg.skip(0) =~= reg); }
        while i < self.registry.len()
            invariant
                i <= self.registry@.len() == reg.len(),
                reg == self.registry(),
                registry_by_suffix(reg, short@, symbol@) == registry_by_suffix(reg.skip(i as int), short@, symbol@),
            decreases self.registry.len() - i,
        {
            proof {
                assert(reg.skip(i as int)[0] == reg[i as int]);
                assert(reg.skip(i as int).drop_first() =~= reg.skip(i + 1));
            }
            if ends_with(self.registry[i].0.as_str(), short) {
                let found = symbols_get(&self.registry[i].1, symbol);
                if found.is_some() {
                    return found;
                }
            }
            i = i + 1;
        }
        proof { assert(reg.skip(i as int).len() == 0); }
        None
    }

    /// The symbol in the library loaded under `dylib`.
    fn loaded_exact_get(&self, dylib: &String, symbol: &str) -> (r: Option<u64>)
        ensures
            r == loaded_exact(self.loaded(), dylib@, symbol@),
    {
        let ghost libs = self.loaded();
        match key_index::<MachOBinary, MachOBinary>(&self.loaded_libraries, dylib, Ghost(libs)) {
            Some(i) => {
                proof { lemma_assoc_index(libs, dylib@); }
                find_symbol_in_binary(&self.loaded_libraries[i].1, symbol)
            },
            None => {
                proof { lemma_assoc_index(libs, dylib@); }
                None
            },
        }
    }

    /// The symbol in the first loaded library that has it.
    fn loaded_any_get(&self, symbol: &str) -> (r: Option<u64>)
        ensures
            r == loaded_any(self.loaded(), symbol@),
    {
        let ghost libs = self.loaded();
        let mut i: usize = 0;
        proof { assert(libs.skip(0) =~= libs); }
        while i < self.loaded_libraries.len()
            invariant
                i <= self.loaded_libraries@.len() == libs.len(),
                libs == self.loaded(),
                loaded_any(libs, symbol@) == loaded_any(libs.skip(i as int), symbol@),
            decreases self.loaded_libraries.len() - i,
        {
            proof {
                assert(libs.skip(i as int)[0] == libs[i as int]);
                assert(libs.skip(i as int).drop_first() =~= libs.skip(i + 1));
            }
            let found = find_symbol_in_binary(&self.loaded_libraries[i].1, symbol);
            if found.is_some() {
                return found;
            }
            i = i + 1;
        }
        proof { assert(libs.skip(i as int).len() == 0); }
        None
    }

    /// Where the linker finds `symbol` of `dylib` in its own tables.
    pub fn lookup(&self, dylib: &str, symbol: &str) -> (r: Option<u64>)
        ensures
            r == static_lookup(self.registry(), self.loaded(), dylib@, symbol@),
    {
        let d = owned(dylib);
        let s = owned(symbol);
        if let Some(a) = self.registry_exact_get(&d, &s) {
            return Some(a);
        }
        let short = rsplit_first(dylib, '/');
        if let Some(a) = self.registry_suffix_get(short.as_str(), &s) {
            return Some(a);
        }
        if let Some(a) = self.loaded_exact_get(&d, symbol) {
            return Some(a);
        }
        self.loaded_any_get(symbol)
    }

    /// Whether the linker's own tables miss `symbol` of `dylib`, so that the
    /// fallback has to be consulted.
    pub fn needs_fallback(&self, dylib: &str, symbol: &str) -> (r: bool)
        ensures
            r == (static_lookup(self.registry(), self.loaded(), dylib@, symbol@) is None),
    {
        self.lookup(dylib, symbol).is_none()
    }

    /// Resolve `symbol` of `dylib`: the linker's own tables first; then the
    /// answer of the fallback (`fallback_request`), when one was consulted and
    /// gave a non-zero address; then 0 for a weak import; else an error.
    pub fn resolve(&self, dylib: &str, symbol: &str, is_weak: bool, fallback: Option<u64>) -> (r: Result<u64, LinkError>)
        ensures
            match resolution(static_lookup(self.registry(), self.loaded(), dylib@, symbol@), fallback, is_weak) {
                Some(a) => r matches Ok(x) && x == a,
                None => r matches Err(LinkError::Unresolved { symbol: s, dylib: d }) && s@ == symbol@ && d@ == dylib@,
            },
    {
        if let Some(a) = self.lookup(dylib, symbol) {
            return Ok(a);
        }
        if let Some(a) = fallback {
            if a != 0 {
                return Ok(a);
            }
        }
        if is_weak {
            return Ok(0);
        }
        Err(LinkError::Unresolved { symbol: owned(symbol), dylib: owned(dylib) })
    }

    /// Resolve a symbol for chained fixups: as `resolve` for a strong import,
    /// with `soft_stub` standing in for any symbol that stays unresolved.
    pub fn resolve_external(&self, dylib: &str, symbol: &str, fallback: Option<u64>, soft_stub: u64) -> (r: u64)
        ensures
            r == (match resolution(static_lookup(self.registry(), self.loaded(), dylib@, symbol@), fallback, false) {
                Some(a) => a,
                None => soft_stub,
            }),
    {
        match self.resolve(dylib, symbol, false, fallback) {
            Ok(a) => a,
            Err(_) => soft_stub,
        }
    }

    /// The library resolver.
    pub fn resolver_ref(&self) -> (r: &DylibResolver)
        ensures
            *r == self.resolver(),
    {
        &self.resolver
    }

    /// Whether a library of this install name is in the registry.
    pub fn has_registry_entry(&self, dylib: &String) -> (r: bool)
        ensures
            r == (assoc_lookup(self.registry(), dylib@) is Some),
    {
        let ghost reg = self.registry();
        let found = key_index::<Vec<(String, u64)>, Seq<(Seq<char>, u64)>>(&self.registry, dylib, Ghost(reg));
        proof { lemma_assoc_index(reg, dylib@); }
        found.is_some()
    }

    /// Record a loaded library under the install name it was loaded for,
    /// replacing an earlier one of that name.
    pub fn add_loaded_library(&mut self, name: String, binary: MachOBinary)
        ensures
            final(self).registry() == old(self).registry(),
            final(self).resolver() == old(self).resolver(),
            ({
                let libs = old(self).loaded();
                final(self).loaded() == match assoc_index(libs, name@) {
                    Some(i) => libs.update(i, (name@, binary)),
                    None => libs.push((name@, binary)),
                }
            }),
    {
        let ghost libs = self.loaded();
        let ghost nv = name@;
        let ghost b = binary;
        match key_index::<MachOBinary, MachOBinary>(&self.loaded_libraries, &name, Ghost(libs)) {
            Some(i) => {
                self.loaded_libraries.set(i, (name, binary));
                proof {
                    lemma_assoc_index(libs, nv);
                    assert(self.loaded() =~= libs.update(i as int, (nv, b)));
                }
            },
            None => {
                self.loaded_libraries.push((name, binary));
                proof {
                    assert(self.loaded() =~= libs.push((nv, b)));
                }
            },
        }
        proof {
            assert(self.registry() =~= old(self).registry());
        }
    }
}

/// The install names of the loaded libraries whose __TEXT segment lies at a
/// non-zero address, in load order: those whose initializers and
/// Objective-C metadata are processed (a slid library's pointers still
/// hold pre-slide addresses).
pub open spec fn initialized_names(libs: Seq<(Seq<char>, MachOBinary)>) -> Seq<Seq<char>>
    decreases libs.len(),
{
    if libs.len() == 0 {
        Seq::empty()
    } else {
        let prev = initialized_names(libs.drop_last());
        if text_vmaddr(libs.last().1.segments@) > 0 { prev.push(libs.last().0) } else { prev }
    }
}

impl Linker {
    /// The address bound to an import: what `resolve` gives, or `trap` when
    /// the symbol stays unresolved.
    pub fn bind_value(&self, dylib: &str, symbol: &str, is_weak: bool, fallback: Option<u64>, trap: u64) -> (r: u64)
        ensures
            r == match resolution(static_lookup(self.registry(), self.loaded(), dylib@, symbol@), fallback, is_weak) {
                Some(a) => a,
                None => trap,
            },
    {
        match self.resolve(dylib, symbol, is_weak, fallback) {
            Ok(a) => a,
            Err(_) => trap,
        }
    }

    /// The loaded library of an install name.
    pub fn loaded_binary(&self, name: &String) -> (r: Option<&MachOBinary>)
        ensures
            match assoc_lookup(self.loaded(), name@) {
                Some(b) => r matches Some(x) && *x == b,
                None => r is None,
            },
    {
        let ghost libs = self.loaded();
        match key_index::<MachOBinary, MachOBinary>(&self.loaded_libraries, name, Ghost(libs)) {
            Some(i) => {
                proof { lemma_assoc_index(libs, name@); }
                Some(&self.loaded_libraries[i].1)
            },
            None => {
                proof { lemma_assoc_index(libs, name@); }
                None
            },
        }
    }

    /// The loaded libraries to initialize (see `initialized_names`).
    pub fn libraries_to_initialize(&self) -> (r: Vec<String>)
        ensures
            crate::resolver::texts_of(r@) == initialized_names(self.loaded()),
    {
        let ghost libs = self.loaded();
        let mut out: Vec<String> = Vec::new();
        let mut i: usize = 0;
        while i < self.loaded_libraries.len()
            invariant
                i <= self.loaded_libraries@.len(),
                libs == self.loaded(),
                crate::resolver::texts_of(out@) == initialized_names(libs.take(i as int)),
            decreases self.loaded_libraries.len() - i,
        {
            let ghost o = out@;
            proof {
                assert(libs.take(i + 1).drop_last() =~= libs.take(i as int));
                assert(libs.take(i + 1).last() == libs[i as int]);
            }
            if text_segment_vmaddr(&self.loaded_libraries[i].1.segments) > 0 {
                out.push(self.loaded_libraries[i].0.clone());
                proof {
                    assert(crate::resolver::texts_of(out@) =~= crate::resolver::texts_of(o).push(libs[i as int].0));
                }
            }
            i = i + 1;
        }
        proof {
            assert(libs.take(i as int) =~= libs);
        }
        out
    }
}

/// A symbol registered for a library is what the linker then finds for
/// that library and symbol, whatever else it holds.
pub proof fn lemma_register_then_lookup(reg: Seq<(Seq<char>, Seq<(Seq<char>, u64)>)>, libs: Seq<(Seq<char>, MachOBinary)>,
    dylib: Seq<char>, symbol: Seq<char>, addr: u64)
    ensures
        static_lookup(registry_insert(reg, dylib, symbol, addr), libs, dylib, symbol) == Some(addr),
{
    let old_syms = match assoc_lookup(reg, dylib) { Some(x) => x, None => Seq::empty() };
    lemma_assoc_index(reg, dylib);
    let new_syms = match assoc_index(reg, dylib) {
        Some(i) => symbols_insert(reg[i].1, symbol, addr),
        None => seq![(symbol, addr)],
    };
    assert(registry_insert(reg, dylib, symbol, addr) == assoc_set(reg, dylib, new_syms));
    lemma_assoc_set(reg, dylib, new_syms, dylib);
    match assoc_index(reg, dylib) {
        Some(i) => {
            assert(symbols_insert(reg[i].1, symbol, addr) == assoc_set(reg[i].1, symbol, addr));
            lemma_assoc_set(reg[i].1, symbol, addr, symbol);
        },
        None => {
            lemma_assoc_set(Seq::<(Seq<char>, u64)>::empty(), symbol, addr, symbol);
            assert(assoc_set(Seq::<(Seq<char>, u64)>::empty(), symbol, addr) =~= seq![(symbol, addr)]);
        },
    }
}

/// Registering a symbol changes no exact-path answer for another library
/// or another symbol.
pub proof fn lemma_register_keeps_others(reg: Seq<(Seq<char>, Seq<(Seq<char>, u64)>)>, dylib: Seq<char>,
    symbol: Seq<char>, addr: u64, d: Seq<char>, s: Seq<char>)
    requires
        d != dylib || s != symbol,
    ensures
        registry_exact(registry_insert(reg, dylib, symbol, addr), d, s) == registry_exact(reg, d, s),
{
    lemma_assoc_index(reg, dylib);
    let new_syms = match assoc_index(reg, dylib) {
        Some(i) => symbols_insert(reg[i].1, symbol, addr),
        None => seq![(symbol, addr)],
    };
    assert(registry_insert(reg, dylib, symbol, addr) == assoc_set(reg, dylib, new_syms));
    lemma_assoc_set(reg, dylib, new_syms, d);
    if d == dylib {
        match assoc_index(reg, dylib) {
            Some(i) => {
                assert(symbols_insert(reg[i].1, symbol, addr) == assoc_set(reg[i].1, symbol, addr));
                lemma_assoc_set(reg[i].1, symbol, addr, s);
            },
            None => {
                lemma_assoc_set(Seq::<(Seq<char>, u64)>::empty(), symbol, addr, s);
                assert(assoc_set(Seq::<(Seq<char>, u64)>::empty(), symbol, addr) =~= seq![(symbol, addr)]);
            },
        }
    }
}

} // verus!
