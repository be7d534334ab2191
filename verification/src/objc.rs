//! The Objective-C runtime's tables: methods added per (class, selector),
//! classes by name, selectors by name, and how a message send picks the
//! implementation to jump to.

use vstd::prelude::*;
use vstd::utf8::*;

use crate::assoc::{assoc_index, assoc_lookup, assoc_set, lemma_assoc_index, lemma_assoc_first, lemma_assoc_absent, lemma_assoc_set};
use crate::text::{owned, utf8_text};

verus! {

broadcast use vstd::string::group_string_axioms;

/// What a message send jumps to.
#[derive(Clone, Copy, Debug, PartialEq, Eq, Structural)]
pub enum MethodImp {
    /// An implementation added with `class_addMethod`, by address.
    Registered(u64),
    /// The runtime's `alloc`: a zeroed instance of the receiver class.
    Alloc,
    /// Returns the receiver.
    ReturnSelf,
    /// Does nothing.
    Noop,
    /// Returns false.
    ReturnFalse,
    /// Returns nil; also the stub for selectors nothing answers.
    ReturnNull,
    /// Returns 0.
    ReturnZero,
}

/// The implementation added for `sel` on `cls`: the first such entry.
pub open spec fn method_of(methods: Seq<(u64, u64, u64)>, cls: u64, sel: u64) -> Option<u64>
    decreases methods.len(),
{
    if methods.len() == 0 {
        None
    } else if methods[0].0 == cls && methods[0].1 == sel {
        Some(methods[0].2)
    } else {
        method_of(methods.drop_first(), cls, sel)
    }
}

/// Whether an isa pointer looks like one (inside the user address range).
pub open spec fn sane_isa(isa: u64) -> bool {
    0x1000 < isa < 0x8000_0000_0000
}

/// The implementation for `sel` found on the receiver itself, else on its
/// class when the class pointer looks sane.
pub open spec fn direct_method(methods: Seq<(u64, u64, u64)>, receiver: u64, isa: u64, sel: u64) -> Option<u64> {
    match method_of(methods, receiver, sel) {
        Some(imp) => Some(imp),
        None => if isa != 0 && sane_isa(isa) { method_of(methods, isa, sel) } else { None },
    }
}

/// What the runtime answers by itself for a selector name, if anything.
pub open spec fn builtin_for(name: Seq<char>) -> Option<MethodImp> {
    if name == "alloc"@ || name == "allocWithZone:"@ {
        Some(MethodImp::Alloc)
    } else if name == "init"@ || name == "new"@ || name == "retain"@ || name == "autorelease"@ || name == "self"@ {
        Some(MethodImp::ReturnSelf)
    } else if name == "release"@ || name == "dealloc"@ {
        Some(MethodImp::Noop)
    } else if name == "respondsToSelector:"@ || name == "conformsToProtocol:"@ || name == "isKindOfClass:"@
        || name == "isMemberOfClass:"@ {
        Some(MethodImp::ReturnFalse)
    } else if name == "class"@ || name == "superclass"@ || name == "description"@ || name == "debugDescription"@ {
        Some(MethodImp::ReturnNull)
    } else if name == "hash"@ || name == "count"@ || name == "length"@ {
        Some(MethodImp::ReturnZero)
    } else {
        None
    }
}

/// The selector's name, when its bytes are UTF-8.
pub open spec fn selector_text(bytes: Seq<u8>) -> Option<Seq<char>> {
    if valid_utf8(bytes) { Some(decode_utf8(bytes)) } else { None }
}

/// The implementation found through the registered selector of the same
/// name, when the send used another pointer for it.
pub open spec fn canonical_method(
    methods: Seq<(u64, u64, u64)>,
    selectors: Seq<(Seq<char>, u64)>,
    receiver: u64,
    isa: u64,
    selector: u64,
    bytes: Seq<u8>,
) -> Option<u64> {
    if selector > 0x1000 && bytes.len() < 256 {
        match selector_text(bytes) {
            Some(name) => match assoc_lookup(selectors, name) {
                Some(c) => if c != selector { direct_method(methods, receiver, isa, c) } else { None },
                None => None,
            },
            None => None,
        }
    } else {
        None
    }
}

/// What a send of `selector` (whose name is `bytes`) to `receiver` (whose
/// class pointer is `isa`) jumps to: nothing for a nil receiver; an added
/// method, by the selector pointer and then by its name; a built-in answer;
/// else the stub that returns nil.
pub open spec fn spec_lookup(
    methods: Seq<(u64, u64, u64)>,
    selectors: Seq<(Seq<char>, u64)>,
    receiver: u64,
    isa: u64,
    selector: u64,
    bytes: Seq<u8>,
) -> Option<MethodImp> {
    if receiver == 0 {
        None
    } else {
        match direct_method(methods, receiver, isa, selector) {
            Some(imp) => Some(MethodImp::Registered(imp)),
            None => match canonical_method(methods, selectors, receiver, isa, selector, bytes) {
                Some(imp) => Some(MethodImp::Registered(imp)),
                None => match selector_text(bytes) {
                    Some(name) => match builtin_for(name) {
                        Some(b) => Some(b),
                        None => Some(MethodImp::ReturnNull),
                    },
                    None => Some(MethodImp::ReturnNull),
                },
            },
        }
    }
}

/// The runtime's tables.
pub struct ObjcRuntime {
    methods: Vec<(u64, u64, u64)>,
    classes: Vec<(String, u64)>,
    selectors: Vec<(String, u64)>,
}

pub open spec fn names_view(v: Seq<(String, u64)>) -> Seq<(Seq<char>, u64)> {
    Seq::new(v.len(), |i: int| (v[i].0@, v[i].1))
}

/// The index of the first entry named `key`.
fn name_index(v: &Vec<(String, u64)>, key: &String) -> (r: Option<usize>)
    ensures
        r matches Some(i) ==> i < v@.len() && assoc_index(names_view(v@), key@) == Some(i as int),
        r is None ==> assoc_index(names_view(v@), key@) is None,
{
    let ghost view = names_view(v@);
    let mut i: usize = 0;
    while i < v.len()
        invariant
            i <= v@.len(),
            view == names_view(v@),
            forall|k: int| 0 <= k < i ==> #[trigger] view[k].0 != key@,
        decreases v.len() - i,
    {
        if v[i].0 == *key {
            proof {
                lemma_assoc_first(view, key@, i as int);
            }
            return Some(i);
        }
        i = i + 1;
    }
    proof {
        lemma_assoc_absent(view, key@);
    }
    None
}

/// The implementation added for `sel` on `cls`, found by a scan.
fn find_method(methods: &Vec<(u64, u64, u64)>, cls: u64, sel: u64) -> (r: Option<u64>)
    ensures
        r == method_of(methods@, cls, sel),
{
    let mut i: usize = 0;
    proof {
        assert(methods@.skip(0) =~= methods@);
    }
    while i < methods.len()
        invariant
            i <= methods@.len(),
            method_of(methods@, cls, sel) == method_of(methods@.skip(i as int), cls, sel),
        decreases methods.len() - i,
    {
        proof {
            assert(methods@.skip(i as int).drop_first() =~= methods@.skip(i as int + 1));
            assert(methods@.skip(i as int)[0] == methods@[i as int]);
        }
        let (c, s, imp) = methods[i];
        if c == cls && s == sel {
            return Some(imp);
        }
        i = i + 1;
    }
    proof {
        assert(methods@.skip(i as int) =~= Seq::<(u64, u64, u64)>::empty());
    }
    None
}

/// The runtime's answer for a selector name.
fn builtin(name: &String) -> (r: Option<MethodImp>)
    ensures
        r == builtin_for(name@),
{
    if *name == owned("alloc") || *name == owned("allocWithZone:") {
        Some(MethodImp::Alloc)
    } else if *name == owned("init") || *name == owned("new") || *name == owned("retain") || *name == owned("autorelease")
        || *name == owned("self") {
        Some(MethodImp::ReturnSelf)
    } else if *name == owned("release") || *name == owned("dealloc") {
        Some(MethodImp::Noop)
    } else if *name == owned("respondsToSelector:") || *name == owned("conformsToProtocol:") || *name == owned("isKindOfClass:")
        || *name == owned("isMemberOfClass:") {
        Some(MethodImp::ReturnFalse)
    } else if *name == owned("class") || *name == owned("superclass") || *name == owned("description")
        || *name == owned("debugDescription") {
        Some(MethodImp::ReturnNull)
    } else if *name == owned("hash") || *name == owned("count") || *name == owned("length") {
        Some(MethodImp::ReturnZero)
    } else {
        None
    }
}

impl ObjcRuntime {
    /// The added methods as (class, selector, implementation), oldest first.
    pub closed spec fn method_table(&self) -> Seq<(u64, u64, u64)> {
        self.methods@
    }

    /// Classes by name; a later registration of a name replaces the class.
    pub closed spec fn class_table(&self) -> Seq<(Seq<char>, u64)> {
        names_view(self.classes@)
    }

    /// Registered selectors by name, oldest first.
    pub closed spec fn selector_table(&self) -> Seq<(Seq<char>, u64)> {
        names_view(self.selectors@)
    }

    /// A runtime with no methods, classes or selectors.
    pub fn new() -> (r: ObjcRuntime)
        ensures
            r.method_table() == Seq::<(u64, u64, u64)>::empty(),
            r.class_table() == Seq::<(Seq<char>, u64)>::empty(),
            r.selector_table() == Seq::<(Seq<char>, u64)>::empty(),
    {
        let r = ObjcRuntime { methods: Vec::new(), classes: Vec::new(), selectors: Vec::new() };
        proof {
            assert(r.class_table() =~= Seq::<(Seq<char>, u64)>::empty());
            assert(r.selector_table() =~= Seq::<(Seq<char>, u64)>::empty());
        }
        r
    }

    /// `class_addMethod`: adds `imp` for `sel` on `cls` unless one is there
    /// already; says whether it added it.
    pub fn add_method(&mut self, cls: u64, sel: u64, imp: u64) -> (added: bool)
        ensures
            added == (method_of(old(self).method_table(), cls, sel) is None),
            final(self).method_table() == if added {
                old(self).method_table().push((cls, sel, imp))
            } else {
                old(self).method_table()
            },
            final(self).class_table() == old(self).class_table(),
            final(self).selector_table() == old(self).selector_table(),
    {
        if find_method(&self.methods, cls, sel).is_some() {
            return false;
        }
        self.methods.push((cls, sel, imp));
        true
    }

    /// `objc_registerClassPair`, once the class's name was read: `name`
    /// now names `cls`.
    pub fn register_class(&mut self, name: String, cls: u64)
        ensures
            final(self).class_table() == assoc_set(old(self).class_table(), name@, cls),
            final(self).method_table() == old(self).method_table(),
            final(self).selector_table() == old(self).selector_table(),
    {
        let ghost before = self.class_table();
        let ghost key = name@;
        match name_index(&self.classes, &name) {
            Some(i) => {
                self.classes.set(i, (name, cls));
                proof {
                    assert(self.class_table() =~= before.update(i as int, (key, cls)));
                }
            },
            None => {
                self.classes.push((name, cls));
                proof {
                    assert(self.class_table() =~= before.push((key, cls)));
                }
            },
        }
    }

    /// `objc_getClass`: the class registered under `name`, or 0.
    pub fn get_class(&self, name: &String) -> (r: u64)
        ensures
            r == match assoc_lookup(self.class_table(), name@) {
                Some(c) => c,
                None => 0,
            },
    {
        match name_index(&self.classes, name) {
            Some(i) => {
                proof {
                    lemma_assoc_index(self.class_table(), name@);
                }
                self.classes[i].1
            },
            None => {
                proof {
                    lemma_assoc_index(self.class_table(), name@);
                }
                0
            },
        }
    }

    /// `sel_registerName`: the selector already registered for `name`, or
    /// `fresh` (a new copy of the name the caller made), now registered.
    pub fn register_selector(&mut self, name: &String, fresh: u64) -> (r: u64)
        ensures
            r == match assoc_lookup(old(self).selector_table(), name@) {
                Some(s) => s,
                None => fresh,
            },
            final(self).selector_table() == match assoc_lookup(old(self).selector_table(), name@) {
                Some(_) => old(self).selector_table(),
                None => old(self).selector_table().push((name@, fresh)),
            },
            final(self).method_table() == old(self).method_table(),
            final(self).class_table() == old(self).class_table(),
    {
        let ghost before = self.selector_table();
        proof {
            lemma_assoc_index(before, name@);
        }
        match name_index(&self.selectors, name) {
            Some(i) => self.selectors[i].1,
            None => {
                self.selectors.push((name.clone(), fresh));
                proof {
                    assert(self.selector_table() =~= before.push((name@, fresh)));
                }
                fresh
            },
        }
    }

    /// The implementation for `sel` on the receiver or its class, matched by
    /// the selector's pointer alone (the dispatch fast path, which reads no name).
    pub fn direct(&self, receiver: u64, isa: u64, sel: u64) -> (r: Option<u64>)
        ensures
            r == direct_method(self.method_table(), receiver, isa, sel),
    {
        match find_method(&self.methods, receiver, sel) {
            Some(imp) => Some(imp),
            None => if isa != 0 && 0x1000 < isa && isa < 0x8000_0000_0000 {
                find_method(&self.methods, isa, sel)
            } else {
                None
            },
        }
    }

    /// What a send of `selector`, whose name is `name_bytes` (its bytes
    /// before the NUL), to `receiver`, whose class pointer is `isa`, jumps to.
    pub fn lookup_method(&self, receiver: u64, isa: u64, selector: u64, name_bytes: &[u8]) -> (r: Option<MethodImp>)
        ensures
            r == spec_lookup(self.method_table(), self.selector_table(), receiver, isa, selector, name_bytes@),
    {
        if receiver == 0 {
            return None;
        }
        if let Some(imp) = self.direct(receiver, isa, selector) {
            return Some(MethodImp::Registered(imp));
        }
        let name = utf8_text(name_bytes);
        if selector > 0x1000 && name_bytes.len() < 256 {
            if let Some(n) = &name {
                match name_index(&self.selectors, n) {
                    Some(i) => {
                        proof {
                            lemma_assoc_index(self.selector_table(), n@);
                        }
                        let c = self.selectors[i].1;
                        if c != selector {
                            if let Some(imp) = self.direct(receiver, isa, c) {
                                return Some(MethodImp::Registered(imp));
                            }
                        }
                    },
                    None => {
                        proof {
                            lemma_assoc_index(self.selector_table(), n@);
                        }
                    },
                }
            }
        }
        match &name {
            Some(n) => match builtin(n) {
                Some(b) => Some(b),
                None => Some(MethodImp::ReturnNull),
            },
            None => Some(MethodImp::ReturnNull),
        }
    }
}

/// Adding a method leaves every other (class, selector) pair's method as it
/// was and makes the new one the answer for its pair.
pub proof fn lemma_add_method_found(methods: Seq<(u64, u64, u64)>, cls: u64, sel: u64, imp: u64, c: u64, s: u64)
    requires
        method_of(methods, cls, sel) is None,
    ensures
        method_of(methods.push((cls, sel, imp)), c, s) == if c == cls && s == sel {
            Some(imp)
        } else {
            method_of(methods, c, s)
        },
    decreases methods.len(),
{
    if methods.len() == 0 {
        assert(methods.push((cls, sel, imp)).drop_first() =~= Seq::<(u64, u64, u64)>::empty());
        assert(methods.push((cls, sel, imp))[0] == (cls, sel, imp));
    } else {
        assert(methods.push((cls, sel, imp)).drop_first() =~= methods.drop_first().push((cls, sel, imp)));
        assert(methods.push((cls, sel, imp))[0] == methods[0]);
        if !(methods[0].0 == cls && methods[0].1 == sel) {
            lemma_add_method_found(methods.drop_first(), cls, sel, imp, c, s);
        }
    }
}

/// A method added to a class answers sends of its selector to any instance
/// of the class (one with no method of its own for the selector), and to
/// the class itself.
pub proof fn lemma_send_reaches_added_method(
    methods: Seq<(u64, u64, u64)>,
    selectors: Seq<(Seq<char>, u64)>,
    cls: u64,
    sel: u64,
    imp: u64,
    receiver: u64,
    bytes: Seq<u8>,
)
    requires
        method_of(methods, cls, sel) is None,
        receiver != 0,
        receiver == cls || (sane_isa(cls) && method_of(methods, receiver, sel) is None),
    ensures
        spec_lookup(methods.push((cls, sel, imp)), selectors, receiver, cls, sel, bytes) == Some(MethodImp::Registered(imp)),
{
    lemma_add_method_found(methods, cls, sel, imp, receiver, sel);
    lemma_add_method_found(methods, cls, sel, imp, cls, sel);
}

/// Registering a selector name twice gives the same selector both times.
pub proof fn lemma_selector_registration_stable(
    selectors: Seq<(Seq<char>, u64)>,
    name: Seq<char>,
    fresh1: u64,
    fresh2: u64,
)
    ensures
        ({
            let first = match assoc_lookup(selectors, name) {
                Some(s) => s,
                None => fresh1,
            };
            let after = match assoc_lookup(selectors, name) {
                Some(_) => selectors,
                None => selectors.push((name, fresh1)),
            };
            let second = match assoc_lookup(after, name) {
                Some(s) => s,
                None => fresh2,
            };
            second == first
        }),
{
    crate::assoc::lemma_assoc_push(selectors, (name, fresh1), name);
}

/// After registering a class under a name, looking the name up gives it;
/// other names give what they gave.
pub proof fn lemma_register_then_get_class(classes: Seq<(Seq<char>, u64)>, name: Seq<char>, cls: u64, q: Seq<char>)
    ensures
        assoc_lookup(assoc_set(classes, name, cls), q) == if q == name { Some(cls) } else { assoc_lookup(classes, q) },
{
    lemma_assoc_set(classes, name, cls, q);
}

/// The selector names the runtime answers by itself.
pub open spec fn builtin_names() -> Seq<Seq<char>> {
    seq!["alloc"@, "allocWithZone:"@, "init"@, "new"@, "retain"@, "autorelease"@, "self"@, "release"@, "dealloc"@, "respondsToSelector:"@, "conformsToProtocol:"@, "isKindOfClass:"@, "isMemberOfClass:"@, "class"@, "superclass"@, "description"@, "debugDescription"@, "hash"@, "count"@, "length"@]
}

/// What the runtime answers by itself, with no method added: alloc and
/// allocWithZone: allocate; init, new, retain, autorelease and self return
/// the receiver; release and dealloc do nothing; the introspection queries
/// answer false; class, superclass and the descriptions answer nil; hash,
/// count and length answer 0; any other selector gets the nil stub.
pub proof fn law_builtin_answers(selectors: Seq<(Seq<char>, u64)>, receiver: u64, isa: u64, selector: u64,
    bytes: Seq<u8>, name: Seq<char>)
    requires
        receiver != 0,
        selector_text(bytes) == Some(name),
    ensures
        name == "alloc"@ ==> spec_lookup(Seq::empty(), selectors, receiver, isa, selector, bytes)
            == Some(MethodImp::Alloc),
        name == "allocWithZone:"@ ==> spec_lookup(Seq::empty(), selectors, receiver, isa, selector, bytes)
            == Some(MethodImp::Alloc),
        name == "init"@ ==> spec_lookup(Seq::empty(), selectors, receiver, isa, selector, bytes)
            == Some(MethodImp::ReturnSelf),
        name == "new"@ ==> spec_lookup(Seq::empty(), selectors, receiver, isa, selector, bytes)
            == Some(MethodImp::ReturnSelf),
        name == "retain"@ ==> spec_lookup(Seq::empty(), selectors, receiver, isa, selector, bytes)
            == Some(MethodImp::ReturnSelf),
        name == "autorelease"@ ==> spec_lookup(Seq::empty(), selectors, receiver, isa, selector, bytes)
            == Some(MethodImp::ReturnSelf),
        name == "self"@ ==> spec_lookup(Seq::empty(), selectors, receiver, isa, selector, bytes)
            == Some(MethodImp::ReturnSelf),
        name == "release"@ ==> spec_lookup(Seq::empty(), selectors, receiver, isa, selector, bytes)
            == Some(MethodImp::Noop),
        name == "dealloc"@ ==> spec_lookup(Seq::empty(), selectors, receiver, isa, selector, bytes)
            == Some(MethodImp::Noop),
        name == "respondsToSelector:"@ ==> spec_lookup(Seq::empty(), selectors, receiver, isa, selector, bytes)
            == Some(MethodImp::ReturnFalse),
        name == "conformsToProtocol:"@ ==> spec_lookup(Seq::empty(), selectors, receiver, isa, selector, bytes)
            == Some(MethodImp::ReturnFalse),
        name == "isKindOfClass:"@ ==> spec_lookup(Seq::empty(), selectors, receiver, isa, selector, bytes)
            == Some(MethodImp::ReturnFalse),
        name == "isMemberOfClass:"@ ==> spec_lookup(Seq::empty(), selectors, receiver, isa, selector, bytes)
            == Some(MethodImp::ReturnFalse),
        name == "class"@ ==> spec_lookup(Seq::empty(), selectors, receiver, isa, selector, bytes)
            == Some(MethodImp::ReturnNull),
        name == "superclass"@ ==> spec_lookup(Seq::empty(), selectors, receiver, isa, selector, bytes)
            == Some(MethodImp::ReturnNull),
        name == "description"@ ==> spec_lookup(Seq::empty(), selectors, receiver, isa, selector, bytes)
            == Some(MethodImp::ReturnNull),
        name == "debugDescription"@ ==> spec_lookup(Seq::empty(), selectors, receiver, isa, selector, bytes)
            == Some(MethodImp::ReturnNull),
        name == "hash"@ ==> spec_lookup(Seq::empty(), selectors, receiver, isa, selector, bytes)
            == Some(MethodImp::ReturnZero),
        name == "count"@ ==> spec_lookup(Seq::empty(), selectors, receiver, isa, selector, bytes)
            == Some(MethodImp::ReturnZero),
        name == "length"@ ==> spec_lookup(Seq::empty(), selectors, receiver, isa, selector, bytes)
            == Some(MethodImp::ReturnZero),
        !builtin_names().contains(name) ==> spec_lookup(Seq::empty(), selectors, receiver, isa, selector, bytes)
            == Some(MethodImp::ReturnNull),
{
    reveal_strlit("alloc");
    reveal_strlit("allocWithZone:");
    reveal_strlit("init");
    reveal_strlit("new");
    reveal_strlit("retain");
    reveal_strlit("autorelease");
    reveal_strlit("self");
    reveal_strlit("release");
    reveal_strlit("dealloc");
    reveal_strlit("respondsToSelector:");
    reveal_strlit("conformsToProtocol:");
    reveal_strlit("isKindOfClass:");
    reveal_strlit("isMemberOfClass:");
    reveal_strlit("class");
    reveal_strlit("superclass");
    reveal_strlit("description");
    reveal_strlit("debugDescription");
    reveal_strlit("hash");
    reveal_strlit("count");
    reveal_strlit("length");
    assert(method_of(Seq::<(u64, u64, u64)>::empty(), receiver, selector) is None);
    assert(canonical_method(Seq::empty(), selectors, receiver, isa, selector, bytes) is None) by {
        match assoc_lookup(selectors, name) {
            Some(c) => {
                assert(method_of(Seq::<(u64, u64, u64)>::empty(), receiver, c) is None);
                assert(method_of(Seq::<(u64, u64, u64)>::empty(), isa, c) is None);
            },
            None => {},
        }
    }
    assert(method_of(Seq::<(u64, u64, u64)>::empty(), isa, selector) is None);
    assert("alloc"@.len() == 5);
    assert("allocWithZone:"@.len() == 14);
    assert("init"@.len() == 4);
    assert("new"@.len() == 3);
    assert("retain"@.len() == 6);
    assert("autorelease"@.len() == 11);
    assert("self"@.len() == 4);
    assert("release"@.len() == 7);
    assert("dealloc"@.len() == 7);
    assert("respondsToSelector:"@.len() == 19);
    assert("conformsToProtocol:"@.len() == 19);
    assert("isKindOfClass:"@.len() == 14);
    assert("isMemberOfClass:"@.len() == 16);
    assert("class"@.len() == 5);
    assert("superclass"@.len() == 10);
    assert("description"@.len() == 11);
    assert("debugDescription"@.len() == 16);
    assert("hash"@.len() == 4);
    assert("count"@.len() == 5);
    assert("length"@.len() == 6);
    assert("alloc"@[0] != "class"@[0]);
    assert("alloc"@[0] != "count"@[0]);
    assert("allocWithZone:"@[0] != "isKindOfClass:"@[0]);
    assert("init"@[0] != "self"@[0]);
    assert("init"@[0] != "hash"@[0]);
    assert("retain"@[0] != "length"@[0]);
    assert("autorelease"@[0] != "description"@[0]);
    assert("self"@[0] != "hash"@[0]);
    assert("release"@[0] != "dealloc"@[0]);
    assert("respondsToSelector:"@[0] != "conformsToProtocol:"@[0]);
    assert("isMemberOfClass:"@[0] != "debugDescription"@[0]);
    assert("class"@[1] != "count"@[1]);
    if !builtin_names().contains(name) {
        assert(builtin_names()[0] == "alloc"@);
        assert(builtin_names()[1] == "allocWithZone:"@);
        assert(builtin_names()[2] == "init"@);
        assert(builtin_names()[3] == "new"@);
        assert(builtin_names()[4] == "retain"@);
        assert(builtin_names()[5] == "autorelease"@);
        assert(builtin_names()[6] == "self"@);
        assert(builtin_names()[7] == "release"@);
        assert(builtin_names()[8] == "dealloc"@);
        assert(builtin_names()[9] == "respondsToSelector:"@);
        assert(builtin_names()[10] == "conformsToProtocol:"@);
        assert(builtin_names()[11] == "isKindOfClass:"@);
        assert(builtin_names()[12] == "isMemberOfClass:"@);
        assert(builtin_names()[13] == "class"@);
        assert(builtin_names()[14] == "superclass"@);
        assert(builtin_names()[15] == "description"@);
        assert(builtin_names()[16] == "debugDescription"@);
        assert(builtin_names()[17] == "hash"@);
        assert(builtin_names()[18] == "count"@);
        assert(builtin_names()[19] == "length"@);
        assert(builtin_for(name) is None);
    }
    if name == "alloc"@ { assert(builtin_for(name) == Some(MethodImp::Alloc)); }
    if name == "allocWithZone:"@ { assert(builtin_for(name) == Some(MethodImp::Alloc)); }
    if name == "init"@ { assert(builtin_for(name) == Some(MethodImp::ReturnSelf)); }
    if name == "new"@ { assert(builtin_for(name) == Some(MethodImp::ReturnSelf)); }
    if name == "retain"@ { assert(builtin_for(name) == Some(MethodImp::ReturnSelf)); }
    if name == "autorelease"@ { assert(builtin_for(name) == Some(MethodImp::ReturnSelf)); }
    if name == "self"@ { assert(builtin_for(name) == Some(MethodImp::ReturnSelf)); }
    if name == "release"@ { assert(builtin_for(name) == Some(MethodImp::Noop)); }
    if name == "dealloc"@ { assert(builtin_for(name) == Some(MethodImp::Noop)); }
    if name == "respondsToSelector:"@ { assert(builtin_for(name) == Some(MethodImp::ReturnFalse)); }
    if name == "conformsToProtocol:"@ { assert(builtin_for(name) == Some(MethodImp::ReturnFalse)); }
    if name == "isKindOfClass:"@ { assert(builtin_for(name) == Some(MethodImp::ReturnFalse)); }
    if name == "isMemberOfClass:"@ { assert(builtin_for(name) == Some(MethodImp::ReturnFalse)); }
    if name == "class"@ { assert(builtin_for(name) == Some(MethodImp::ReturnNull)); }
    if name == "superclass"@ { assert(builtin_for(name) == Some(MethodImp::ReturnNull)); }
    if name == "description"@ { assert(builtin_for(name) == Some(MethodImp::ReturnNull)); }
    if name == "debugDescription"@ { assert(builtin_for(name) == Some(MethodImp::ReturnNull)); }
    if name == "hash"@ { assert(builtin_for(name) == Some(MethodImp::ReturnZero)); }
    if name == "count"@ { assert(builtin_for(name) == Some(MethodImp::ReturnZero)); }
    if name == "length"@ { assert(builtin_for(name) == Some(MethodImp::ReturnZero)); }
}

/// A method added for the selector on the receiver answers the send, ahead
/// of anything the runtime would answer by itself.
pub proof fn law_added_method_comes_first(methods: Seq<(u64, u64, u64)>, selectors: Seq<(Seq<char>, u64)>,
    receiver: u64, isa: u64, selector: u64, bytes: Seq<u8>, imp: u64)
    requires
        receiver != 0,
        method_of(methods, receiver, selector) == Some(imp),
    ensures
        spec_lookup(methods, selectors, receiver, isa, selector, bytes) == Some(MethodImp::Registered(imp)),
{
}

} // verus!
