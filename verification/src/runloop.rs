//! A run loop's bookkeeping: per-mode registries of sources, timers and
//! observers, the set of common modes, the stack of entered modes, and the
//! steps of one pass through a mode.

use vstd::prelude::*;
use vstd::utf8::*;

use crate::assoc::{
    assoc_index, assoc_lookup, lemma_assoc_absent, lemma_assoc_first, lemma_assoc_index,
    lemma_assoc_push, lemma_assoc_update,
};
use crate::text::{c_prefix, cstr_prefix, owned, utf8_text};

verus! {

/// Activity flags; observers are registered with a mask of them.
pub const K_CF_RUNLOOP_ENTRY: u64 = 1;
pub const K_CF_RUNLOOP_BEFORE_TIMERS: u64 = 2;
pub const K_CF_RUNLOOP_BEFORE_SOURCES: u64 = 4;
pub const K_CF_RUNLOOP_BEFORE_WAITING: u64 = 32;
pub const K_CF_RUNLOOP_AFTER_WAITING: u64 = 64;
pub const K_CF_RUNLOOP_EXIT: u64 = 128;

/// Results of one pass through a mode.
pub const K_CF_RUNLOOP_RUN_FINISHED: i32 = 1;
pub const K_CF_RUNLOOP_RUN_STOPPED: i32 = 2;
pub const K_CF_RUNLOOP_RUN_TIMED_OUT: i32 = 3;
pub const K_CF_RUNLOOP_RUN_HANDLED_SOURCE: i32 = 4;

pub open spec fn default_mode() -> Seq<char> {
    "kCFRunLoopDefaultMode"@
}

pub open spec fn common_modes_name() -> Seq<char> {
    "kCFRunLoopCommonModes"@
}

pub open spec fn tracking_mode() -> Seq<char> {
    "NSEventTrackingRunLoopMode"@
}

pub open spec fn modal_panel_mode() -> Seq<char> {
    "NSModalPanelRunLoopMode"@
}

pub open spec fn ui_tracking_mode() -> Seq<char> {
    "UITrackingRunLoopMode"@
}

/// The mode a run loop runs in by default.
pub fn default_mode_name() -> (r: String)
    ensures
        r@ == default_mode(),
{
    owned("kCFRunLoopDefaultMode")
}

/// The pseudo-mode that stands for every common mode.
pub fn common_modes_mode_name() -> (r: String)
    ensures
        r@ == common_modes_name(),
{
    owned("kCFRunLoopCommonModes")
}

/// The mode AppKit runs in while tracking the mouse.
pub fn tracking_mode_name() -> (r: String)
    ensures
        r@ == tracking_mode(),
{
    owned("NSEventTrackingRunLoopMode")
}

/// The mode AppKit runs in while a modal panel is up.
pub fn modal_panel_mode_name() -> (r: String)
    ensures
        r@ == modal_panel_mode(),
{
    owned("NSModalPanelRunLoopMode")
}

/// The mode UIKit runs in while tracking a touch.
pub fn ui_tracking_mode_name() -> (r: String)
    ensures
        r@ == ui_tracking_mode(),
{
    owned("UITrackingRunLoopMode")
}

/// The kinds of things a mode holds.
#[derive(Clone, Copy, Debug, PartialEq, Eq, Structural)]
pub enum ItemKind {
    Source,
    Timer,
    Observer,
}

/// What one mode holds, each item by its handle.
pub struct ModeItems {
    name: String,
    sources: Vec<u64>,
    timers: Vec<u64>,
    observers: Vec<u64>,
}

pub open spec fn list_of_kind(sources: Seq<u64>, timers: Seq<u64>, observers: Seq<u64>, kind: ItemKind) -> Seq<u64> {
    match kind {
        ItemKind::Source => sources,
        ItemKind::Timer => timers,
        ItemKind::Observer => observers,
    }
}

impl ModeItems {
    pub closed spec fn list(self, kind: ItemKind) -> Seq<u64> {
        list_of_kind(self.sources@, self.timers@, self.observers@, kind)
    }

    pub closed spec fn key(self) -> Seq<char> {
        self.name@
    }

    pub closed spec fn lists_distinct(self) -> bool {
        &&& self.sources@.no_duplicates()
        &&& self.timers@.no_duplicates()
        &&& self.observers@.no_duplicates()
    }
}

/// `s` with `h` appended unless it is there already.
pub open spec fn with_item(s: Seq<u64>, h: u64) -> Seq<u64> {
    if s.contains(h) { s } else { s.push(h) }
}

/// `s` without any occurrence of `h`.
pub open spec fn without_item(s: Seq<u64>, h: u64) -> Seq<u64>
    decreases s.len(),
{
    if s.len() == 0 {
        s
    } else if s.last() == h {
        without_item(s.drop_last(), h)
    } else {
        without_item(s.drop_last(), h).push(s.last())
    }
}

/// Whether a registration made under `mode` reaches mode `q`: the
/// common-modes pseudo-mode reaches every common mode, any other name only
/// itself.
pub open spec fn reaches(common: Seq<Seq<char>>, mode: Seq<char>, q: Seq<char>) -> bool {
    if mode == common_modes_name() { common.contains(q) } else { q == mode }
}

/// A thread's run loop.
pub struct RunLoop {
    modes: Vec<ModeItems>,
    common_modes: Vec<String>,
    mode_stack: Vec<String>,
    stopped: bool,
}

impl RunLoop {
    /// The registered modes by name, each with its items of `kind`.
    pub closed spec fn table(&self, kind: ItemKind) -> Seq<(Seq<char>, Seq<u64>)> {
        Seq::new(self.modes@.len(), |i: int| (self.modes@[i].key(), self.modes@[i].list(kind)))
    }

    /// The items of `kind` registered in `mode` (none for an unknown mode).
    pub closed spec fn items(&self, kind: ItemKind, mode: Seq<char>) -> Seq<u64> {
        match assoc_lookup(self.table(kind), mode) {
            Some(l) => l,
            None => Seq::empty(),
        }
    }

    /// The common modes, in the order they were added.
    pub closed spec fn common(&self) -> Seq<Seq<char>> {
        Seq::new(self.common_modes@.len(), |i: int| self.common_modes@[i]@)
    }

    /// The entered modes, innermost last.
    pub closed spec fn stack(&self) -> Seq<Seq<char>> {
        Seq::new(self.mode_stack@.len(), |i: int| self.mode_stack@[i]@)
    }

    /// Whether a stop was asked for and not yet taken.
    pub closed spec fn is_stopped(&self) -> bool {
        self.stopped
    }

    /// No mode lists an item twice, and some mode is common.
    pub closed spec fn wf(&self) -> bool {
        &&& forall|i: int| 0 <= i < self.modes@.len() ==> (#[trigger] self.modes@[i]).lists_distinct()
        &&& self.common_modes@.len() > 0
    }

    /// Whether `handle` is registered as `kind` under `mode`; under the
    /// common-modes pseudo-mode, in some common mode.
    pub open spec fn holds(&self, kind: ItemKind, handle: u64, mode: Seq<char>) -> bool {
        if mode == common_modes_name() {
            exists|q: Seq<char>| self.common().contains(q) && #[trigger] self.items(kind, q).contains(handle)
        } else {
            self.items(kind, mode).contains(handle)
        }
    }

    /// `after` is `before` with `handle` registered as `kind` under `mode`.
    pub open spec fn added(before: RunLoop, after: RunLoop, kind: ItemKind, handle: u64, mode: Seq<char>) -> bool {
        &&& forall|k: ItemKind, q: Seq<char>| #[trigger] after.items(k, q) == if k == kind && reaches(before.common(), mode, q) {
            with_item(before.items(k, q), handle)
        } else {
            before.items(k, q)
        }
        &&& after.common() == before.common()
        &&& after.stack() == before.stack()
        &&& after.is_stopped() == before.is_stopped()
    }

    /// `after` is `before` with `handle` unregistered as `kind` under `mode`.
    pub open spec fn removed(before: RunLoop, after: RunLoop, kind: ItemKind, handle: u64, mode: Seq<char>) -> bool {
        &&& forall|k: ItemKind, q: Seq<char>| #[trigger] after.items(k, q) == if k == kind && reaches(before.common(), mode, q) {
            without_item(before.items(k, q), handle)
        } else {
            before.items(k, q)
        }
        &&& after.common() == before.common()
        &&& after.stack() == before.stack()
        &&& after.is_stopped() == before.is_stopped()
    }

    /// The index of the first registry named `name`.
    fn mode_index(&self, name: &String) -> (r: Option<usize>)
        ensures
            r matches Some(i) ==> i < self.modes@.len() && forall|k: ItemKind| assoc_index(#[trigger] self.table(k), name@) == Some(i as int),
            r is None ==> forall|k: ItemKind| assoc_index(#[trigger] self.table(k), name@) is None,
    {
        let mut i: usize = 0;
        while i < self.modes.len()
            invariant
                i <= self.modes@.len(),
                forall|j: int| 0 <= j < i ==> #[trigger] self.modes@[j].key() != name@,
            decreases self.modes.len() - i,
        {
            if self.modes[i].name == *name {
                proof {
                    assert forall|k: ItemKind| assoc_index(#[trigger] self.table(k), name@) == Some(i as int) by {
                        assert forall|j: int| 0 <= j < i implies #[trigger] self.table(k)[j].0 != name@ by {}
                        lemma_assoc_first(self.table(k), name@, i as int);
                    }
                }
                return Some(i);
            }
            i = i + 1;
        }
        proof {
            assert forall|k: ItemKind| assoc_index(#[trigger] self.table(k), name@) is None by {
                assert forall|j: int| 0 <= j < self.table(k).len() implies #[trigger] self.table(k)[j].0 != name@ by {}
                lemma_assoc_absent(self.table(k), name@);
            }
        }
        None
    }
}


/// What is left of `s` without `h`: exactly the other items of `s`, each once
/// when `s` held each once.
proof fn lemma_without_item(s: Seq<u64>, h: u64)
    ensures
        forall|x: u64| #[trigger] without_item(s, h).contains(x) <==> (s.contains(x) && x != h),
        s.no_duplicates() ==> without_item(s, h).no_duplicates(),
    decreases s.len(),
{
    if s.len() > 0 {
        let t = s.drop_last();
        lemma_without_item(t, h);
        assert forall|x: u64| s.contains(x) <==> (t.contains(x) || x == s.last()) by {
            if s.contains(x) {
                let j = choose|j: int| 0 <= j < s.len() && s[j] == x;
                if j < s.len() - 1 {
                    assert(t[j] == x);
                }
            }
            if t.contains(x) {
                let j = choose|j: int| 0 <= j < t.len() && t[j] == x;
                assert(s[j] == x);
            }
            if x == s.last() {
                assert(s[s.len() - 1] == x);
            }
        }
        if s.last() != h {
            let w = without_item(t, h);
            assert forall|x: u64| #[trigger] w.push(s.last()).contains(x) <==> (w.contains(x) || x == s.last()) by {
                if w.push(s.last()).contains(x) {
                    let j = choose|j: int| 0 <= j < w.len() + 1 && w.push(s.last())[j] == x;
                    if j < w.len() {
                        assert(w[j] == x);
                    }
                }
                if w.contains(x) {
                    let j = choose|j: int| 0 <= j < w.len() && w[j] == x;
                    assert(w.push(s.last())[j] == x);
                }
                if x == s.last() {
                    assert(w.push(s.last())[w.len() as int] == x);
                }
            }
            if s.no_duplicates() {
                assert(t.no_duplicates()) by {
                    assert forall|i: int, j: int| 0 <= i < t.len() && 0 <= j < t.len() && i != j implies t[i] != t[j] by {
                        assert(t[i] == s[i] && t[j] == s[j]);
                    }
                }
                assert(!t.contains(s.last())) by {
                    if t.contains(s.last()) {
                        let j = choose|j: int| 0 <= j < t.len() && t[j] == s.last();
                        assert(s[j] == s[s.len() - 1]);
                    }
                }
                assert(!w.contains(s.last()));
                assert forall|i: int, j: int| 0 <= i < w.len() + 1 && 0 <= j < w.len() + 1 && i != j
                    implies w.push(s.last())[i] != w.push(s.last())[j] by {
                    if i < w.len() && j < w.len() {
                    } else if i < w.len() {
                        assert(w.contains(w[i]));
                    } else {
                        assert(w.contains(w[j]));
                    }
                }
            }
        } else {
            if s.no_duplicates() {
                assert(t.no_duplicates()) by {
                    assert forall|i: int, j: int| 0 <= i < t.len() && 0 <= j < t.len() && i != j implies t[i] != t[j] by {
                        assert(t[i] == s[i] && t[j] == s[j]);
                    }
                }
            }
        }
    }
}

/// Whether `v` holds `h`.
fn list_contains(v: &Vec<u64>, h: u64) -> (r: bool)
    ensures
        r == v@.contains(h),
{
    let mut i: usize = 0;
    while i < v.len()
        invariant
            i <= v@.len(),
            forall|j: int| 0 <= j < i ==> v@[j] != h,
        decreases v.len() - i,
    {
        if v[i] == h {
            proof {
                assert(v@[i as int] == h);
            }
            return true;
        }
        i = i + 1;
    }
    false
}

/// A copy of `v` with `h` appended unless it is there already.
fn list_with(v: &Vec<u64>, h: u64) -> (r: Vec<u64>)
    ensures
        r@ == with_item(v@, h),
        v@.no_duplicates() ==> r@.no_duplicates(),
{
    let mut out: Vec<u64> = Vec::new();
    let mut i: usize = 0;
    while i < v.len()
        invariant
            i <= v@.len(),
            out@ == v@.take(i as int),
        decreases v.len() - i,
    {
        out.push(v[i]);
        i = i + 1;
        proof {
            assert(out@ =~= v@.take(i as int));
        }
    }
    proof {
        assert(v@.take(i as int) =~= v@);
    }
    if !list_contains(v, h) {
        out.push(h);
        proof {
            if v@.no_duplicates() {
                assert forall|a: int, b: int| 0 <= a < out@.len() && 0 <= b < out@.len() && a != b
                    implies out@[a] != out@[b] by {
                    if a < v@.len() && b < v@.len() {
                    } else if a < v@.len() {
                        assert(v@.contains(v@[a]));
                    } else {
                        assert(v@.contains(v@[b]));
                    }
                }
            }
        }
    }
    out
}

/// A copy of `v` without `h`.
fn list_without(v: &Vec<u64>, h: u64) -> (r: Vec<u64>)
    ensures
        r@ == without_item(v@, h),
{
    let mut out: Vec<u64> = Vec::new();
    let mut i: usize = 0;
    while i < v.len()
        invariant
            i <= v@.len(),
            out@ == without_item(v@.take(i as int), h),
        decreases v.len() - i,
    {
        proof {
            assert(v@.take(i as int + 1).drop_last() =~= v@.take(i as int));
        }
        if v[i] != h {
            out.push(v[i]);
        }
        i = i + 1;
    }
    proof {
        assert(v@.take(i as int) =~= v@);
    }
    out
}

impl RunLoop {
    /// The index of the registry named `name`, added empty when there is none.
    fn ensure_mode(&mut self, name: &String) -> (r: usize)
        requires
            old(self).wf(),
        ensures
            final(self).wf(),
            r < final(self).modes@.len(),
            forall|k: ItemKind| assoc_index(#[trigger] final(self).table(k), name@) == Some(r as int),
            forall|k: ItemKind, q: Seq<char>| #[trigger] final(self).items(k, q) == old(self).items(k, q),
            final(self).common_modes@ == old(self).common_modes@,
            final(self).mode_stack@ == old(self).mode_stack@,
            final(self).stopped == old(self).stopped,
    {
        match self.mode_index(name) {
            Some(i) => i,
            None => {
                let ghost before = *self;
                let entry = ModeItems { name: name.clone(), sources: Vec::new(), timers: Vec::new(), observers: Vec::new() };
                self.modes.push(entry);
                proof {
                    assert forall|k: ItemKind| #[trigger] self.table(k) == before.table(k).push((name@, Seq::<u64>::empty())) by {
                        assert(self.table(k) =~= before.table(k).push((name@, Seq::<u64>::empty())));
                    }
                    assert forall|k: ItemKind| assoc_index(#[trigger] self.table(k), name@) == Some(before.modes@.len() as int) by {
                        lemma_assoc_index(before.table(k), name@);
                        assert forall|j: int| 0 <= j < before.modes@.len() implies #[trigger] self.table(k)[j].0 != name@ by {
                            assert(self.table(k)[j] == before.table(k)[j]);
                        }
                        lemma_assoc_first(self.table(k), name@, before.modes@.len() as int);
                    }
                    assert forall|k: ItemKind, q: Seq<char>| #[trigger] self.items(k, q) == before.items(k, q) by {
                        lemma_assoc_push(before.table(k), (name@, Seq::<u64>::empty()), q);
                        lemma_assoc_index(before.table(k), name@);
                    }
                    assert forall|i: int| 0 <= i < self.modes@.len() implies (#[trigger] self.modes@[i]).lists_distinct() by {
                        if i < before.modes@.len() {
                            assert(self.modes@[i] == before.modes@[i]);
                        }
                    }
                }
                self.modes.len() - 1
            },
        }
    }

    /// Replaces the `kind` list of registry `i`.
    fn set_list(&mut self, i: usize, kind: ItemKind, list: Vec<u64>)
        requires
            old(self).wf(),
            i < old(self).modes@.len(),
            assoc_index(old(self).table(kind), old(self).modes@[i as int].key()) == Some(i as int),
            list@.no_duplicates(),
        ensures
            final(self).wf(),
            forall|k: ItemKind, q: Seq<char>| #[trigger] final(self).items(k, q) == if k == kind && q == old(self).modes@[i as int].key() {
                list@
            } else {
                old(self).items(k, q)
            },
            final(self).common_modes@ == old(self).common_modes@,
            final(self).mode_stack@ == old(self).mode_stack@,
            final(self).stopped == old(self).stopped,
    {
        let ghost before = *self;
        let ghost key = before.modes@[i as int].key();
        let ghost new_list = list@;
        let mut entry = self.modes.remove(i);
        match kind {
            ItemKind::Source => { entry.sources = list; },
            ItemKind::Timer => { entry.timers = list; },
            ItemKind::Observer => { entry.observers = list; },
        }
        self.modes.insert(i, entry);
        proof {
            assert(self.modes@ =~= before.modes@.update(i as int, entry));
            assert(entry.key() == key);
            lemma_assoc_index(before.table(kind), key);
            assert forall|k: ItemKind, q: Seq<char>| #[trigger] self.items(k, q) == if k == kind && q == key {
                new_list
            } else {
                before.items(k, q)
            } by {
                if k == kind {
                    assert(self.table(k) =~= before.table(k).update(i as int, (key, new_list)));
                    assert(before.table(k)[i as int].0 == key);
                    lemma_assoc_update(before.table(k), i as int, new_list, q);
                } else {
                    assert(self.table(k) =~= before.table(k));
                }
            }
            assert forall|j: int| 0 <= j < self.modes@.len() implies (#[trigger] self.modes@[j]).lists_distinct() by {
                if j != i {
                    assert(self.modes@[j] == before.modes@[j]);
                }
            }
        }
    }
}


/// Removing `h` twice removes no more than removing it once.
proof fn lemma_without_item_twice(s: Seq<u64>, h: u64)
    ensures
        without_item(without_item(s, h), h) == without_item(s, h),
    decreases s.len(),
{
    if s.len() > 0 {
        let t = s.drop_last();
        lemma_without_item_twice(t, h);
        let w = without_item(t, h);
        if s.last() != h {
            assert(w.push(s.last()).drop_last() =~= w);
        }
    }
}

/// Appending `h` twice appends no more than appending it once.
proof fn lemma_with_item_twice(s: Seq<u64>, h: u64)
    ensures
        with_item(with_item(s, h), h) == with_item(s, h),
        with_item(s, h).contains(h),
{
    if !s.contains(h) {
        assert(s.push(h)[s.len() as int] == h);
    }
}

/// A copy of `v`.
fn list_copy(v: &Vec<u64>) -> (r: Vec<u64>)
    ensures
        r@ == v@,
{
    let mut out: Vec<u64> = Vec::new();
    let mut i: usize = 0;
    while i < v.len()
        invariant
            i <= v@.len(),
            out@ == v@.take(i as int),
        decreases v.len() - i,
    {
        out.push(v[i]);
        i = i + 1;
        proof {
            assert(out@ =~= v@.take(i as int));
        }
    }
    proof {
        assert(v@.take(i as int) =~= v@);
    }
    out
}

/// Whether `m` is one of the modes the framework names.
pub open spec fn known_mode(m: Seq<char>) -> bool {
    m == default_mode() || m == tracking_mode() || m == modal_panel_mode() || m == ui_tracking_mode()
}

/// The mode reported as current: the innermost entered mode when the
/// framework names it, the default mode otherwise.
pub open spec fn spec_current_mode(stack: Seq<Seq<char>>) -> Seq<char> {
    if stack.len() > 0 && known_mode(stack.last()) { stack.last() } else { default_mode() }
}

impl RunLoop {
    /// The `kind` list of registry `i`.
    fn list_ref(&self, i: usize, kind: ItemKind) -> (r: &Vec<u64>)
        requires
            i < self.modes@.len(),
        ensures
            r@ == self.modes@[i as int].list(kind),
    {
        match kind {
            ItemKind::Source => &self.modes[i].sources,
            ItemKind::Timer => &self.modes[i].timers,
            ItemKind::Observer => &self.modes[i].observers,
        }
    }

    proof fn lemma_items_at(&self, kind: ItemKind, q: Seq<char>, i: int)
        requires
            self.wf(),
            assoc_index(self.table(kind), q) == Some(i),
        ensures
            0 <= i < self.modes@.len(),
            self.modes@[i].key() == q,
            self.items(kind, q) == self.modes@[i].list(kind),
            self.items(kind, q).no_duplicates(),
    {
        lemma_assoc_index(self.table(kind), q);
        assert(self.modes@[i].lists_distinct());
    }

    /// A run loop with the default, event-tracking and modal-panel modes
    /// registered, all empty; the first two are common.
    pub fn new() -> (r: RunLoop)
        ensures
            r.wf(),
            forall|k: ItemKind, q: Seq<char>| #[trigger] r.items(k, q) == Seq::<u64>::empty(),
            r.common() == seq![default_mode(), tracking_mode()],
            r.stack() == Seq::<Seq<char>>::empty(),
            !r.is_stopped(),
    {
        let mut modes: Vec<ModeItems> = Vec::new();
        modes.push(ModeItems { name: default_mode_name(), sources: Vec::new(), timers: Vec::new(), observers: Vec::new() });
        modes.push(ModeItems { name: tracking_mode_name(), sources: Vec::new(), timers: Vec::new(), observers: Vec::new() });
        modes.push(ModeItems { name: modal_panel_mode_name(), sources: Vec::new(), timers: Vec::new(), observers: Vec::new() });
        let mut common_modes: Vec<String> = Vec::new();
        common_modes.push(default_mode_name());
        common_modes.push(tracking_mode_name());
        let r = RunLoop { modes, common_modes, mode_stack: Vec::new(), stopped: false };
        proof {
            assert forall|k: ItemKind, q: Seq<char>| #[trigger] r.items(k, q) == Seq::<u64>::empty() by {
                lemma_assoc_index(r.table(k), q);
                match assoc_index(r.table(k), q) {
                    Some(i) => { assert(r.table(k)[i].1 =~= Seq::<u64>::empty()); },
                    None => {},
                }
            }
            assert(r.common() =~= seq![default_mode(), tracking_mode()]);
            assert(r.stack() =~= Seq::<Seq<char>>::empty());
        }
        r
    }

    /// Registers `handle` as `kind` under `mode`: in that mode, or, under
    /// the common-modes pseudo-mode, in every common mode; a mode already
    /// holding it is left as it is.
    pub fn add_item(&mut self, kind: ItemKind, handle: u64, mode: &String)
        requires
            old(self).wf(),
        ensures
            final(self).wf(),
            RunLoop::added(*old(self), *final(self), kind, handle, mode@),
    {
        let ghost before = *self;
        let common = common_modes_mode_name();
        if *mode == common {
            let mut j: usize = 0;
            while j < self.common_modes.len()
                invariant
                    self.wf(),
                    j <= self.common_modes@.len(),
                    self.common_modes@ == before.common_modes@,
                    self.mode_stack@ == before.mode_stack@,
                    self.stopped == before.stopped,
                    forall|k: ItemKind, q: Seq<char>| #[trigger] self.items(k, q) == if k == kind && before.common().take(j as int).contains(q) {
                        with_item(before.items(k, q), handle)
                    } else {
                        before.items(k, q)
                    },
                decreases self.common_modes.len() - j,
            {
                let name = self.common_modes[j].clone();
                let ghost c = name@;
                let ghost mid = *self;
                let i = self.ensure_mode(&name);
                proof {
                    self.lemma_items_at(kind, c, i as int);
                    lemma_items_distinct_with(self.items(kind, c), handle);
                }
                let l = list_with(self.list_ref(i, kind), handle);
                self.set_list(i, kind, l);
                j = j + 1;
                proof {
                    assert(before.common()[j - 1] == c);
                    assert forall|k: ItemKind, q: Seq<char>| #[trigger] self.items(k, q) == if k == kind && before.common().take(j as int).contains(q) {
                        with_item(before.items(k, q), handle)
                    } else {
                        before.items(k, q)
                    } by {
                        assert(before.common().take(j as int).contains(q) <==> (before.common().take(j - 1).contains(q) || q == c)) by {
                            if before.common().take(j as int).contains(q) {
                                let a = choose|a: int| 0 <= a < j && #[trigger] before.common().take(j as int)[a] == q;
                                if a < j - 1 {
                                    assert(before.common().take(j - 1)[a] == q);
                                }
                            }
                            if before.common().take(j - 1).contains(q) {
                                let a = choose|a: int| 0 <= a < j - 1 && #[trigger] before.common().take(j - 1)[a] == q;
                                assert(before.common().take(j as int)[a] == q);
                            }
                            if q == c {
                                assert(before.common().take(j as int)[j - 1] == q);
                            }
                        }
                        lemma_with_item_twice(before.items(k, q), handle);
                    }
                }
            }
            proof {
                assert(before.common().take(j as int) =~= before.common());
                assert(self.common() =~= before.common());
                assert(self.stack() =~= before.stack());
            }
        } else {
            let i = self.ensure_mode(mode);
            proof {
                self.lemma_items_at(kind, mode@, i as int);
                lemma_items_distinct_with(self.items(kind, mode@), handle);
            }
            let l = list_with(self.list_ref(i, kind), handle);
            self.set_list(i, kind, l);
            proof {
                assert(self.common() =~= before.common());
                assert(self.stack() =~= before.stack());
            }
        }
    }
}

proof fn lemma_items_distinct_with(s: Seq<u64>, h: u64)
    requires
        s.no_duplicates(),
    ensures
        with_item(s, h).no_duplicates(),
{
    if !s.contains(h) {
        assert forall|a: int, b: int| 0 <= a < s.len() + 1 && 0 <= b < s.len() + 1 && a != b
            implies s.push(h)[a] != s.push(h)[b] by {
            if a < s.len() && b < s.len() {
            } else if a < s.len() {
                assert(s.contains(s[a]));
            } else {
                assert(s.contains(s[b]));
            }
        }
    }
}


impl RunLoop {
    /// Unregisters `handle` as `kind` under `mode`: from that mode, or, under
    /// the common-modes pseudo-mode, from every common mode.
    pub fn remove_item(&mut self, kind: ItemKind, handle: u64, mode: &String)
        requires
            old(self).wf(),
        ensures
            final(self).wf(),
            RunLoop::removed(*old(self), *final(self), kind, handle, mode@),
    {
        let ghost before = *self;
        let common = common_modes_mode_name();
        if *mode == common {
            let mut j: usize = 0;
            while j < self.common_modes.len()
                invariant
                    self.wf(),
                    j <= self.common_modes@.len(),
                    self.common_modes@ == before.common_modes@,
                    self.mode_stack@ == before.mode_stack@,
                    self.stopped == before.stopped,
                    forall|k: ItemKind, q: Seq<char>| #[trigger] self.items(k, q) == if k == kind && before.common().take(j as int).contains(q) {
                        without_item(before.items(k, q), handle)
                    } else {
                        before.items(k, q)
                    },
                decreases self.common_modes.len() - j,
            {
                let name = self.common_modes[j].clone();
                let ghost c = name@;
                self.remove_from(kind, handle, &name);
                j = j + 1;
                proof {
                    assert(before.common()[j - 1] == c);
                    assert forall|k: ItemKind, q: Seq<char>| #[trigger] self.items(k, q) == if k == kind && before.common().take(j as int).contains(q) {
                        without_item(before.items(k, q), handle)
                    } else {
                        before.items(k, q)
                    } by {
                        assert(before.common().take(j as int).contains(q) <==> (before.common().take(j - 1).contains(q) || q == c)) by {
                            if before.common().take(j as int).contains(q) {
                                let a = choose|a: int| 0 <= a < j && #[trigger] before.common().take(j as int)[a] == q;
                                if a < j - 1 {
                                    assert(before.common().take(j - 1)[a] == q);
                                }
                            }
                            if before.common().take(j - 1).contains(q) {
                                let a = choose|a: int| 0 <= a < j - 1 && #[trigger] before.common().take(j - 1)[a] == q;
                                assert(before.common().take(j as int)[a] == q);
                            }
                            if q == c {
                                assert(before.common().take(j as int)[j - 1] == q);
                            }
                        }
                        lemma_without_item_twice(before.items(k, q), handle);
                    }
                }
            }
            proof {
                assert(before.common().take(j as int) =~= before.common());
                assert(self.common() =~= before.common());
                assert(self.stack() =~= before.stack());
            }
        } else {
            self.remove_from(kind, handle, mode);
            proof {
                assert(self.common() =~= before.common());
                assert(self.stack() =~= before.stack());
            }
        }
    }

    /// Unregisters `handle` as `kind` from the one mode named `name`.
    fn remove_from(&mut self, kind: ItemKind, handle: u64, name: &String)
        requires
            old(self).wf(),
        ensures
            final(self).wf(),
            forall|k: ItemKind, q: Seq<char>| #[trigger] final(self).items(k, q) == if k == kind && q == name@ {
                without_item(old(self).items(k, q), handle)
            } else {
                old(self).items(k, q)
            },
            final(self).common_modes@ == old(self).common_modes@,
            final(self).mode_stack@ == old(self).mode_stack@,
            final(self).stopped == old(self).stopped,
    {
        match self.mode_index(name) {
            Some(i) => {
                proof {
                    self.lemma_items_at(kind, name@, i as int);
                    lemma_without_item(self.items(kind, name@), handle);
                }
                let l = list_without(self.list_ref(i, kind), handle);
                self.set_list(i, kind, l);
            },
            None => {
                proof {
                    lemma_assoc_index(self.table(kind), name@);
                    assert(without_item(Seq::<u64>::empty(), handle) == Seq::<u64>::empty());
                }
            },
        }
    }

    /// Whether `handle` is registered as `kind` under `mode`; under the
    /// common-modes pseudo-mode, whether some common mode holds it.
    pub fn contains_item(&self, kind: ItemKind, handle: u64, mode: &String) -> (r: bool)
        requires
            self.wf(),
        ensures
            r == self.holds(kind, handle, mode@),
    {
        let common = common_modes_mode_name();
        if *mode == common {
            let mut j: usize = 0;
            while j < self.common_modes.len()
                invariant
                    self.wf(),
                    j <= self.common_modes@.len(),
                    mode@ == common_modes_name(),
                    forall|a: int| 0 <= a < j ==> !#[trigger] self.items(kind, self.common()[a]).contains(handle),
                decreases self.common_modes.len() - j,
            {
                let name = &self.common_modes[j];
                proof {
                    assert(self.common()[j as int] == name@);
                }
                if self.mode_contains(kind, handle, name) {
                    proof {
                        assert(self.common().contains(name@));
                        assert(self.items(kind, name@).contains(handle));
                        assert(self.holds(kind, handle, mode@));
                    }
                    return true;
                }
                j = j + 1;
            }
            proof {
                assert forall|q: Seq<char>| self.common().contains(q) implies !#[trigger] self.items(kind, q).contains(handle) by {
                    let a = choose|a: int| 0 <= a < self.common().len() && #[trigger] self.common()[a] == q;
                    assert(!self.items(kind, self.common()[a]).contains(handle));
                }
            }
            false
        } else {
            self.mode_contains(kind, handle, mode)
        }
    }

    /// Whether the mode named `name` holds `handle` as `kind`.
    fn mode_contains(&self, kind: ItemKind, handle: u64, name: &String) -> (r: bool)
        requires
            self.wf(),
        ensures
            r == self.items(kind, name@).contains(handle),
    {
        match self.mode_index(name) {
            Some(i) => {
                proof {
                    self.lemma_items_at(kind, name@, i as int);
                }
                list_contains(self.list_ref(i, kind), handle)
            },
            None => {
                proof {
                    lemma_assoc_index(self.table(kind), name@);
                }
                false
            },
        }
    }

    /// The items of `kind` registered in `mode`, in the order they were added.
    pub fn registered(&self, kind: ItemKind, mode: &String) -> (r: Vec<u64>)
        requires
            self.wf(),
        ensures
            r@ == self.items(kind, mode@),
    {
        match self.mode_index(mode) {
            Some(i) => {
                proof {
                    self.lemma_items_at(kind, mode@, i as int);
                }
                list_copy(self.list_ref(i, kind))
            },
            None => {
                proof {
                    lemma_assoc_index(self.table(kind), mode@);
                }
                Vec::new()
            },
        }
    }

    /// Makes `mode` common (once) and gives it a registry.
    pub fn add_common_mode(&mut self, mode: &String)
        requires
            old(self).wf(),
        ensures
            final(self).wf(),
            final(self).common() == if old(self).common().contains(mode@) {
                old(self).common()
            } else {
                old(self).common().push(mode@)
            },
            forall|k: ItemKind, q: Seq<char>| #[trigger] final(self).items(k, q) == old(self).items(k, q),
            final(self).stack() == old(self).stack(),
            final(self).is_stopped() == old(self).is_stopped(),
    {
        let ghost before = *self;
        let mut found = false;
        let mut j: usize = 0;
        while j < self.common_modes.len()
            invariant
                j <= self.common_modes@.len(),
                self.common_modes@ == before.common_modes@,
                found ==> before.common().contains(mode@),
                !found ==> forall|a: int| 0 <= a < j ==> #[trigger] before.common()[a] != mode@,
            decreases self.common_modes.len() - j,
        {
            if self.common_modes[j] == *mode {
                found = true;
                proof {
                    assert(before.common()[j as int] == mode@);
                }
            }
            j = j + 1;
        }
        if !found {
            self.common_modes.push(mode.clone());
        }
        let ghost mid = *self;
        let _ = self.ensure_mode(mode);
        proof {
            assert forall|k: ItemKind, q: Seq<char>| #[trigger] mid.items(k, q) == before.items(k, q) by {
                assert(mid.table(k) =~= before.table(k));
            }
            if found {
                assert(before.common().contains(mode@));
                assert(self.common() =~= before.common());
            } else {
                assert(!before.common().contains(mode@)) by {
                    if before.common().contains(mode@) {
                        let a = choose|a: int| 0 <= a < before.common().len() && #[trigger] before.common()[a] == mode@;
                    }
                }
                assert(self.common() =~= before.common().push(mode@));
            }
            assert(self.stack() =~= before.stack());
        }
    }

    /// Asks the loop to stop; the next pass to look returns "stopped".
    pub fn stop(&mut self)
        requires
            old(self).wf(),
        ensures
            final(self).wf(),
            final(self).is_stopped(),
            forall|k: ItemKind, q: Seq<char>| #[trigger] final(self).items(k, q) == old(self).items(k, q),
            final(self).common() == old(self).common(),
            final(self).stack() == old(self).stack(),
    {
        let ghost before = *self;
        self.stopped = true;
        proof {
            assert forall|k: ItemKind, q: Seq<char>| #[trigger] self.items(k, q) == before.items(k, q) by {
                assert(self.table(k) =~= before.table(k));
            }
            assert(self.common() =~= before.common());
            assert(self.stack() =~= before.stack());
        }
    }

    /// Whether a stop was asked for; the request is taken, so the flag is
    /// clear afterwards.
    pub fn take_stop(&mut self) -> (r: bool)
        requires
            old(self).wf(),
        ensures
            final(self).wf(),
            r == old(self).is_stopped(),
            !final(self).is_stopped(),
            forall|k: ItemKind, q: Seq<char>| #[trigger] final(self).items(k, q) == old(self).items(k, q),
            final(self).common() == old(self).common(),
            final(self).stack() == old(self).stack(),
    {
        let ghost before = *self;
        let r = self.stopped;
        self.stopped = false;
        proof {
            assert forall|k: ItemKind, q: Seq<char>| #[trigger] self.items(k, q) == before.items(k, q) by {
                assert(self.table(k) =~= before.table(k));
            }
            assert(self.common() =~= before.common());
            assert(self.stack() =~= before.stack());
        }
        r
    }

    /// Starts a pass through `mode`: gives the mode a registry; then, if a
    /// stop was pending, takes it and does not enter (false), else enters
    /// the mode (true).
    pub fn begin_run(&mut self, mode: &String) -> (entered: bool)
        requires
            old(self).wf(),
        ensures
            final(self).wf(),
            entered == !old(self).is_stopped(),
            !final(self).is_stopped(),
            final(self).stack() == if entered { old(self).stack().push(mode@) } else { old(self).stack() },
            forall|k: ItemKind, q: Seq<char>| #[trigger] final(self).items(k, q) == old(self).items(k, q),
            final(self).common() == old(self).common(),
    {
        let ghost before = *self;
        let _ = self.ensure_mode(mode);
        let ghost mid = *self;
        let entered = if self.stopped {
            self.stopped = false;
            false
        } else {
            self.mode_stack.push(mode.clone());
            true
        };
        proof {
            assert forall|k: ItemKind, q: Seq<char>| #[trigger] self.items(k, q) == before.items(k, q) by {
                assert(self.table(k) =~= mid.table(k));
                assert(mid.items(k, q) == before.items(k, q));
            }
            assert(self.common() =~= before.common());
            if entered {
                assert(self.stack() =~= before.stack().push(mode@));
            } else {
                assert(self.stack() =~= before.stack());
            }
        }
        entered
    }

    /// Leaves the innermost entered mode.
    pub fn leave_mode(&mut self)
        requires
            old(self).wf(),
        ensures
            final(self).wf(),
            final(self).stack() == if old(self).stack().len() > 0 { old(self).stack().drop_last() } else { old(self).stack() },
            final(self).is_stopped() == old(self).is_stopped(),
            forall|k: ItemKind, q: Seq<char>| #[trigger] final(self).items(k, q) == old(self).items(k, q),
            final(self).common() == old(self).common(),
    {
        let ghost before = *self;
        let _ = self.mode_stack.pop();
        proof {
            assert forall|k: ItemKind, q: Seq<char>| #[trigger] self.items(k, q) == before.items(k, q) by {
                assert(self.table(k) =~= before.table(k));
            }
            assert(self.common() =~= before.common());
            if before.stack().len() > 0 {
                assert(self.stack() =~= before.stack().drop_last());
            } else {
                assert(self.stack() =~= before.stack());
            }
        }
    }

    /// The mode reported as current: the innermost entered mode when the
    /// framework names it, the default mode otherwise.
    pub fn current_mode(&self) -> (r: String)
        ensures
            r@ == spec_current_mode(self.stack()),
    {
        let n = self.mode_stack.len();
        if n == 0 {
            return default_mode_name();
        }
        let top = &self.mode_stack[n - 1];
        proof {
            assert(self.stack().last() == top@);
        }
        let d = default_mode_name();
        let t = tracking_mode_name();
        let m = modal_panel_mode_name();
        let u = ui_tracking_mode_name();
        if *top == d || *top == t || *top == m || *top == u {
            top.clone()
        } else {
            d
        }
    }
}


/// Whether `b` is printable ASCII (a space included).
pub open spec fn printable(b: u8) -> bool {
    0x20 <= b <= 0x7e
}

/// The bytes a mode name is read from: those before the first NUL, at most 64.
pub open spec fn name_window(bytes: Seq<u8>) -> Seq<u8> {
    let p = cstr_prefix(bytes);
    if p.len() > 64 { p.take(64) } else { p }
}

/// The mode named by the bytes at a mode argument: their text when it is
/// non-empty printable ASCII, the default mode otherwise.
pub open spec fn spec_mode_name(bytes: Seq<u8>) -> Seq<char> {
    let w = name_window(bytes);
    if w.len() > 0 && (forall|i: int| 0 <= i < w.len() ==> printable(#[trigger] w[i])) && valid_utf8(w) {
        decode_utf8(w)
    } else {
        default_mode()
    }
}

/// The mode named by the bytes at a mode argument.
pub fn mode_name_from_bytes(bytes: &[u8]) -> (r: String)
    ensures
        r@ == spec_mode_name(bytes@),
{
    let p = c_prefix(bytes);
    let n: usize = if p.len() > 64 { 64 } else { p.len() };
    let ghost wv = name_window(bytes@);
    proof {
        if p@.len() <= 64 {
            assert(p@.take(n as int) =~= p@);
        }
    }
    let mut w: Vec<u8> = Vec::new();
    let mut i: usize = 0;
    while i < n
        invariant
            n <= p@.len(),
            wv == p@.take(n as int),
            wv == name_window(bytes@),
            i <= n,
            w@ == p@.take(i as int),
            forall|j: int| 0 <= j < i ==> printable(#[trigger] p@[j]),
        decreases n - i,
    {
        let b = p[i];
        if !(0x20 <= b && b <= 0x7e) {
            proof {
                assert(wv[i as int] == b);
                assert(!printable(wv[i as int]));
            }
            return default_mode_name();
        }
        w.push(b);
        i = i + 1;
        proof {
            assert(w@ =~= p@.take(i as int));
        }
    }
    if n == 0 {
        return default_mode_name();
    }
    proof {
        assert(w@ =~= wv);
        assert forall|j: int| 0 <= j < wv.len() implies printable(#[trigger] wv[j]) by {
            assert(wv[j] == p@[j]);
        }
    }
    match utf8_text(w.as_slice()) {
        Some(t) => t,
        None => default_mode_name(),
    }
}

/// The observers, of those given with their activity masks, that hear of `activity`.
pub open spec fn notified(observers: Seq<(u64, u64)>, activity: u64) -> Seq<u64>
    decreases observers.len(),
{
    if observers.len() == 0 {
        Seq::empty()
    } else if observers.last().1 & activity != 0 {
        notified(observers.drop_last(), activity).push(observers.last().0)
    } else {
        notified(observers.drop_last(), activity)
    }
}

/// The observers to call for `activity`, in registration order: those whose
/// mask shares a bit with it.
pub fn observers_to_notify(observers: &Vec<(u64, u64)>, activity: u64) -> (r: Vec<u64>)
    ensures
        r@ == notified(observers@, activity),
{
    let mut out: Vec<u64> = Vec::new();
    let mut i: usize = 0;
    while i < observers.len()
        invariant
            i <= observers@.len(),
            out@ == notified(observers@.take(i as int), activity),
        decreases observers.len() - i,
    {
        proof {
            assert(observers@.take(i as int + 1).drop_last() =~= observers@.take(i as int));
        }
        let (handle, mask) = observers[i];
        if mask & activity != 0 {
            out.push(handle);
        }
        i = i + 1;
    }
    proof {
        assert(observers@.take(i as int) =~= observers@);
    }
    out
}

/// Whether a run of the default mode is over after a pass with result `code`.
pub fn run_finished(code: i32) -> (r: bool)
    ensures
        r == (code == K_CF_RUNLOOP_RUN_STOPPED || code == K_CF_RUNLOOP_RUN_FINISHED),
{
    code == K_CF_RUNLOOP_RUN_STOPPED || code == K_CF_RUNLOOP_RUN_FINISHED
}

/// Where one pass through a mode stands: named after the last thing it asked for.
#[derive(Clone, Copy, Debug, PartialEq, Eq, Structural)]
pub enum PassPhase {
    /// Nothing asked yet.
    Start,
    /// Observers heard of the entry.
    Entered,
    /// The mode's sources were listed (the answer is their number).
    SourcesListed,
    /// Observers heard that sources come next.
    BeforeSources,
    /// Source `i` was checked (the answer is whether it fired).
    SourceChecked(usize),
    /// The mode's timers were listed (the answer is their number).
    TimersListed,
    /// Observers heard that timers come next.
    BeforeTimers,
    /// Timer `i` was checked (the answer is whether it fired).
    TimerChecked(usize),
    /// Observers heard that the loop is about to wait.
    BeforeWaiting,
    /// The loop waited.
    Waited,
    /// Observers heard that the wait is over.
    AfterWaiting,
    /// The stop request was taken (the answer is whether there was one).
    StopTaken,
    /// Observers heard of the exit; the pass ends with this result.
    Exited(i32),
    /// The pass returned this result.
    Returned(i32),
}

/// What a pass asks of the loop that runs it.
#[derive(Clone, Copy, Debug, PartialEq, Eq, Structural)]
pub enum PassAction {
    /// Call the mode's observers whose mask shares a bit with this activity.
    Notify(u64),
    /// Take the list of the mode's sources; answer with its length.
    ListSources,
    /// Perform source `i` of that list if it is signaled, clearing the
    /// signal; answer whether it was performed.
    CheckSource(usize),
    /// Take the list of the mode's timers; answer with its length.
    ListTimers,
    /// Fire timer `i` of that list if it is due; answer whether it fired.
    CheckTimer(usize),
    /// Wait for input, at most the pass's time limit.
    Wait,
    /// Take the run loop's stop request; answer whether there was one.
    TakeStop,
    /// Leave the mode and return this result.
    Return(i32),
}

/// The loop's answer to the last action.
#[derive(Clone, Copy, Debug, PartialEq, Eq, Structural)]
pub enum PassEvent {
    Ack,
    Count(usize),
    Fired(bool),
    Stopped(bool),
}

pub open spec fn event_count(e: PassEvent) -> usize {
    match e {
        PassEvent::Count(n) => n,
        _ => 0,
    }
}

pub open spec fn event_fired(e: PassEvent) -> bool {
    match e {
        PassEvent::Fired(b) => b,
        _ => false,
    }
}

pub open spec fn event_stopped(e: PassEvent) -> bool {
    match e {
        PassEvent::Stopped(b) => b,
        _ => false,
    }
}

/// One pass through a mode: fire signaled sources, then due timers, then
/// wait, telling the mode's observers at each stage.
#[derive(Clone, Copy, Debug, PartialEq, Eq, Structural)]
pub struct RunPass {
    pub phase: PassPhase,
    /// The length of the list being walked.
    pub count: usize,
    /// Whether the pass ends as soon as one source or timer fired.
    pub return_after_source: bool,
}

pub open spec fn at(p: RunPass, phase: PassPhase, count: usize) -> RunPass {
    RunPass { phase, count, return_after_source: p.return_after_source }
}

/// The next state of pass `p` and what it asks, given the answer `e` to its last action.
pub open spec fn pass_step(p: RunPass, e: PassEvent) -> (RunPass, PassAction) {
    match p.phase {
        PassPhase::Start => (at(p, PassPhase::Entered, p.count), PassAction::Notify(K_CF_RUNLOOP_ENTRY)),
        PassPhase::Entered => (at(p, PassPhase::SourcesListed, p.count), PassAction::ListSources),
        PassPhase::SourcesListed => (at(p, PassPhase::BeforeSources, event_count(e)), PassAction::Notify(K_CF_RUNLOOP_BEFORE_SOURCES)),
        PassPhase::BeforeSources => if p.count > 0 {
            (at(p, PassPhase::SourceChecked(0), p.count), PassAction::CheckSource(0))
        } else {
            (at(p, PassPhase::TimersListed, p.count), PassAction::ListTimers)
        },
        PassPhase::SourceChecked(i) => if event_fired(e) && p.return_after_source {
            (at(p, PassPhase::Exited(K_CF_RUNLOOP_RUN_HANDLED_SOURCE), p.count), PassAction::Notify(K_CF_RUNLOOP_EXIT))
        } else if i + 1 < p.count {
            (at(p, PassPhase::SourceChecked((i + 1) as usize), p.count), PassAction::CheckSource((i + 1) as usize))
        } else {
            (at(p, PassPhase::TimersListed, p.count), PassAction::ListTimers)
        },
        PassPhase::TimersListed => (at(p, PassPhase::BeforeTimers, event_count(e)), PassAction::Notify(K_CF_RUNLOOP_BEFORE_TIMERS)),
        PassPhase::BeforeTimers => if p.count > 0 {
            (at(p, PassPhase::TimerChecked(0), p.count), PassAction::CheckTimer(0))
        } else {
            (at(p, PassPhase::BeforeWaiting, p.count), PassAction::Notify(K_CF_RUNLOOP_BEFORE_WAITING))
        },
        PassPhase::TimerChecked(i) => if event_fired(e) && p.return_after_source {
            (at(p, PassPhase::Exited(K_CF_RUNLOOP_RUN_HANDLED_SOURCE), p.count), PassAction::Notify(K_CF_RUNLOOP_EXIT))
        } else if i + 1 < p.count {
            (at(p, PassPhase::TimerChecked((i + 1) as usize), p.count), PassAction::CheckTimer((i + 1) as usize))
        } else {
            (at(p, PassPhase::BeforeWaiting, p.count), PassAction::Notify(K_CF_RUNLOOP_BEFORE_WAITING))
        },
        PassPhase::BeforeWaiting => (at(p, PassPhase::Waited, p.count), PassAction::Wait),
        PassPhase::Waited => (at(p, PassPhase::AfterWaiting, p.count), PassAction::Notify(K_CF_RUNLOOP_AFTER_WAITING)),
        PassPhase::AfterWaiting => (at(p, PassPhase::StopTaken, p.count), PassAction::TakeStop),
        PassPhase::StopTaken => {
            let code = if event_stopped(e) { K_CF_RUNLOOP_RUN_STOPPED } else { K_CF_RUNLOOP_RUN_TIMED_OUT };
            (at(p, PassPhase::Exited(code), p.count), PassAction::Notify(K_CF_RUNLOOP_EXIT))
        },
        PassPhase::Exited(c) => (at(p, PassPhase::Returned(c), p.count), PassAction::Return(c)),
        PassPhase::Returned(c) => (at(p, PassPhase::Returned(c), p.count), PassAction::Return(c)),
    }
}

/// A pass that has asked nothing yet.
pub open spec fn pass_start(return_after_source: bool) -> RunPass {
    RunPass { phase: PassPhase::Start, count: 0, return_after_source }
}

impl RunPass {
    /// A new pass; with `return_after_source` it ends after the first source
    /// or timer that fires.
    pub fn new(return_after_source: bool) -> (r: RunPass)
        ensures
            r == pass_start(return_after_source),
    {
        RunPass { phase: PassPhase::Start, count: 0, return_after_source }
    }

    /// Takes the answer `e` to the last action and gives the next one.
    pub fn step(&mut self, e: PassEvent) -> (a: PassAction)
        ensures
            (*final(self), a) == pass_step(*old(self), e),
    {
        let p = *self;
        let fired = match e {
            PassEvent::Fired(b) => b,
            _ => false,
        };
        let (phase, count, a) = match p.phase {
            PassPhase::Start => (PassPhase::Entered, p.count, PassAction::Notify(K_CF_RUNLOOP_ENTRY)),
            PassPhase::Entered => (PassPhase::SourcesListed, p.count, PassAction::ListSources),
            PassPhase::SourcesListed => {
                let n = match e {
                    PassEvent::Count(n) => n,
                    _ => 0,
                };
                (PassPhase::BeforeSources, n, PassAction::Notify(K_CF_RUNLOOP_BEFORE_SOURCES))
            },
            PassPhase::BeforeSources => if p.count > 0 {
                (PassPhase::SourceChecked(0), p.count, PassAction::CheckSource(0))
            } else {
                (PassPhase::TimersListed, p.count, PassAction::ListTimers)
            },
            PassPhase::SourceChecked(i) => if fired && p.return_after_source {
                (PassPhase::Exited(K_CF_RUNLOOP_RUN_HANDLED_SOURCE), p.count, PassAction::Notify(K_CF_RUNLOOP_EXIT))
            } else if i < p.count && p.count - i > 1 {
                (PassPhase::SourceChecked(i + 1), p.count, PassAction::CheckSource(i + 1))
            } else {
                (PassPhase::TimersListed, p.count, PassAction::ListTimers)
            },
            PassPhase::TimersListed => {
                let n = match e {
                    PassEvent::Count(n) => n,
                    _ => 0,
                };
                (PassPhase::BeforeTimers, n, PassAction::Notify(K_CF_RUNLOOP_BEFORE_TIMERS))
            },
            PassPhase::BeforeTimers => if p.count > 0 {
                (PassPhase::TimerChecked(0), p.count, PassAction::CheckTimer(0))
            } else {
                (PassPhase::BeforeWaiting, p.count, PassAction::Notify(K_CF_RUNLOOP_BEFORE_WAITING))
            },
            PassPhase::TimerChecked(i) => if fired && p.return_after_source {
                (PassPhase::Exited(K_CF_RUNLOOP_RUN_HANDLED_SOURCE), p.count, PassAction::Notify(K_CF_RUNLOOP_EXIT))
            } else if i < p.count && p.count - i > 1 {
                (PassPhase::TimerChecked(i + 1), p.count, PassAction::CheckTimer(i + 1))
            } else {
                (PassPhase::BeforeWaiting, p.count, PassAction::Notify(K_CF_RUNLOOP_BEFORE_WAITING))
            },
            PassPhase::BeforeWaiting => (PassPhase::Waited, p.count, PassAction::Wait),
            PassPhase::Waited => (PassPhase::AfterWaiting, p.count, PassAction::Notify(K_CF_RUNLOOP_AFTER_WAITING)),
            PassPhase::AfterWaiting => (PassPhase::StopTaken, p.count, PassAction::TakeStop),
            PassPhase::StopTaken => {
                let stopped = match e {
                    PassEvent::Stopped(b) => b,
                    _ => false,
                };
                let code = if stopped { K_CF_RUNLOOP_RUN_STOPPED } else { K_CF_RUNLOOP_RUN_TIMED_OUT };
                (PassPhase::Exited(code), p.count, PassAction::Notify(K_CF_RUNLOOP_EXIT))
            },
            PassPhase::Exited(c) => (PassPhase::Returned(c), p.count, PassAction::Return(c)),
            PassPhase::Returned(c) => (PassPhase::Returned(c), p.count, PassAction::Return(c)),
        };
        self.phase = phase;
        self.count = count;
        a
    }
}


/// After registering an item under a mode, asking under that mode finds it.
pub proof fn lemma_add_then_holds(before: RunLoop, after: RunLoop, kind: ItemKind, handle: u64, mode: Seq<char>)
    requires
        before.wf(),
        RunLoop::added(before, after, kind, handle, mode),
    ensures
        after.holds(kind, handle, mode),
{
    if mode == common_modes_name() {
        let q = before.common()[0];
        assert(before.common().contains(q));
        assert(after.items(kind, q) == with_item(before.items(kind, q), handle));
        lemma_with_item_twice(before.items(kind, q), handle);
        assert(after.common().contains(q));
    } else {
        assert(after.items(kind, mode) == with_item(before.items(kind, mode), handle));
        lemma_with_item_twice(before.items(kind, mode), handle);
    }
}

/// After unregistering an item under a mode, asking under that mode does
/// not find it.
pub proof fn lemma_remove_then_lacks(before: RunLoop, after: RunLoop, kind: ItemKind, handle: u64, mode: Seq<char>)
    requires
        RunLoop::removed(before, after, kind, handle, mode),
    ensures
        !after.holds(kind, handle, mode),
{
    if mode == common_modes_name() {
        assert forall|q: Seq<char>| after.common().contains(q) implies !#[trigger] after.items(kind, q).contains(handle) by {
            assert(after.items(kind, q) == without_item(before.items(kind, q), handle));
            lemma_without_item(before.items(kind, q), handle);
        }
    } else {
        assert(after.items(kind, mode) == without_item(before.items(kind, mode), handle));
        lemma_without_item(before.items(kind, mode), handle);
    }
}

/// An item registered under the common-modes pseudo-mode is in every mode
/// that was common at the time.
pub proof fn lemma_common_registration_reaches(before: RunLoop, after: RunLoop, kind: ItemKind, handle: u64, q: Seq<char>)
    requires
        RunLoop::added(before, after, kind, handle, common_modes_name()),
        before.common().contains(q),
    ensures
        after.items(kind, q).contains(handle),
{
    assert(after.items(kind, q) == with_item(before.items(kind, q), handle));
    lemma_with_item_twice(before.items(kind, q), handle);
}

/// An item registered under one named mode changes no other mode.
pub proof fn lemma_registration_stays_in_its_mode(
    before: RunLoop,
    after: RunLoop,
    kind: ItemKind,
    handle: u64,
    mode: Seq<char>,
    k: ItemKind,
    q: Seq<char>,
)
    requires
        RunLoop::added(before, after, kind, handle, mode),
        mode != common_modes_name(),
        q != mode,
    ensures
        after.items(k, q) == before.items(k, q),
{
    assert(after.items(k, q) == before.items(k, q));
}

/// Registering the same item twice leaves the loop as registering it once.
pub proof fn lemma_add_twice(
    before: RunLoop,
    mid: RunLoop,
    after: RunLoop,
    kind: ItemKind,
    handle: u64,
    mode: Seq<char>,
    k: ItemKind,
    q: Seq<char>,
)
    requires
        RunLoop::added(before, mid, kind, handle, mode),
        RunLoop::added(mid, after, kind, handle, mode),
    ensures
        after.items(k, q) == mid.items(k, q),
{
    assert(after.items(k, q) == mid.items(k, q)) by {
        lemma_with_item_twice(before.items(k, q), handle);
    }
}

/// Entering a mode and leaving it restores the stack of entered modes.
pub proof fn lemma_enter_then_leave(before: Seq<Seq<char>>, entered: Seq<Seq<char>>, left: Seq<Seq<char>>, mode: Seq<char>)
    requires
        entered == before.push(mode),
        left == (if entered.len() > 0 { entered.drop_last() } else { entered }),
    ensures
        left == before,
{
    assert(before.push(mode).drop_last() =~= before);
}

/// Every pass begins by telling observers of the entry.
pub proof fn lemma_pass_opens_with_entry(return_after_source: bool, e: PassEvent)
    ensures
        pass_step(pass_start(return_after_source), e).1 == PassAction::Notify(K_CF_RUNLOOP_ENTRY),
{
}

/// A pass returns only once observers heard of the exit, and it waits only
/// right after telling them it is about to.
pub proof fn lemma_pass_order(p: RunPass, e: PassEvent)
    ensures
        pass_step(p, e).1 is Return ==> (p.phase is Exited || p.phase is Returned),
        pass_step(p, e).0.phase is Exited ==> pass_step(p, e).1 == PassAction::Notify(K_CF_RUNLOOP_EXIT),
        pass_step(p, e).0.phase is Returned ==> (p.phase is Exited || p.phase is Returned),
        pass_step(p, e).1 == PassAction::Wait ==> p.phase == PassPhase::BeforeWaiting,
        pass_step(p, e).0.phase == PassPhase::BeforeWaiting ==> pass_step(p, e).1 == PassAction::Notify(K_CF_RUNLOOP_BEFORE_WAITING),
{
}

/// A pass ends early, with "handled source", only when it was asked to and
/// a source or timer fired; then observers hear of the exit and it returns.
pub proof fn lemma_pass_ends_early(p: RunPass, e: PassEvent)
    ensures
        pass_step(p, e).0.phase == PassPhase::Exited(K_CF_RUNLOOP_RUN_HANDLED_SOURCE) ==> p.return_after_source && event_fired(e)
            && (p.phase is SourceChecked || p.phase is TimerChecked),
        (p.phase is SourceChecked || p.phase is TimerChecked) && p.return_after_source && event_fired(e) ==> {
            &&& pass_step(p, e).1 == PassAction::Notify(K_CF_RUNLOOP_EXIT)
            &&& pass_step(pass_step(p, e).0, PassEvent::Ack).1 == PassAction::Return(K_CF_RUNLOOP_RUN_HANDLED_SOURCE)
        },
{
}

/// How far a pass is from its end, stage by stage.
pub open spec fn pass_rank(p: RunPass) -> int {
    match p.phase {
        PassPhase::Start => 14,
        PassPhase::Entered => 13,
        PassPhase::SourcesListed => 12,
        PassPhase::BeforeSources => 11,
        PassPhase::SourceChecked(_) => 10,
        PassPhase::TimersListed => 9,
        PassPhase::BeforeTimers => 8,
        PassPhase::TimerChecked(_) => 7,
        PassPhase::BeforeWaiting => 6,
        PassPhase::Waited => 5,
        PassPhase::AfterWaiting => 4,
        PassPhase::StopTaken => 3,
        PassPhase::Exited(_) => 2,
        PassPhase::Returned(_) => 1,
    }
}

/// How many items of the list being walked are left.
pub open spec fn pass_left(p: RunPass) -> int {
    match p.phase {
        PassPhase::SourceChecked(i) => p.count - i,
        PassPhase::TimerChecked(i) => p.count - i,
        _ => 0,
    }
}

/// Every step of a pass that has not returned moves it closer to its end,
/// so each pass returns after finitely many steps.
pub proof fn lemma_pass_progress(p: RunPass, e: PassEvent)
    requires
        !(p.phase is Returned),
    ensures
        pass_rank(pass_step(p, e).0) < pass_rank(p) || (pass_rank(pass_step(p, e).0) == pass_rank(p)
            && 0 <= pass_left(pass_step(p, e).0) < pass_left(p)),
{
}

} // verus!
