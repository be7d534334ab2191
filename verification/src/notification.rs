//! A notification center's observer table: who registered for which name
//! and object, who hears a post, and what a removal takes away.

use vstd::prelude::*;

verus! {

/// One registration: `observer` wants `selector` sent for posts of `name`
/// (any name when `None`) about `object` (any object when 0).
pub struct NotificationObserver {
    pub observer: u64,
    pub selector: u64,
    pub name: Option<String>,
    pub object: u64,
}

/// A registration as plain values: observer, selector, name, object.
pub type EntryView = (u64, u64, Option<Seq<char>>, u64);

pub open spec fn opt_text(o: Option<String>) -> Option<Seq<char>> {
    match o {
        Some(s) => Some(s@),
        None => None,
    }
}

pub open spec fn entry_view(e: NotificationObserver) -> EntryView {
    (e.observer, e.selector, opt_text(e.name), e.object)
}

/// Whether registration `e` hears a post of `name` about `object`: its name
/// is unset or equal, and its object or the post's is unset, or they are equal.
pub open spec fn hears(e: EntryView, name: Option<Seq<char>>, object: u64) -> bool {
    &&& (e.2 is None || e.2 == name)
    &&& (e.3 == 0 || object == 0 || e.3 == object)
}

/// The (observer, selector) pairs that hear a post, in registration order.
pub open spec fn recipients_of(s: Seq<EntryView>, name: Option<Seq<char>>, object: u64) -> Seq<(u64, u64)>
    decreases s.len(),
{
    if s.len() == 0 {
        Seq::empty()
    } else if hears(s.last(), name, object) {
        recipients_of(s.drop_last(), name, object).push((s.last().0, s.last().1))
    } else {
        recipients_of(s.drop_last(), name, object)
    }
}

/// Whether a removal for `observer`, `name` (any when `None`) and `object`
/// (any when 0) takes registration `e` away.
pub open spec fn removal_hits(e: EntryView, observer: u64, name: Option<Seq<char>>, object: u64) -> bool {
    &&& e.0 == observer
    &&& (name is None || e.2 == name)
    &&& (object == 0 || e.3 == object)
}

/// The registrations a removal leaves, in their order.
pub open spec fn kept_after(s: Seq<EntryView>, observer: u64, name: Option<Seq<char>>, object: u64) -> Seq<EntryView>
    decreases s.len(),
{
    if s.len() == 0 {
        Seq::empty()
    } else if removal_hits(s.last(), observer, name, object) {
        kept_after(s.drop_last(), observer, name, object)
    } else {
        kept_after(s.drop_last(), observer, name, object).push(s.last())
    }
}

/// Whether two optional names are the same.
fn same_name(a: &Option<String>, b: &Option<String>) -> (r: bool)
    ensures
        r == (opt_text(*a) == opt_text(*b)),
{
    match (a, b) {
        (None, None) => true,
        (Some(x), Some(y)) => *x == *y,
        _ => false,
    }
}

/// A copy of a registration.
fn copy_entry(e: &NotificationObserver) -> (r: NotificationObserver)
    ensures
        entry_view(r) == entry_view(*e),
{
    let name = match &e.name {
        Some(s) => Some(s.clone()),
        None => None,
    };
    NotificationObserver { observer: e.observer, selector: e.selector, name, object: e.object }
}

/// The observers registered with a notification center.
pub struct NotificationCenter {
    observers: Vec<NotificationObserver>,
}

impl NotificationCenter {
    /// The registrations, oldest first.
    pub closed spec fn entries(&self) -> Seq<EntryView> {
        Seq::new(self.observers@.len(), |i: int| entry_view(self.observers@[i]))
    }

    /// A center with no observers.
    pub fn new() -> (r: NotificationCenter)
        ensures
            r.entries() == Seq::<EntryView>::empty(),
    {
        let r = NotificationCenter { observers: Vec::new() };
        proof {
            assert(r.entries() =~= Seq::<EntryView>::empty());
        }
        r
    }

    /// Registers `observer` for posts of `name` (any when `None`) about
    /// `object` (any when 0), to be sent `selector`.
    pub fn add_observer(&mut self, observer: u64, selector: u64, name: Option<String>, object: u64)
        ensures
            final(self).entries() == old(self).entries().push((observer, selector, opt_text(name), object)),
    {
        let ghost before = self.entries();
        let ghost nv = opt_text(name);
        self.observers.push(NotificationObserver { observer, selector, name, object });
        proof {
            assert(self.entries() =~= before.push((observer, selector, nv, object)));
        }
    }

    /// Takes away the registrations of `observer` that match `name` (any
    /// when `None`) and `object` (any when 0).
    pub fn remove_observer_matching(&mut self, observer: u64, name: &Option<String>, object: u64)
        ensures
            final(self).entries() == kept_after(old(self).entries(), observer, opt_text(*name), object),
    {
        let ghost before = self.entries();
        let ghost nv = opt_text(*name);
        let mut out: Vec<NotificationObserver> = Vec::new();
        let mut i: usize = 0;
        while i < self.observers.len()
            invariant
                before == self.entries(),
                i <= self.observers@.len(),
                nv == opt_text(*name),
                Seq::new(out@.len(), |j: int| entry_view(out@[j])) == kept_after(before.take(i as int), observer, nv, object),
            decreases self.observers.len() - i,
        {
            let ghost prev = out@;
            proof {
                assert(before.take(i as int + 1).drop_last() =~= before.take(i as int));
                assert(before.take(i as int + 1).last() == entry_view(self.observers@[i as int]));
            }
            let e = &self.observers[i];
            let hit = e.observer == observer && (name.is_none() || same_name(&e.name, name)) && (object == 0 || e.object == object);
            if !hit {
                out.push(copy_entry(e));
                proof {
                    assert(Seq::new(out@.len(), |j: int| entry_view(out@[j])) =~= Seq::new(prev.len(), |j: int| entry_view(prev[j])).push(
                        entry_view(self.observers@[i as int]),
                    ));
                }
            }
            i = i + 1;
        }
        proof {
            assert(before.take(i as int) =~= before);
        }
        self.observers = out;
        proof {
            assert(self.entries() =~= kept_after(before, observer, nv, object));
        }
    }

    /// Takes away every registration of `observer`.
    pub fn remove_observer(&mut self, observer: u64)
        ensures
            final(self).entries() == kept_after(old(self).entries(), observer, None, 0),
    {
        self.remove_observer_matching(observer, &None, 0);
    }

    /// The (observer, selector) pairs to send a post of `name` about
    /// `object`, in registration order.
    pub fn recipients(&self, name: &Option<String>, object: u64) -> (r: Vec<(u64, u64)>)
        ensures
            r@ == recipients_of(self.entries(), opt_text(*name), object),
    {
        let ghost all = self.entries();
        let ghost nv = opt_text(*name);
        let mut out: Vec<(u64, u64)> = Vec::new();
        let mut i: usize = 0;
        while i < self.observers.len()
            invariant
                all == self.entries(),
                i <= self.observers@.len(),
                nv == opt_text(*name),
                out@ == recipients_of(all.take(i as int), nv, object),
            decreases self.observers.len() - i,
        {
            proof {
                assert(all.take(i as int + 1).drop_last() =~= all.take(i as int));
                assert(all.take(i as int + 1).last() == entry_view(self.observers@[i as int]));
            }
            let e = &self.observers[i];
            let name_ok = e.name.is_none() || same_name(&e.name, name);
            let object_ok = e.object == 0 || object == 0 || e.object == object;
            if name_ok && object_ok {
                out.push((e.observer, e.selector));
            }
            i = i + 1;
        }
        proof {
            assert(all.take(i as int) =~= all);
        }
        out
    }
}

/// After registering, a post the registration matches is sent to it, last.
pub proof fn lemma_registered_observer_hears(
    before: Seq<EntryView>,
    observer: u64,
    selector: u64,
    reg_name: Option<Seq<char>>,
    reg_object: u64,
    name: Option<Seq<char>>,
    object: u64,
)
    requires
        reg_name is None || reg_name == name,
        reg_object == 0 || object == 0 || reg_object == object,
    ensures
        recipients_of(before.push((observer, selector, reg_name, reg_object)), name, object)
            == recipients_of(before, name, object).push((observer, selector)),
{
    let after = before.push((observer, selector, reg_name, reg_object));
    assert(after.drop_last() =~= before);
}

/// A registration no post of `name` about `object` matches changes nothing
/// about who hears that post.
pub proof fn lemma_unmatched_registration_silent(
    before: Seq<EntryView>,
    observer: u64,
    selector: u64,
    reg_name: Option<Seq<char>>,
    reg_object: u64,
    name: Option<Seq<char>>,
    object: u64,
)
    requires
        !hears((observer, selector, reg_name, reg_object), name, object),
    ensures
        recipients_of(before.push((observer, selector, reg_name, reg_object)), name, object)
            == recipients_of(before, name, object),
{
    let after = before.push((observer, selector, reg_name, reg_object));
    assert(after.drop_last() =~= before);
}

/// Once every registration of `observer` is taken away, no post reaches it.
pub proof fn lemma_removed_observer_hears_nothing(s: Seq<EntryView>, observer: u64, name: Option<Seq<char>>, object: u64)
    ensures
        forall|k: int| 0 <= k < recipients_of(kept_after(s, observer, None, 0), name, object).len()
            ==> #[trigger] recipients_of(kept_after(s, observer, None, 0), name, object)[k].0 != observer,
    decreases s.len(),
{
    if s.len() > 0 {
        let t = s.drop_last();
        lemma_removed_observer_hears_nothing(t, observer, name, object);
        let rest = kept_after(t, observer, None, 0);
        let r = recipients_of(rest, name, object);
        if !removal_hits(s.last(), observer, None, 0) {
            let kept = rest.push(s.last());
            assert(kept_after(s, observer, None, 0) == kept);
            assert(kept.drop_last() =~= rest);
            assert(kept.last() == s.last());
            assert(s.last().0 != observer);
            if hears(s.last(), name, object) {
                let r2 = r.push((s.last().0, s.last().1));
                assert(recipients_of(kept, name, object) == r2);
                assert forall|k: int| 0 <= k < r2.len() implies #[trigger] r2[k].0 != observer by {
                    if k < r.len() {
                        assert(r2[k] == r[k]);
                    }
                }
            } else {
                assert(recipients_of(kept, name, object) == r);
            }
        } else {
            assert(kept_after(s, observer, None, 0) == rest);
        }
    }
}

/// A removal keeps every registration of other observers, in order.
pub proof fn lemma_removal_spares_others(s: Seq<EntryView>, observer: u64, name: Option<Seq<char>>, object: u64, other: u64)
    requires
        other != observer,
    ensures
        kept_after(s, observer, name, object).filter(|e: EntryView| e.0 == other) == s.filter(|e: EntryView| e.0 == other),
    decreases s.len(),
{
    reveal(Seq::filter);
    if s.len() > 0 {
        lemma_removal_spares_others(s.drop_last(), observer, name, object, other);
        let rest = kept_after(s.drop_last(), observer, name, object);
        if !removal_hits(s.last(), observer, name, object) {
            let kept = rest.push(s.last());
            assert(kept.drop_last() =~= rest);
        }
    }
}

} // verus!
