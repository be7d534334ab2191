//! Clipboard history: each new clipboard text (trimmed, not empty, not the
//! one seen last, not already listed) goes first; past the limit, the
//! oldest entry that is not pinned is dropped.

use vstd::prelude::*;
use crate::text::{owned, with_suffix};

verus! {

broadcast use vstd::string::group_string_axioms;

// ---- Whitespace and trimming ----

/// Unicode White_Space, which `char::is_whitespace` and `str::trim` use.
pub open spec fn is_white(c: char) -> bool {
    let u = c as u32;
    (0x9 <= u <= 0xD) || u == 0x20 || u == 0x85 || u == 0xA0 || u == 0x1680 || (0x2000 <= u <= 0x200A)
        || u == 0x2028 || u == 0x2029 || u == 0x202F || u == 0x205F || u == 0x3000
}

/// The number of whitespace characters `s` starts with.
pub open spec fn leading_white(s: Seq<char>) -> nat
    decreases s.len(),
{
    if s.len() > 0 && is_white(s[0]) { 1 + leading_white(s.drop_first()) } else { 0 }
}

/// The number of whitespace characters `s` ends with.
pub open spec fn trailing_white(s: Seq<char>) -> nat
    decreases s.len(),
{
    if s.len() > 0 && is_white(s.last()) { 1 + trailing_white(s.drop_last()) } else { 0 }
}

/// `s` without its leading and trailing whitespace.
pub open spec fn trimmed(s: Seq<char>) -> Seq<char> {
    let t = s.skip(leading_white(s) as int);
    t.take(t.len() - trailing_white(t))
}

fn char_is_white(c: char) -> (r: bool)
    ensures
        r == is_white(c),
{
    let u = c as u32;
    (0x9 <= u && u <= 0xD) || u == 0x20 || u == 0x85 || u == 0xA0 || u == 0x1680 || (0x2000 <= u && u <= 0x200A)
        || u == 0x2028 || u == 0x2029 || u == 0x202F || u == 0x205F || u == 0x3000
}

proof fn lemma_leading_step(s: Seq<char>, i: int)
    requires
        0 <= i <= s.len(),
        forall|k: int| 0 <= k < i ==> is_white(#[trigger] s[k]),
    ensures
        leading_white(s) == i + leading_white(s.skip(i)),
    decreases i,
{
    if i > 0 {
        let t = s.drop_first();
        assert forall|k: int| 0 <= k < i - 1 implies is_white(#[trigger] t[k]) by {
            assert(t[k] == s[k + 1]);
        }
        lemma_leading_step(t, i - 1);
        assert(t.skip(i - 1) =~= s.skip(i));
    } else {
        assert(s.skip(0) =~= s);
    }
}

proof fn lemma_leading_bound(s: Seq<char>)
    ensures
        leading_white(s) <= s.len(),
    decreases s.len(),
{
    if s.len() > 0 && is_white(s[0]) {
        lemma_leading_bound(s.drop_first());
    }
}

proof fn lemma_trailing_step(s: Seq<char>, j: int)
    requires
        0 <= j <= s.len(),
        forall|k: int| j <= k < s.len() ==> is_white(#[trigger] s[k]),
    ensures
        trailing_white(s) == (s.len() - j) + trailing_white(s.take(j)),
    decreases s.len() - j,
{
    if j < s.len() {
        let t = s.drop_last();
        assert forall|k: int| j <= k < t.len() implies is_white(#[trigger] t[k]) by {
            assert(t[k] == s[k]);
        }
        lemma_trailing_step(t, j);
        assert(t.take(j) =~= s.take(j));
    } else {
        assert(s.take(j) =~= s);
    }
}

proof fn lemma_trailing_bound(s: Seq<char>)
    ensures
        trailing_white(s) <= s.len(),
    decreases s.len(),
{
    if s.len() > 0 && is_white(s.last()) {
        lemma_trailing_bound(s.drop_last());
    }
}

/// `s` without leading and trailing whitespace, as `str::trim` gives it.
pub fn trim_text(s: &str) -> (r: String)
    ensures
        r@ == trimmed(s@),
{
    let n = s.unicode_len();
    let mut i: usize = 0;
    while i < n && char_is_white(s.get_char(i))
        invariant
            n == s@.len(),
            i <= n,
            forall|k: int| 0 <= k < i ==> is_white(#[trigger] s@[k]),
        decreases n - i,
    {
        i = i + 1;
    }
    proof {
        lemma_leading_step(s@, i as int);
        if i < n {
            assert(!is_white(s@.skip(i as int)[0]));
        }
        assert(leading_white(s@.skip(i as int)) == 0);
    }
    let ghost t = s@.skip(i as int);
    let mut j: usize = n;
    while j > i && char_is_white(s.get_char(j - 1))
        invariant
            n == s@.len(),
            i <= j <= n,
            forall|k: int| j <= k < n ==> is_white(#[trigger] s@[k]),
        decreases j,
    {
        j = j - 1;
    }
    proof {
        let jt = j - i;
        assert forall|k: int| jt <= k < t.len() implies is_white(#[trigger] t[k]) by {
            assert(t[k] == s@[k + i]);
        }
        lemma_trailing_step(t, jt);
        if jt > 0 {
            assert(t.take(jt).last() == s@[j - 1]);
        }
        assert(trailing_white(t.take(jt)) == 0);
        assert(t.take(jt) =~= s@.subrange(i as int, j as int));
    }
    s.substring_char(i, j).to_string()
}

// ---- Decimal text ----

/// The decimal digit character of `d` (0..=9).
pub open spec fn digit_char(d: nat) -> char {
    (d + 48) as char
}

/// The decimal text of `n`, as `Display` writes an integer.
pub open spec fn decimal(n: nat) -> Seq<char>
    decreases n,
{
    if n < 10 { seq![digit_char(n)] } else { decimal(n / 10).push(digit_char(n % 10)) }
}

/// The one-character text of the decimal digit `d`.
fn digit_text(d: u64) -> (r: &'static str)
    requires
        d < 10,
    ensures
        r@ == seq![digit_char(d as nat)],
{
    proof {
        reveal_strlit("0"); reveal_strlit("1"); reveal_strlit("2"); reveal_strlit("3"); reveal_strlit("4");
        reveal_strlit("5"); reveal_strlit("6"); reveal_strlit("7"); reveal_strlit("8"); reveal_strlit("9");
    }
    let r = if d == 0 { "0" } else if d == 1 { "1" } else if d == 2 { "2" } else if d == 3 { "3" }
        else if d == 4 { "4" } else if d == 5 { "5" } else if d == 6 { "6" } else if d == 7 { "7" }
        else if d == 8 { "8" } else { "9" };
    assert(r@ =~= seq![digit_char(d as nat)]);
    r
}

/// The decimal text of `n`.
fn decimal_text(n: u64) -> (r: String)
    ensures
        r@ == decimal(n as nat),
    decreases n,
{
    if n < 10 {
        owned(digit_text(n))
    } else {
        let head = decimal_text(n / 10);
        let r = head.concat(digit_text(n % 10));
        assert(r@ =~= decimal(n as nat));
        r
    }
}

// ---- The history ----

/// One clipboard entry: its text, when it was taken (in seconds of a
/// monotonic clock) and whether it is pinned.
#[derive(Debug)]
pub struct ClipboardEntry {
    pub text: String,
    pub timestamp: u64,
    pub pinned: bool,
}

/// How long ago, at time `now`, an entry taken at `taken` was: "now" under
/// 5 s, then whole seconds, minutes, hours or days with their unit.
pub open spec fn spec_time_ago(taken: u64, now: u64) -> Seq<char> {
    let secs: nat = if now >= taken { (now - taken) as nat } else { 0 };
    if secs < 5 {
        "now"@
    } else if secs < 60 {
        decimal(secs) + "s"@
    } else if secs < 3600 {
        decimal(secs / 60) + "m"@
    } else if secs < 86400 {
        decimal(secs / 3600) + "h"@
    } else {
        decimal(secs / 86400) + "d"@
    }
}

impl ClipboardEntry {
    pub fn time_ago(&self, now: u64) -> (r: String)
        ensures
            r@ == spec_time_ago(self.timestamp, now),
    {
        let secs = now.saturating_sub(self.timestamp);
        if secs < 5 {
            "now".to_string()
        } else if secs < 60 {
            with_suffix(decimal_text(secs), "s")
        } else if secs < 3600 {
            with_suffix(decimal_text(secs / 60), "m")
        } else if secs < 86400 {
            with_suffix(decimal_text(secs / 3600), "h")
        } else {
            with_suffix(decimal_text(secs / 86400), "d")
        }
    }
}

/// An entry as (text, timestamp, pinned).
pub open spec fn entry_view(e: ClipboardEntry) -> (Seq<char>, u64, bool) {
    (e.text@, e.timestamp, e.pinned)
}

pub open spec fn entries_view(v: Seq<ClipboardEntry>) -> Seq<(Seq<char>, u64, bool)> {
    Seq::new(v.len(), |i: int| entry_view(v[i]))
}

/// The position of the last entry that is not pinned.
pub open spec fn last_unpinned(s: Seq<(Seq<char>, u64, bool)>) -> Option<int>
    decreases s.len(),
{
    if s.len() == 0 {
        None
    } else if !s.last().2 {
        Some(s.len() - 1)
    } else {
        last_unpinned(s.drop_last())
    }
}

/// Drop the last unpinned entry while there are more than `max`.
pub open spec fn evict(s: Seq<(Seq<char>, u64, bool)>, max: nat) -> Seq<(Seq<char>, u64, bool)>
    decreases s.len(),
{
    if s.len() <= max {
        s
    } else {
        match last_unpinned(s) {
            Some(p) => if 0 <= p < s.len() { evict(s.remove(p), max) } else { s },
            None => s,
        }
    }
}

/// Whether some entry has this text.
pub open spec fn has_text(s: Seq<(Seq<char>, u64, bool)>, t: Seq<char>) -> bool {
    exists|i: int| 0 <= i < s.len() && #[trigger] s[i].0 == t
}

/// The entries and last-seen text after polling `content` at `now`.
pub open spec fn spec_poll(entries: Seq<(Seq<char>, u64, bool)>, last: Seq<char>, max: nat,
    content: Option<Seq<char>>, now: u64) -> (Seq<(Seq<char>, u64, bool)>, Seq<char>) {
    match content {
        None => (entries, last),
        Some(c) => {
            let t = trimmed(c);
            if t.len() == 0 || t == last {
                (entries, last)
            } else if has_text(entries, t) {
                (entries, t)
            } else {
                (evict(seq![(t, now, false)] + entries, max), t)
            }
        },
    }
}

/// The clipboard history, newest first.
pub struct ClipboardHistory {
    pub entries: Vec<ClipboardEntry>,
    last_content: String,
    max_entries: usize,
}

proof fn lemma_last_unpinned_bound(s: Seq<(Seq<char>, u64, bool)>)
    ensures
        last_unpinned(s) matches Some(p) ==> 0 <= p < s.len() && !s[p].2,
        last_unpinned(s) is None ==> forall|k: int| 0 <= k < s.len() ==> s[k].2,
    decreases s.len(),
{
    if s.len() > 0 && s.last().2 {
        lemma_last_unpinned_bound(s.drop_last());
        assert forall|k: int| 0 <= k < s.len() - 1 implies s[k] == s.drop_last()[k] by {}
    }
}

impl ClipboardHistory {
    /// The text seen last.
    pub closed spec fn last_content(&self) -> Seq<char> {
        self.last_content@
    }

    /// The entries, newest first.
    pub closed spec fn entry_list(&self) -> Seq<(Seq<char>, u64, bool)> {
        entries_view(self.entries@)
    }

    /// The most entries kept (unless all are pinned).
    pub closed spec fn max_entries(&self) -> nat {
        self.max_entries as nat
    }

    pub fn new() -> (r: ClipboardHistory)
        ensures
            r.entry_list().len() == 0,
            r.last_content() == Seq::<char>::empty(),
            r.max_entries() == 200,
    {
        ClipboardHistory { entries: Vec::new(), last_content: String::new(), max_entries: 200 }
    }

    /// Take in what the clipboard holds now (`None`: it could not be read),
    /// at time `now`.
    pub fn poll(&mut self, content: Option<String>, now: u64)
        ensures
            ({
                let (e, l) = spec_poll(old(self).entry_list(), old(self).last_content(),
                    old(self).max_entries(), match content { Some(c) => Some(c@), None => None }, now);
                &&& final(self).entry_list() == e
                &&& final(self).last_content() == l
            }),
            final(self).max_entries() == old(self).max_entries(),
    {
        let c = match content {
            Some(c) => c,
            None => { return; },
        };
        let t = trim_text(c.as_str());
        if t.unicode_len() == 0 || t == self.last_content {
            return;
        }
        self.last_content = t.clone();
        let mut i: usize = 0;
        while i < self.entries.len()
            invariant
                i <= self.entries@.len(),
                forall|k: int| 0 <= k < i ==> #[trigger] self.entries@[k].text@ != t@,
                self.entries@ == old(self).entries@,
                self.last_content@ == t@,
                self.max_entries == old(self).max_entries,
                t@ == trimmed(c@),
                content == Some(c),
                t@.len() != 0,
                t@ != old(self).last_content@,
            decreases self.entries.len() - i,
        {
            if self.entries[i].text == t {
                proof {
                    let ev = entries_view(self.entries@);
                    assert(ev[i as int].0 == t@);
                    assert(has_text(ev, t@));
                }
                return;
            }
            i = i + 1;
        }
        proof {
            assert forall|k: int| 0 <= k < self.entries@.len() implies #[trigger] entries_view(self.entries@)[k].0 != t@ by {
                assert(self.entries@[k].text@ != t@);
            }
        }
        let ghost tv = t@;
        let ghost before = entries_view(self.entries@);
        self.entries.insert(0, ClipboardEntry { text: t, timestamp: now, pinned: false });
        proof {
            assert(entries_view(self.entries@) =~= seq![(tv, now, false)] + before);
        }
        let ghost start = entries_view(self.entries@);
        while self.entries.len() > self.max_entries
            invariant
                evict(entries_view(self.entries@), self.max_entries as nat) == evict(start, self.max_entries as nat),
                self.max_entries == old(self).max_entries,
                self.last_content@ == tv,
            ensures
                entries_view(self.entries@) == evict(start, self.max_entries as nat),
                self.max_entries == old(self).max_entries,
                self.last_content@ == tv,
            decreases self.entries.len(),
        {
            let ghost cur = entries_view(self.entries@);
            let mut pos: usize = self.entries.len();
            let mut found = false;
            let mut k: usize = self.entries.len();
            while k > 0
                invariant
                    k <= self.entries@.len(),
                    cur == entries_view(self.entries@),
                    !found ==> forall|m: int| k <= m < self.entries@.len() ==> #[trigger] self.entries@[m].pinned,
                    found ==> pos < self.entries@.len() && last_unpinned(cur) == Some(pos as int),
                decreases k,
            {
                if !found {
                    if !self.entries[k - 1].pinned {
                        pos = k - 1;
                        found = true;
                        proof {
                            lemma_last_unpinned_suffix(cur, pos as int);
                        }
                    }
                }
                k = k - 1;
            }
            if !found {
                proof {
                    lemma_last_unpinned_none(cur);
                    assert(evict(cur, self.max_entries as nat) == cur);
                }
                break;
            }
            self.entries.remove(pos);
            proof {
                assert(entries_view(self.entries@) =~= cur.remove(pos as int));
            }
        }
    }
}

proof fn lemma_last_unpinned_suffix(s: Seq<(Seq<char>, u64, bool)>, p: int)
    requires
        0 <= p < s.len(),
        !s[p].2,
        forall|m: int| p < m < s.len() ==> #[trigger] s[m].2,
    ensures
        last_unpinned(s) == Some(p),
    decreases s.len(),
{
    if p < s.len() - 1 {
        let t = s.drop_last();
        assert forall|m: int| p < m < t.len() implies #[trigger] t[m].2 by {
            assert(t[m] == s[m]);
        }
        lemma_last_unpinned_suffix(t, p);
    }
}

proof fn lemma_last_unpinned_none(s: Seq<(Seq<char>, u64, bool)>)
    requires
        forall|m: int| 0 <= m < s.len() ==> #[trigger] s[m].2,
    ensures
        last_unpinned(s) is None,
    decreases s.len(),
{
    if s.len() > 0 {
        let t = s.drop_last();
        assert forall|m: int| 0 <= m < t.len() implies #[trigger] t[m].2 by {
            assert(t[m] == s[m]);
        }
        lemma_last_unpinned_none(t);
    }
}

/// The history at start: empty, then polled once with what the clipboard
/// holds.
pub fn initial_history(content: Option<String>, now: u64) -> (r: ClipboardHistory)
    ensures
        ({
            let (e, l) = spec_poll(Seq::empty(), Seq::empty(), 200, match content { Some(c) => Some(c@), None => None }, now);
            &&& r.entry_list() == e
            &&& r.last_content() == l
        }),
        r.max_entries() == 200,
{
    let mut h = ClipboardHistory::new();
    proof {
        assert(h.entry_list() =~= Seq::<(Seq<char>, u64, bool)>::empty());
    }
    h.poll(content, now);
    h
}

/// Whether no two entries have the same text.
pub open spec fn distinct_texts(s: Seq<(Seq<char>, u64, bool)>) -> bool {
    forall|i: int, j: int| 0 <= i < j < s.len() ==> #[trigger] s[i].0 != #[trigger] s[j].0
}

proof fn lemma_remove_distinct(s: Seq<(Seq<char>, u64, bool)>, p: int)
    requires
        0 <= p < s.len(),
        distinct_texts(s),
    ensures
        distinct_texts(s.remove(p)),
{
    let r = s.remove(p);
    assert forall|i: int, j: int| 0 <= i < j < r.len() implies #[trigger] r[i].0 != #[trigger] r[j].0 by {
        let si = if i < p { i } else { i + 1 };
        let sj = if j < p { j } else { j + 1 };
        assert(r[i] == s[si]);
        assert(r[j] == s[sj]);
    }
}

proof fn lemma_evict_distinct(s: Seq<(Seq<char>, u64, bool)>, max: nat)
    requires
        distinct_texts(s),
    ensures
        distinct_texts(evict(s, max)),
    decreases s.len(),
{
    if s.len() > max {
        if let Some(p) = last_unpinned(s) {
            if 0 <= p < s.len() {
                lemma_remove_distinct(s, p);
                lemma_evict_distinct(s.remove(p), max);
            }
        }
    }
}

/// Polling keeps the entries free of duplicate texts.
pub proof fn lemma_poll_keeps_texts_distinct(entries: Seq<(Seq<char>, u64, bool)>, last: Seq<char>, max: nat,
    content: Option<Seq<char>>, now: u64)
    requires
        distinct_texts(entries),
    ensures
        distinct_texts(spec_poll(entries, last, max, content, now).0),
{
    if let Some(c) = content {
        let t = trimmed(c);
        if !(t.len() == 0 || t == last) && !has_text(entries, t) {
            let s = seq![(t, now, false)] + entries;
            assert forall|i: int, j: int| 0 <= i < j < s.len() implies #[trigger] s[i].0 != #[trigger] s[j].0 by {
                if i == 0 {
                    assert(s[j] == entries[j - 1]);
                    if s[j].0 == t {
                        assert(entries[j - 1].0 == t);
                    }
                } else {
                    assert(s[i] == entries[i - 1]);
                    assert(s[j] == entries[j - 1]);
                }
            }
            lemma_evict_distinct(s, max);
        }
    }
}

/// After eviction there are at most `max` entries, unless every entry left
/// is pinned.
pub proof fn lemma_evict_bound(s: Seq<(Seq<char>, u64, bool)>, max: nat)
    ensures
        evict(s, max).len() <= max || forall|k: int| 0 <= k < evict(s, max).len() ==> #[trigger] evict(s, max)[k].2,
    decreases s.len(),
{
    lemma_last_unpinned_bound(s);
    if s.len() > max {
        match last_unpinned(s) {
            Some(p) => {
                lemma_evict_bound(s.remove(p), max);
            },
            None => {
                assert(evict(s, max) == s);
                assert forall|k: int| 0 <= k < s.len() implies #[trigger] s[k].2 by {}
            },
        }
    }
}

} // verus!
