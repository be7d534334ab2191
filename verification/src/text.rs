//! Byte and string helpers shared by the parsers: NUL-terminated names,
//! UTF-8 decoding, and prefix/suffix tests on strings.

use vstd::prelude::*;
use vstd::utf8::*;

verus! {

broadcast use vstd::string::group_string_axioms;

/// The bytes of `s` before its first NUL (all of `s` when it holds none).
pub open spec fn cstr_prefix(s: Seq<u8>) -> Seq<u8>
    decreases s.len(),
{
    if s.len() == 0 {
        s
    } else if s[0] == 0 {
        Seq::empty()
    } else {
        seq![s[0]] + cstr_prefix(s.drop_first())
    }
}

/// What a name stored as bytes reads as: the UTF-8 text before the first
/// NUL, or the empty string when those bytes are not UTF-8.
pub open spec fn name_text(s: Seq<u8>) -> Seq<char> {
    if valid_utf8(cstr_prefix(s)) { decode_utf8(cstr_prefix(s)) } else { Seq::empty() }
}

proof fn lemma_cstr_prefix_step(s: Seq<u8>, i: int)
    requires
        0 <= i < s.len(),
        forall|j: int| 0 <= j < i ==> s[j] != 0,
    ensures
        s[i] != 0 ==> cstr_prefix(s) == s.take(i + 1) + cstr_prefix(s.skip(i + 1)),
        s[i] == 0 ==> cstr_prefix(s) == s.take(i),
    decreases i,
{
    if i == 0 {
        assert(s.take(1) =~= seq![s[0]]);
        assert(s.skip(1) =~= s.drop_first());
        assert(s.take(0) =~= Seq::<u8>::empty());
    } else {
        let t = s.drop_first();
        assert forall|j: int| 0 <= j < i - 1 implies t[j] != 0 by {
            assert(t[j] == s[j + 1]);
        }
        lemma_cstr_prefix_step(t, i - 1);
        assert(s.take(i + 1) =~= seq![s[0]] + t.take(i));
        assert(s.take(i) =~= seq![s[0]] + t.take(i - 1));
        assert(t.skip(i) =~= s.skip(i + 1));
    }
}

proof fn lemma_cstr_prefix_all(s: Seq<u8>)
    requires
        forall|j: int| 0 <= j < s.len() ==> s[j] != 0,
    ensures
        cstr_prefix(s) == s,
    decreases s.len(),
{
    if s.len() > 0 {
        let t = s.drop_first();
        assert forall|j: int| 0 <= j < t.len() implies t[j] != 0 by {
            assert(t[j] == s[j + 1]);
        }
        lemma_cstr_prefix_all(t);
        assert(s =~= seq![s[0]] + t);
    }
}

/// The bytes before the first NUL.
pub fn c_prefix(bytes: &[u8]) -> (r: Vec<u8>)
    ensures
        r@ == cstr_prefix(bytes@),
{
    let mut out: Vec<u8> = Vec::new();
    let mut i: usize = 0;
    while i < bytes.len()
        invariant
            i <= bytes@.len(),
            out@ == bytes@.take(i as int),
            forall|j: int| 0 <= j < i ==> bytes@[j] != 0,
        decreases bytes.len() - i,
    {
        if bytes[i] == 0 {
            proof {
                lemma_cstr_prefix_step(bytes@, i as int);
            }
            return out;
        }
        out.push(bytes[i]);
        i = i + 1;
        proof {
            assert(out@ =~= bytes@.take(i as int));
        }
    }
    proof {
        lemma_cstr_prefix_all(bytes@);
        assert(bytes@.take(i as int) =~= bytes@);
    }
    out
}

/// std's `str::from_utf8`, owned: the text of `bytes` when they are valid UTF-8.
#[verifier::external_body]
pub(crate) fn utf8_text(bytes: &[u8]) -> (r: Option<String>)
    ensures
        r is Some <==> valid_utf8(bytes@),
        r matches Some(s) ==> s@ == decode_utf8(bytes@),
{
    std::str::from_utf8(bytes).ok().map(|s| s.to_string())
}

/// The name stored in a fixed-size, NUL-padded byte field.
pub fn fixed_name(bytes: &[u8]) -> (r: String)
    ensures
        r@ == name_text(bytes@),
{
    let p = c_prefix(bytes);
    match utf8_text(p.as_slice()) {
        Some(s) => s,
        None => String::new(),
    }
}

/// `s` followed by `suffix`.
pub(crate) fn with_suffix(s: String, suffix: &str) -> (r: String)
    ensures
        r@ == s@ + suffix@,
{
    s.concat(suffix)
}

/// An owned copy of a string slice.
pub fn owned(s: &str) -> (r: String)
    ensures
        r@ == s@,
{
    s.to_string()
}

/// Whether `s` begins with `prefix`.
pub fn starts_with(s: &str, prefix: &str) -> (r: bool)
    ensures
        r == (prefix@.len() <= s@.len() && s@.take(prefix@.len() as int) == prefix@),
{
    let n = s.unicode_len();
    let m = prefix.unicode_len();
    if m > n {
        return false;
    }
    let mut i: usize = 0;
    while i < m
        invariant
            m == prefix@.len(),
            n == s@.len(),
            m <= n,
            i <= m,
            forall|j: int| 0 <= j < i ==> s@[j] == prefix@[j],
        decreases m - i,
    {
        if s.get_char(i) != prefix.get_char(i) {
            proof {
                assert(s@.take(m as int)[i as int] != prefix@[i as int]);
            }
            return false;
        }
        i = i + 1;
    }
    proof {
        assert(s@.take(m as int) =~= prefix@);
    }
    true
}

/// Whether `s` ends with `suffix`.
pub fn ends_with(s: &str, suffix: &str) -> (r: bool)
    ensures
        r == (suffix@.len() <= s@.len() && s@.skip(s@.len() - suffix@.len()) == suffix@),
{
    let n = s.unicode_len();
    let m = suffix.unicode_len();
    if m > n {
        return false;
    }
    let off = n - m;
    let mut i: usize = 0;
    while i < m
        invariant
            m == suffix@.len(),
            n == s@.len(),
            off + m == n,
            i <= m,
            forall|j: int| 0 <= j < i ==> s@[off + j] == suffix@[j],
        decreases m - i,
    {
        if s.get_char(off + i) != suffix.get_char(i) {
            proof {
                assert(s@.skip(off as int)[i as int] != suffix@[i as int]);
            }
            return false;
        }
        i = i + 1;
    }
    proof {
        assert(s@.skip(off as int) =~= suffix@);
    }
    true
}

/// `s` without `prefix`, when it begins with it.
pub fn strip_prefix(s: &str, prefix: &str) -> (r: Option<String>)
    ensures
        r is Some <==> (prefix@.len() <= s@.len() && s@.take(prefix@.len() as int) == prefix@),
        r matches Some(rest) ==> rest@ == s@.skip(prefix@.len() as int),
{
    if starts_with(s, prefix) {
        let n = s.unicode_len();
        let m = prefix.unicode_len();
        Some(owned(s.substring_char(m, n)))
    } else {
        None
    }
}

/// The index of the last `c` in `s`.
pub open spec fn last_index_of(s: Seq<char>, c: char) -> Option<int>
    decreases s.len(),
{
    if s.len() == 0 {
        None
    } else if s.last() == c {
        Some(s.len() - 1)
    } else {
        last_index_of(s.drop_last(), c)
    }
}

/// The text after the last `sep` (all of `s` when it holds none): the first
/// item of `s.rsplit(sep)`.
pub open spec fn after_last(s: Seq<char>, sep: char) -> Seq<char> {
    match last_index_of(s, sep) {
        Some(i) => s.skip(i + 1),
        None => s,
    }
}

/// The first piece that `s.rsplit(sep)` yields.
pub fn rsplit_first(s: &str, sep: char) -> (r: String)
    ensures
        r@ == after_last(s@, sep),
{
    let n = s.unicode_len();
    let mut i: usize = n;
    proof {
        assert(s@.take(n as int) =~= s@);
    }
    while i > 0
        invariant
            n == s@.len(),
            i <= n,
            last_index_of(s@, sep) == last_index_of(s@.take(i as int), sep),
        decreases i,
    {
        if s.get_char(i - 1) == sep {
            proof {
                assert(s@.take(i as int).last() == sep);
            }
            return owned(s.substring_char(i, n));
        }
        proof {
            assert(s@.take(i as int).drop_last() =~= s@.take(i - 1));
        }
        i = i - 1;
    }
    proof {
        assert(s@.take(0) =~= Seq::<char>::empty());
    }
    owned(s)
}

} // verus!
