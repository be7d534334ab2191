//! The header every Core Foundation object starts with: its type ID and
//! reference count, and how a release decides an object's end.

use vstd::prelude::*;

verus! {

/// Type IDs, stable and matching Darwin's layout.
pub const CF_STRING_TYPE_ID: u64 = 7;
pub const CF_DICTIONARY_TYPE_ID: u64 = 18;
pub const CF_ARRAY_TYPE_ID: u64 = 19;
pub const CF_DATA_TYPE_ID: u64 = 20;
pub const CF_BOOLEAN_TYPE_ID: u64 = 21;
pub const CF_NUMBER_TYPE_ID: u64 = 22;
pub const CF_RUNLOOP_TYPE_ID: u64 = 23;
pub const CF_RUNLOOP_SOURCE_TYPE_ID: u64 = 24;
pub const CF_RUNLOOP_TIMER_TYPE_ID: u64 = 25;

/// The count after taking a reference (wrapping at 2^32).
pub open spec fn retained(c: u32) -> u32 {
    if c == u32::MAX { 0 } else { (c + 1) as u32 }
}

/// The count after dropping a reference (wrapping below 0).
pub open spec fn released(c: u32) -> u32 {
    if c == 0 { u32::MAX } else { (c - 1) as u32 }
}

/// Taking a reference and dropping it again leaves the count as it was,
/// and that release does not free a live object (count at least 1).
pub proof fn lemma_retain_release(c: u32)
    requires
        c >= 1,
    ensures
        released(retained(c)) == c,
        retained(c) != 1,
{
}

/// A new object (count 1) is freed by its first release.
pub proof fn lemma_new_then_release()
    ensures
        released(1) == 0,
{
}

/// The header of a CF object.
#[derive(Debug)]
pub struct CFRuntimeBase {
    /// ObjC isa pointer for toll-free bridging (0 when not bridged).
    pub isa: u64,
    /// Type ID in the low 16 bits, flags above.
    pub info: u64,
    /// Reference count; a new object holds 1.
    pub refcount: u32,
}

impl CFRuntimeBase {
    /// A header for a new object of `type_id` (its low 16 bits), count 1.
    pub fn new(type_id: u64) -> (r: CFRuntimeBase)
        ensures
            r.isa == 0,
            r.info == type_id % 0x10000,
            r.refcount == 1,
    {
        let info = type_id & 0xFFFF;
        assert(type_id & 0xFFFF == type_id % 0x10000) by (bit_vector);
        CFRuntimeBase { isa: 0, info, refcount: 1 }
    }

    pub fn type_id(&self) -> (r: u64)
        ensures
            r == self.info % 0x10000,
    {
        let info = self.info;
        assert(info & 0xFFFF == info % 0x10000) by (bit_vector);
        info & 0xFFFF
    }

    /// Take a reference (the count wraps at 2^32).
    pub fn retain(&mut self)
        ensures
            final(self).refcount == retained(old(self).refcount),
            final(self).isa == old(self).isa,
            final(self).info == old(self).info,
    {
        self.refcount = self.refcount.wrapping_add(1);
    }

    /// Drop a reference; true when it was the last one (the count was 1)
    /// and the object is to be freed. The count wraps below 0.
    pub fn release(&mut self) -> (r: bool)
        ensures
            r == (old(self).refcount == 1),
            final(self).refcount == released(old(self).refcount),
            final(self).isa == old(self).isa,
            final(self).info == old(self).info,
    {
        let old_count = self.refcount;
        self.refcount = self.refcount.wrapping_sub(1);
        old_count == 1
    }
}

/// What a freed object is dropped as.
#[derive(Debug, Clone, Copy, PartialEq, Eq, Structural)]
pub enum CFKind {
    String,
    Dictionary,
    Array,
    Data,
    /// Any other type: only the header is dropped.
    Base,
}

/// The kind a type ID frees as.
pub fn cf_kind(type_id: u64) -> (r: CFKind)
    ensures
        r == (if type_id == CF_STRING_TYPE_ID { CFKind::String }
            else if type_id == CF_DICTIONARY_TYPE_ID { CFKind::Dictionary }
            else if type_id == CF_ARRAY_TYPE_ID { CFKind::Array }
            else if type_id == CF_DATA_TYPE_ID { CFKind::Data }
            else { CFKind::Base }),
{
    if type_id == CF_STRING_TYPE_ID {
        CFKind::String
    } else if type_id == CF_DICTIONARY_TYPE_ID {
        CFKind::Dictionary
    } else if type_id == CF_ARRAY_TYPE_ID {
        CFKind::Array
    } else if type_id == CF_DATA_TYPE_ID {
        CFKind::Data
    } else {
        CFKind::Base
    }
}

/// Whether two CF objects are equal: the same object; else both non-null
/// strings with equal bytes (other types never compare equal).
pub fn cf_equal(same_pointer: bool, both_non_null: bool, type1: u64, type2: u64, bytes1: &[u8], bytes2: &[u8]) -> (r: bool)
    ensures
        r == (same_pointer || (both_non_null && type1 == type2 && type1 == CF_STRING_TYPE_ID && bytes1@ == bytes2@)),
{
    if same_pointer {
        return true;
    }
    if !both_non_null || type1 != type2 || type1 != CF_STRING_TYPE_ID {
        return false;
    }
    bytes_equal(bytes1, bytes2)
}

fn bytes_equal(a: &[u8], b: &[u8]) -> (r: bool)
    ensures
        r == (a@ == b@),
{
    if a.len() != b.len() {
        return false;
    }
    let mut i: usize = 0;
    while i < a.len()
        invariant
            i <= a@.len() == b@.len(),
            forall|k: int| 0 <= k < i ==> a@[k] == b@[k],
        decreases a.len() - i,
    {
        if a[i] != b[i] {
            return false;
        }
        i = i + 1;
    }
    assert(a@ =~= b@);
    true
}

} // verus!
