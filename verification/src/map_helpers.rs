use vstd::prelude::*;

use core::ops::Range;

verus! {

/// Helper return value that reports a failure to the BPF program.
pub const HELPER_ERROR: u64 = 0xffff_ffff_ffff_ffff;

/// A runtime array map: its place in the backing store and its key and value
/// sizes.
#[derive(Clone, Copy, Debug, Eq, PartialEq)]
pub struct BpfMapMetadata {
    pub backing_offset: u16,
    pub backing_len: u16,
    pub key_size: u32,
    pub value_size: u32,
}

/// The map-relative byte range of array entry `entry`: entries are
/// `value_size` bytes each, keys are four bytes, and the entry must lie
/// within the map's backing.
pub open spec fn entry_range(map: BpfMapMetadata, entry: u32) -> Option<(int, int)> {
    let start = entry as int * map.value_size as int;
    let end = start + map.value_size;
    if map.key_size != 4 || end > map.backing_len {
        None
    } else {
        Some((start, end))
    }
}

/// The range of a backing store of `store_len` bytes that holds array entry
/// `entry`.
pub open spec fn store_range(map: BpfMapMetadata, entry: u32, store_len: int) -> Option<(int, int)> {
    match entry_range(map, entry) {
        None => None,
        Some((start, end)) => if map.backing_offset + end > store_len {
            None
        } else {
            Some((map.backing_offset + start, map.backing_offset + end))
        },
    }
}

/// `store` with the bytes from `at` on replaced by `value`.
pub open spec fn splice(store: Seq<u8>, at: int, value: Seq<u8>) -> Seq<u8> {
    store.take(at) + value + store.skip(at + value.len())
}

/// The map-relative byte range of an array entry.
pub fn value_range(map: &BpfMapMetadata, entry: u32) -> (r: Option<Range<usize>>)
    ensures
        match entry_range(*map, entry) {
            None => r is None,
            Some((start, end)) => r matches Some(range) && range.start == start && range.end
                == end,
        },
{
    if map.key_size != 4 {
        return None;
    }
    let value_size = map.value_size as usize;
    let offset = match (entry as usize).checked_mul(value_size) {
        Some(offset) => offset,
        None => return None,
    };
    let end = match offset.checked_add(value_size) {
        Some(end) => end,
        None => return None,
    };
    if end > map.backing_len as usize {
        return None;
    }
    Some(offset..end)
}

/// The bytes of an array entry in the backing store.
pub fn lookup<'a>(map: &BpfMapMetadata, entry: u32, backing: &'a [u8]) -> (r: Option<&'a [u8]>)
    ensures
        match store_range(*map, entry, backing@.len() as int) {
            None => r is None,
            Some((start, end)) => r matches Some(bytes) && bytes@ == backing@.subrange(start, end),
        },
{
    let range = match value_range(map, entry) {
        Some(range) => range,
        None => return None,
    };
    let start = map.backing_offset as usize;
    if start + range.end > backing.len() {
        return None;
    }
    Some(vstd::slice::slice_subrange(backing, start + range.start, start + range.end))
}

/// Replaces an array entry with `value`, which must be exactly one entry
/// long; a refused update leaves the backing store unchanged.
pub fn update(map: &BpfMapMetadata, entry: u32, value: &[u8], backing: &mut [u8]) -> (r: Result<
    (),
    (),
>)
    ensures
        final(backing)@.len() == old(backing)@.len(),
        match store_range(*map, entry, old(backing)@.len() as int) {
            Some((start, _)) if value@.len() == map.value_size => r is Ok && final(backing)@
                == splice(old(backing)@, start, value@),
            _ => r is Err && final(backing)@ == old(backing)@,
        },
{
    if value.len() != map.value_size as usize {
        return Err(());
    }
    let range = match value_range(map, entry) {
        Some(range) => range,
        None => return Err(()),
    };
    let start = map.backing_offset as usize;
    if start + range.end > backing.len() {
        return Err(());
    }
    let first = start + range.start;
    let mut i: usize = 0;
    while i < value.len()
        invariant
            value@.len() == range.end - range.start,
            first + value@.len() <= backing@.len(),
            first + value@.len() <= backing.len(),
            backing@.len() == old(backing)@.len(),
            i <= value@.len(),
            forall|j: int| 0 <= j < first ==> backing@[j] == old(backing)@[j],
            forall|j: int|
                first + value@.len() <= j < backing@.len() ==> backing@[j] == old(backing)@[j],
            forall|j: int| 0 <= j < i ==> backing@[first + j] == value@[j],
            forall|k: int| first + i <= k < first + value@.len() ==> backing@[k] == old(backing)@[k],
        decreases value@.len() - i,
    {
        backing[first + i] = value[i];
        i += 1;
    }
    assert(backing@ =~= splice(old(backing)@, first as int, value@));
    Ok(())
}

/// Looking up an entry after updating it gives the value written.
pub proof fn law_lookup_after_update(map: BpfMapMetadata, entry: u32, value: Seq<u8>, store: Seq<u8>)
    requires
        value.len() == map.value_size,
        store_range(map, entry, store.len() as int) is Some,
    ensures
        ({
            let (start, end) = store_range(map, entry, store.len() as int).unwrap();
            let after = splice(store, start, value);
            &&& after.len() == store.len()
            &&& store_range(map, entry, after.len() as int) == Some((start, end))
            &&& after.subrange(start, end) == value
        }),
{
    let (start, end) = store_range(map, entry, store.len() as int).unwrap();
    let after = splice(store, start, value);
    assert(after.subrange(start, end) =~= value);
}

/// Updating one entry leaves every other entry of the same map as it was.
pub proof fn law_update_leaves_other_entries(
    map: BpfMapMetadata,
    entry: u32,
    other: u32,
    value: Seq<u8>,
    store: Seq<u8>,
)
    requires
        value.len() == map.value_size,
        entry != other,
        store_range(map, entry, store.len() as int) is Some,
        store_range(map, other, store.len() as int) is Some,
    ensures
        ({
            let (start, _) = store_range(map, entry, store.len() as int).unwrap();
            let (other_start, other_end) = store_range(map, other, store.len() as int).unwrap();
            splice(store, start, value).subrange(other_start, other_end) == store.subrange(
                other_start,
                other_end,
            )
        }),
{
    let (start, end) = store_range(map, entry, store.len() as int).unwrap();
    let (other_start, other_end) = store_range(map, other, store.len() as int).unwrap();
    let size = map.value_size as int;
    let e = entry as int;
    let o = other as int;
    assert(e < o ==> e * size + size <= o * size) by (nonlinear_arith)
        requires
            size >= 0,
    ;
    assert(o < e ==> o * size + size <= e * size) by (nonlinear_arith)
        requires
            size >= 0,
    ;
    assert(splice(store, start, value).subrange(other_start, other_end) =~= store.subrange(
        other_start,
        other_end,
    ));
}

} // verus!
