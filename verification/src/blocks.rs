//! The block store that a commit carries.
//!
//! A store is a header and then one section for each block. The header and
//! every section are led by their length. A section holds the content
//! identifier of its block and, behind it, the block itself. Content
//! identifiers are self-delimiting, so a section that begins with the bytes
//! of an identifier is the section of that identifier.

use vstd::prelude::*;

verus! {

/// The greatest number that seven more bits can be put in front of without
/// leaving `u64`.
pub const ROOM_FOR_SEVEN_BITS: u64 = 0x01FF_FFFF_FFFF_FFFF;

/// The number written at `at`, and the place behind it. A number is written
/// seven bits to a byte, the low bits first, and the top bit is set in every
/// byte but the last. There is none where the bytes end before the number
/// does, or where the number is greater than `u64::MAX`.
pub open spec fn number_at(bytes: Seq<u8>, at: int) -> Option<(nat, int)>
    decreases bytes.len() - at,
{
    if at < 0 || at >= bytes.len() {
        None
    } else if bytes[at] < 128 {
        Some((bytes[at] as nat, at + 1))
    } else {
        match number_at(bytes, at + 1) {
            Some((high, end)) => if (bytes[at] - 128) + 128 * high <= u64::MAX {
                Some((((bytes[at] - 128) + 128 * high) as nat, end))
            } else {
                None
            },
            None => None,
        }
    }
}

/// `bytes` begins with `prefix`.
pub open spec fn begins_with(bytes: Seq<u8>, prefix: Seq<u8>) -> bool {
    prefix.len() <= bytes.len() && bytes.subrange(0, prefix.len() as int) == prefix
}

/// The block under `cid` among the sections from `at` on: what follows
/// `cid` in the first section that begins with it. There is none where no
/// section does, or where a length before that section cannot be read or
/// reaches over the end.
pub open spec fn block_from(bytes: Seq<u8>, at: int, cid: Seq<u8>) -> Option<Seq<u8>>
    decreases bytes.len() - at,
    via block_from_goes_on
{
    match number_at(bytes, at) {
        None => None,
        Some((n, start)) => if n > bytes.len() - start {
            None
        } else if begins_with(bytes.subrange(start, start + n), cid) {
            Some(bytes.subrange(start + cid.len(), start + n))
        } else {
            block_from(bytes, start + n, cid)
        },
    }
}

#[via_fn]
proof fn block_from_goes_on(bytes: Seq<u8>, at: int, cid: Seq<u8>) {
    lemma_number_ends_later(bytes, at);
}

/// The block under `cid` in `store`: the header is passed over, and the
/// sections behind it are searched.
pub open spec fn block_of(store: Seq<u8>, cid: Seq<u8>) -> Option<Seq<u8>> {
    match number_at(store, 0) {
        None => None,
        Some((n, start)) => if n > store.len() - start {
            None
        } else {
            block_from(store, start + n, cid)
        },
    }
}

/// The content identifier that a link names: a link is a zero byte and then
/// the identifier, which is not empty.
pub open spec fn cid_of_link(link: Seq<u8>) -> Option<Seq<u8>> {
    if link.len() > 1 && link[0] == 0 {
        Some(link.skip(1))
    } else {
        None
    }
}

/// The block that `link` names in `store`.
pub open spec fn block_of_link(store: Seq<u8>, link: Seq<u8>) -> Option<Seq<u8>> {
    match cid_of_link(link) {
        Some(cid) => block_of(store, cid),
        None => None,
    }
}

/// The bytes that `r` holds, if it holds any.
pub open spec fn opt_bytes(r: Option<Vec<u8>>) -> Option<Seq<u8>> {
    match r {
        Some(v) => Some(v@),
        None => None,
    }
}

/// A number ends behind the place where it begins, and within the bytes.
pub proof fn lemma_number_ends_later(bytes: Seq<u8>, at: int)
    ensures
        match number_at(bytes, at) {
            Some((n, end)) => 0 <= at < end <= bytes.len() && n <= u64::MAX,
            None => true,
        },
    decreases bytes.len() - at,
{
    if 0 <= at < bytes.len() && bytes[at] >= 128 {
        lemma_number_ends_later(bytes, at + 1);
    }
}

/// Where a number cannot be read at `to`, and every byte from `at` up to
/// `to` announces another byte, none can be read at `at`.
proof fn lemma_no_number(bytes: Seq<u8>, at: int, to: int)
    requires
        0 <= at <= to <= bytes.len(),
        forall|k: int| at <= k < to ==> bytes[k] >= 128,
        number_at(bytes, to).is_none(),
    ensures
        number_at(bytes, at).is_none(),
    decreases to - at,
{
    if at < to {
        lemma_no_number(bytes, at + 1, to);
    }
}

/// Reads the number written at `at`.
pub fn read_number(bytes: &[u8], at: usize) -> (r: Option<(u64, usize)>)
    ensures
        match r {
            Some((n, end)) => number_at(bytes@, at as int) == Some((n as nat, end as int)),
            None => number_at(bytes@, at as int).is_none(),
        },
{
    if at >= bytes.len() {
        return None;
    }
    let mut last: usize = at;
    while last < bytes.len() && bytes[last] >= 128
        invariant
            at <= last <= bytes@.len(),
            forall|k: int| at <= k < last ==> bytes@[k] >= 128,
        decreases bytes@.len() - last,
    {
        last += 1;
    }
    if last >= bytes.len() {
        proof {
            lemma_no_number(bytes@, at as int, last as int);
        }
        return None;
    }
    let mut n: u64 = bytes[last] as u64;
    let mut i: usize = last;
    while i > at
        invariant
            at <= i <= last < bytes@.len(),
            forall|k: int| at <= k < last ==> bytes@[k] >= 128,
            number_at(bytes@, i as int) == Some((n as nat, last + 1)),
        decreases i,
    {
        i -= 1;
        if n > ROOM_FOR_SEVEN_BITS {
            proof {
                lemma_no_number(bytes@, at as int, i as int);
            }
            return None;
        }
        n = (bytes[i] - 128) as u64 + 128 * n;
    }
    Some((n, last + 1))
}

/// Whether the bytes of `bytes` from `from` up to `to` begin with `prefix`.
pub fn range_begins_with(bytes: &[u8], from: usize, to: usize, prefix: &[u8]) -> (b: bool)
    requires
        from <= to <= bytes@.len(),
    ensures
        b == begins_with(bytes@.subrange(from as int, to as int), prefix@),
{
    let n: usize = prefix.len();
    if to - from < n {
        return false;
    }
    let ghost range = bytes@.subrange(from as int, to as int);
    let mut i: usize = 0;
    while i < n
        invariant
            i <= n,
            n == prefix@.len(),
            from <= to <= bytes@.len(),
            n <= to - from,
            range == bytes@.subrange(from as int, to as int),
            forall|k: int| 0 <= k < i ==> range[k] == prefix@[k],
        decreases n - i,
    {
        if bytes[from + i] != prefix[i] {
            assert(range.subrange(0, n as int)[i as int] != prefix@[i as int]);
            return false;
        }
        i += 1;
    }
    assert(range.subrange(0, n as int) =~= prefix@);
    true
}

/// The bytes of `bytes` from `from` up to `to`.
pub fn copy_range(bytes: &[u8], from: usize, to: usize) -> (v: Vec<u8>)
    requires
        from <= to <= bytes@.len(),
    ensures
        v@ == bytes@.subrange(from as int, to as int),
{
    let mut v: Vec<u8> = Vec::new();
    let mut i: usize = from;
    while i < to
        invariant
            from <= i <= to <= bytes@.len(),
            v@ == bytes@.subrange(from as int, i as int),
        decreases to - i,
    {
        v.push(bytes[i]);
        assert(v@ =~= bytes@.subrange(from as int, i + 1));
        i += 1;
    }
    v
}

/// Reads the block under `cid` out of `store`.
pub fn find_block(store: &[u8], cid: &[u8]) -> (r: Option<Vec<u8>>)
    ensures
        opt_bytes(r) == block_of(store@, cid@),
{
    let mut at: usize = match read_number(store, 0) {
        None => {
            return None;
        },
        Some((n, start)) => {
            proof {
                lemma_number_ends_later(store@, 0);
            }
            if n > (store.len() - start) as u64 {
                return None;
            }
            start + n as usize
        },
    };
    loop
        invariant
            at <= store@.len(),
            block_of(store@, cid@) == block_from(store@, at as int, cid@),
        decreases store@.len() - at,
    {
        let (n, start) = match read_number(store, at) {
            None => {
                return None;
            },
            Some(read) => read,
        };
        proof {
            lemma_number_ends_later(store@, at as int);
        }
        if n > (store.len() - start) as u64 {
            return None;
        }
        let end: usize = start + n as usize;
        if range_begins_with(store, start, end, cid) {
            return Some(copy_range(store, start + cid.len(), end));
        }
        at = end;
    }
}

/// Reads the block that `link` names out of `store`.
pub fn find_linked_block(store: &[u8], link: &[u8]) -> (r: Option<Vec<u8>>)
    ensures
        opt_bytes(r) == block_of_link(store@, link@),
{
    if link.len() > 1 && link[0] == 0 {
        let cid = copy_range(link, 1, link.len());
        assert(cid@ =~= link@.skip(1));
        find_block(store, &cid)
    } else {
        None
    }
}

} // verus!
