//! Splitting a ranged download into chunks.
use vstd::prelude::*;
use super::{HeadInfo, accepts_byte_ranges, announced_length};

verus! {

/// Why the parallel strategy refuses a server before downloading.
#[derive(Debug, Clone, Copy, PartialEq, Eq, Structural)]
pub enum HeadRefusal {
    /// The HEAD request did not succeed.
    HeadFailed,
    /// No usable `Content-Length` header.
    LengthMissing,
    /// The server does not support range requests.
    NoRangeSupport,
}

/// An inclusive byte range `start..=end` of the file.
#[derive(Debug, Clone, Copy, PartialEq, Eq, Structural)]
pub struct ChunkRange {
    pub start: u64,
    pub end: u64,
}

pub const MIB: u64 = 1024 * 1024;

/// How many parts a file of `total` bytes is split into: 2 below 10 MiB,
/// 4 below 100 MiB, 8 otherwise.
pub open spec fn chunk_count(total: u64) -> nat {
    if total < 10 * MIB {
        2
    } else if total < 100 * MIB {
        4
    } else {
        8
    }
}

/// The length of every part but the last: `total` divided by the part count,
/// rounded up.
pub open spec fn chunk_len(total: u64) -> nat {
    ((total + chunk_count(total) - 1) / (chunk_count(total) as int)) as nat
}

/// How many ranges the file is actually cut into: the parts that start before
/// its end.
pub open spec fn range_count(total: u64) -> nat {
    if total == 0 {
        0
    } else {
        ((total + chunk_len(total) - 1) / (chunk_len(total) as int)) as nat
    }
}

/// The `i`-th range: from `i * len` up to the next boundary or the end of the
/// file, whichever comes first.
pub open spec fn planned_range(total: u64, i: int) -> ChunkRange {
    let start = i * chunk_len(total);
    let next = (i + 1) * chunk_len(total);
    ChunkRange {
        start: start as u64,
        end: ((if next < total { next } else { total as int }) - 1) as u64,
    }
}

/// The ranges of a file of `total` bytes, in order.
pub open spec fn planned_ranges(total: u64) -> Seq<ChunkRange> {
    Seq::new(range_count(total), |i: int| planned_range(total, i))
}

/// Decides from a HEAD response whether the parallel strategy can run, and
/// on what size: the request must have succeeded, the size be announced, and
/// byte ranges be accepted, checked in that order.
pub fn check_head(head: &HeadInfo) -> (r: Result<u64, HeadRefusal>)
    ensures
        r == (if !head.success {
            Err(HeadRefusal::HeadFailed)
        } else if announced_length(*head) is None {
            Err(HeadRefusal::LengthMissing)
        } else if !accepts_byte_ranges(*head) {
            Err(HeadRefusal::NoRangeSupport)
        } else {
            Ok(announced_length(*head)->0)
        }),
{
    if !head.success {
        return Err(HeadRefusal::HeadFailed);
    }
    let total = match head.content_length_value() {
        Some(t) => t,
        None => return Err(HeadRefusal::LengthMissing),
    };
    if !head.supports_byte_ranges() {
        return Err(HeadRefusal::NoRangeSupport);
    }
    Ok(total)
}

/// The number of parts for a file of `total` bytes.
pub fn chunk_count_for(total: u64) -> (n: u64)
    ensures
        n == chunk_count(total),
{
    if total < 10 * MIB {
        2
    } else if total < 100 * MIB {
        4
    } else {
        8
    }
}

/// The ranges, in order, in which a file of `total_size` bytes is fetched:
/// `chunk_count` parts of `chunk_len` bytes (the last one shorter), leaving
/// out parts that would start past the end.
pub fn plan_chunks(total_size: u64) -> (r: Vec<ChunkRange>)
    ensures
        r@ == planned_ranges(total_size),
{
    let n = chunk_count_for(total_size);
    let len: u64 = total_size / n + if total_size % n != 0 { 1 } else { 0 };
    assert(len == chunk_len(total_size)) by (nonlinear_arith)
        requires
            n == chunk_count(total_size),
            n >= 2,
            len == total_size / n + if total_size % n != 0 { 1int } else { 0int },
            chunk_len(total_size) == ((total_size + n - 1) / (n as int)) as nat,
    {
    }
    let mut out: Vec<ChunkRange> = Vec::new();
    let mut start: u64 = 0;
    let mut i: u64 = 0;
    while i < n && start < total_size
        invariant
            n == chunk_count(total_size),
            len == chunk_len(total_size),
            i <= n,
            start == (if i * len <= total_size { i * len } else { total_size as int }),
            start <= total_size,
            out@ == planned_ranges(total_size).take(i as int),
            i <= range_count(total_size),
        decreases n - i,
    {
        proof {
            lemma_range_count(total_size);
        }
        assert(start == i * len);
        let end = if len <= total_size - start { start + len } else { total_size } - 1;
        let piece = ChunkRange { start, end };
        assert((i + 1) * len == i * len + len) by (nonlinear_arith);
        assert(piece == planned_range(total_size, i as int));
        assert(i < range_count(total_size)) by {
            lemma_range_count_start(total_size, i as int);
        }
        out.push(piece);
        assert(out@ =~= planned_ranges(total_size).take(i + 1));
        start = end + 1;
        i = i + 1;
    }
    proof {
        lemma_range_count(total_size);
        if i < n {
            lemma_range_count_start(total_size, i as int);
        }
    }
    assert(out@ =~= planned_ranges(total_size));
    out
}

/// Facts on the number of ranges: it never exceeds the part count, and the
/// ranges that exist are exactly those that start before the end.
proof fn lemma_range_count(total: u64)
    ensures
        range_count(total) <= chunk_count(total),
        total > 0 ==> chunk_len(total) > 0,
{
    let n = chunk_count(total) as int;
    let len = chunk_len(total) as int;
    if total > 0 {
        assert(len >= 1) by (nonlinear_arith)
            requires len == (total + n - 1) / n, total >= 1, n >= 2;
        assert(len * n >= total) by (nonlinear_arith)
            requires len == (total + n - 1) / n, n >= 2;
        assert((total + len - 1) / len <= n) by (nonlinear_arith)
            requires len * n >= total, len >= 1, n >= 2;
    }
}

/// Range `i` exists exactly when it starts before the end of the file.
proof fn lemma_range_count_start(total: u64, i: int)
    requires
        0 <= i,
    ensures
        (i < range_count(total)) == (i * chunk_len(total) < total),
{
    lemma_range_count(total);
    let len = chunk_len(total) as int;
    if total > 0 {
        let c = (total + len - 1) / len;
        assert((i < c) == (i * len < total)) by (nonlinear_arith)
            requires c == (total + len - 1) / len, len >= 1, i >= 0, total >= 1;
    } else {
        assert(i * len >= 0) by (nonlinear_arith)
            requires i >= 0, len >= 0;
    }
}


/// The planned ranges cut the file into consecutive, non-empty, non-overlapping
/// pieces that cover every byte exactly once: the first starts at 0, each next
/// one starts right after the previous one ends, the last ends at the final
/// byte, there are no more of them than the part count, and none is longer
/// than the part length.
pub proof fn lemma_ranges_partition(total: u64)
    ensures
        planned_ranges(total).len() <= chunk_count(total),
        (planned_ranges(total).len() == 0) == (total == 0),
        total > 0 ==> planned_ranges(total)[0].start == 0,
        total > 0 ==> planned_ranges(total).last().end == total - 1,
        forall|i: int| 0 <= i < planned_ranges(total).len() ==> {
            &&& #[trigger] planned_ranges(total)[i].start <= planned_ranges(total)[i].end
            &&& planned_ranges(total)[i].end - planned_ranges(total)[i].start < chunk_len(total)
        },
        forall|i: int| 0 <= i < planned_ranges(total).len() - 1 ==>
            #[trigger] planned_ranges(total)[i + 1].start == planned_ranges(total)[i].end + 1,
{
    lemma_range_count(total);
    let len = chunk_len(total) as int;
    let c = range_count(total) as int;
    if total > 0 {
        lemma_range_count_start(total, 0);
        assert(0 * len == 0);
        lemma_range_count_start(total, c - 1);
        lemma_range_count_start(total, c);
        assert(c * len == (c - 1) * len + len) by (nonlinear_arith);
    }
    assert forall|i: int| 0 <= i < c implies {
        &&& #[trigger] planned_ranges(total)[i].start <= planned_ranges(total)[i].end
        &&& planned_ranges(total)[i].end - planned_ranges(total)[i].start < len
    } by {
        lemma_range_count_start(total, i);
        assert((i + 1) * len == i * len + len) by (nonlinear_arith);
        assert(i * len >= 0) by (nonlinear_arith) requires i >= 0, len >= 0;
    }
    assert forall|i: int| 0 <= i < c - 1 implies
        #[trigger] planned_ranges(total)[i + 1].start == planned_ranges(total)[i].end + 1 by {
        lemma_range_count_start(total, i + 1);
        assert((i + 1) * len == i * len + len) by (nonlinear_arith);
        assert(i * len >= 0) by (nonlinear_arith) requires i >= 0, len >= 0;
    }
}

/// Where the ranges of a file of `total` bytes start, and how many there
/// are, when it is cut into `parts` parts: exactly `parts` ranges, range `i`
/// starting at `i` times `total / parts` rounded up.
proof fn lemma_cut_into(total: u64, parts: int)
    requires
        chunk_count(total) == parts,
        2 <= parts <= 8,
        total > 7 * parts,
    ensures
        planned_ranges(total).len() == parts,
        forall|i: int| 0 <= i < parts ==> (#[trigger] planned_ranges(total)[i]).start == i * ((total + parts - 1) / parts),
{
    let len = chunk_len(total) as int;
    assert(len == (total + parts - 1) / parts);
    let m = total + parts - 1;
    vstd::arithmetic::div_mod::lemma_fundamental_div_mod(m as int, parts);
    let r = m % parts;
    assert(0 <= r < parts) by {
        vstd::arithmetic::div_mod::lemma_mod_bound(m as int, parts);
    }
    assert(m == parts * len + r);
    assert(parts * len >= total);
    assert(len > 7) by (nonlinear_arith)
        requires parts * len >= total, total > 7 * parts, parts >= 2;
    assert(len >= 1 && (parts - 1) * len < total) by (nonlinear_arith)
        requires m == parts * len + r, m == total + parts - 1, 0 <= r, len > 7, parts <= 8, parts >= 2;
    assert((total + len - 1) / len == parts) by (nonlinear_arith)
        requires len >= 1, (parts - 1) * len < total, parts * len >= total;
    assert forall|i: int| 0 <= i < parts implies (#[trigger] planned_ranges(total)[i]).start == i * ((total + parts - 1) / parts) by {
        assert(0 <= i * len < total) by (nonlinear_arith)
            requires 0 <= i < parts, len >= 1, (parts - 1) * len < total;
    }
}

/// How a file is cut for the parallel strategy, by its size alone: from
/// 100 MiB on into 8 ranges, from 10 MiB on into 4, below that into 2 (one
/// for a single byte, none for an empty file); range `i` starts at `i` times
/// the size divided by the number of ranges, rounded up, so every range but
/// the last is that long.
pub proof fn lemma_chunk_plan_by_size(total: u64)
    ensures
        total >= 104_857_600 ==> chunk_count(total) == 8 && planned_ranges(total).len() == 8
            && forall|i: int| 0 <= i < 8 ==> (#[trigger] planned_ranges(total)[i]).start == i * ((total + 7) / 8),
        10_485_760 <= total < 104_857_600 ==> chunk_count(total) == 4 && planned_ranges(total).len() == 4
            && forall|i: int| 0 <= i < 4 ==> (#[trigger] planned_ranges(total)[i]).start == i * ((total + 3) / 4),
        2 <= total < 10_485_760 ==> chunk_count(total) == 2 && planned_ranges(total).len() == 2
            && planned_ranges(total)[0].start == 0 && planned_ranges(total)[1].start == (total + 1) / 2,
        total == 1 ==> planned_ranges(total).len() == 1,
        total == 0 ==> planned_ranges(total).len() == 0,
{
    lemma_ranges_partition(total);
    if total >= 104_857_600 {
        lemma_cut_into(total, 8);
    } else if total >= 10_485_760 {
        lemma_cut_into(total, 4);
    } else if total >= 2 {
        let len = chunk_len(total) as int;
        assert(len == (total + 1) / 2);
        assert(len >= 1 && len < total && 2 * len >= total) by {
            vstd::arithmetic::div_mod::lemma_fundamental_div_mod(total + 1, 2);
            vstd::arithmetic::div_mod::lemma_mod_bound(total + 1, 2);
        }
        assert((total + len - 1) / len == 2) by (nonlinear_arith)
            requires len >= 1, len < total, 2 * len >= total;
        assert(planned_ranges(total)[1].start == 1 * len);
    } else if total == 1 {
        assert(chunk_len(total) == 1);
    }
}

} // verus!
