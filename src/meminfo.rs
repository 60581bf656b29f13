//! Memory statistics, read from a `label: value [unit]` listing.
use vstd::prelude::*;
use crate::error::Error;
use crate::number::{u64_of, parse_u64};
use crate::text::{
    chars_of, find_first, first_index, lemma_first_index_bounds, slice_of, split_chars, split_on,
    words, words_of, equals,
};

verus! {

/// System memory, in kilobytes.
///
/// Where a platform keeps no account of buffers and cache, `buffers` and
/// `cached` are zero.
#[derive(Debug, Clone, Copy)]
pub struct MemInfo {
    /// Total physical memory.
    pub total: u64,
    pub free: u64,
    pub avail: u64,
    pub buffers: u64,
    pub cached: u64,
    /// Total swap memory.
    pub swap_total: u64,
    pub swap_free: u64,
}

impl MemInfo {
    /// No more is free, and no more available, than there is in total.
    pub open spec fn wf(&self) -> bool {
        &&& self.free <= self.total
        &&& self.avail <= self.total
    }
}

/// The label of a listing line: its first word up to the first colon.
pub open spec fn label_of(w: Seq<char>) -> Seq<char> {
    match first_index(w, ':') {
        Some(i) => w.subrange(0, i),
        None => w,
    }
}

/// What one line contributes: `None` when its value is not a number,
/// `Some(None)` when it has fewer than two words, else its label and value.
pub open spec fn mem_line(l: Seq<char>) -> Option<Option<(Seq<char>, u64)>> {
    let ws = words(l);
    if ws.len() < 2 {
        Some(None)
    } else {
        match u64_of(ws[1]) {
            Some(x) => Some(Some((label_of(ws[0]), x))),
            None => None,
        }
    }
}

/// The labelled values of `lines` in order, or `None` when some line's value
/// is not a number.
pub open spec fn mem_entries(lines: Seq<Seq<char>>) -> Option<Seq<(Seq<char>, u64)>>
    decreases lines.len(),
{
    if lines.len() == 0 {
        Some(Seq::empty())
    } else {
        match mem_entries(lines.drop_last()) {
            Some(es) => match mem_line(lines.last()) {
                Some(Some(e)) => Some(es.push(e)),
                Some(None) => Some(es),
                None => None,
            },
            None => None,
        }
    }
}

/// The value of the last entry labelled `key`.
pub open spec fn lookup(es: Seq<(Seq<char>, u64)>, key: Seq<char>) -> Option<u64>
    decreases es.len(),
{
    if es.len() == 0 {
        None
    } else if es.last().0 == key {
        Some(es.last().1)
    } else {
        lookup(es.drop_last(), key)
    }
}

/// The estimate of available memory where the listing gives none:
/// `free + buffers + cached + reclaimable slab - shared`, held within
/// `0..=total`.
pub open spec fn avail_estimate(
    total: u64,
    free: u64,
    buffers: u64,
    cached: u64,
    reclaimable: u64,
    shared: u64,
) -> u64 {
    let e = free + buffers + cached + reclaimable - shared;
    if e < 0 {
        0
    } else if e > total {
        total
    } else {
        e as u64
    }
}

/// Available memory: the `MemAvailable` entry, else the estimate from
/// `SReclaimable` and `Shmem`.
pub open spec fn avail_of(es: Seq<(Seq<char>, u64)>, total: u64, free: u64, buffers: u64, cached: u64) -> Option<u64> {
    match lookup(es, "MemAvailable"@) {
        Some(a) => Some(a),
        None => match (lookup(es, "SReclaimable"@), lookup(es, "Shmem"@)) {
            (Some(r), Some(sh)) => Some(avail_estimate(total, free, buffers, cached, r, sh)),
            _ => None,
        },
    }
}

/// The statistics that the entries give, when every required one is there
/// and they are consistent (free and available within total).
pub open spec fn meminfo_from(es: Seq<(Seq<char>, u64)>) -> Option<MemInfo> {
    match (
        lookup(es, "MemTotal"@),
        lookup(es, "MemFree"@),
        lookup(es, "Buffers"@),
        lookup(es, "Cached"@),
        lookup(es, "SwapTotal"@),
        lookup(es, "SwapFree"@),
    ) {
        (Some(total), Some(free), Some(buffers), Some(cached), Some(swap_total), Some(swap_free)) => {
            match avail_of(es, total, free, buffers, cached) {
                Some(avail) => if free <= total && avail <= total {
                    Some(
                        MemInfo { total, free, avail, buffers, cached, swap_total, swap_free },
                    )
                } else {
                    None
                },
                None => None,
            }
        },
        _ => None,
    }
}

/// The statistics of a whole listing.
pub open spec fn meminfo_of(s: Seq<char>) -> Option<MemInfo> {
    match mem_entries(split_on(s, '\n')) {
        Some(es) => meminfo_from(es),
        None => None,
    }
}

/// The entries of the exec table, as labels and values.
pub open spec fn entries_view(es: Seq<(Vec<char>, u64)>) -> Seq<(Seq<char>, u64)> {
    es.map_values(|e: (Vec<char>, u64)| (e.0@, e.1))
}

/// Whatever the listing, the statistics read from it never show more free
/// or available memory than there is in total.
pub proof fn lemma_meminfo_within_total(s: Seq<char>)
    ensures
        meminfo_of(s) matches Some(m) ==> m.free <= m.total && m.avail <= m.total,
{
}

/// Whether some line of `lines` gives an entry labelled `key`.
pub open spec fn gives_label(lines: Seq<Seq<char>>, key: Seq<char>) -> bool {
    exists|i: int| 0 <= i < lines.len() && (#[trigger] mem_line(lines[i]) matches Some(Some(e)) && e.0 == key)
}

/// A listing in which no line gives `MemTotal` is refused: no statistics,
/// zero or otherwise, are read from it.
pub proof fn lemma_missing_total_refused(s: Seq<char>)
    requires
        !gives_label(split_on(s, '\n'), "MemTotal"@),
    ensures
        meminfo_of(s) is None,
{
    lemma_lookup_absent(split_on(s, '\n'), "MemTotal"@);
}

proof fn lemma_lookup_absent(lines: Seq<Seq<char>>, key: Seq<char>)
    requires
        !gives_label(lines, key),
    ensures
        mem_entries(lines) matches Some(es) ==> lookup(es, key) is None,
    decreases lines.len(),
{
    if lines.len() > 0 {
        let pre = lines.drop_last();
        assert(!gives_label(pre, key)) by {
            if gives_label(pre, key) {
                let i = choose|i: int| 0 <= i < pre.len() && (#[trigger] mem_line(pre[i]) matches Some(Some(e)) && e.0 == key);
                assert(lines[i] == pre[i]);
            }
        }
        lemma_lookup_absent(pre, key);
        assert(!(mem_line(lines[lines.len() - 1]) matches Some(Some(e)) && e.0 == key));
        if let Some(es) = mem_entries(lines) {
            if let Some(Some(e)) = mem_line(lines.last()) {
                assert(es == mem_entries(pre).unwrap().push(e));
                assert(es.drop_last() =~= mem_entries(pre).unwrap());
            }
        }
    }
}

proof fn lemma_mem_entries_stuck(lines: Seq<Seq<char>>, i: int)
    requires
        0 <= i <= lines.len(),
        mem_entries(lines.subrange(0, i)) is None,
    ensures
        mem_entries(lines) is None,
    decreases lines.len(),
{
    if i < lines.len() {
        assert(lines.drop_last().subrange(0, i) =~= lines.subrange(0, i));
        lemma_mem_entries_stuck(lines.drop_last(), i);
    } else {
        assert(lines.subrange(0, i) =~= lines);
    }
}

/// The label of the word `w`: up to its first colon.
fn label_chars(w: &Vec<char>) -> (r: Vec<char>)
    ensures
        r@ == label_of(w@),
{
    proof {
        lemma_first_index_bounds(w@, ':');
    }
    match find_first(w, ':') {
        Some(i) => slice_of(w, 0, i),
        None => slice_of(w, 0, w.len()),
    }
}

/// The value of the last entry labelled `key`.
fn lookup_entry(es: &Vec<(Vec<char>, u64)>, key: &str) -> (r: Option<u64>)
    ensures
        r == lookup(entries_view(es@), key@),
{
    let ghost ev = entries_view(es@);
    let mut found: Option<u64> = None;
    let mut i: usize = 0;
    while i < es.len()
        invariant
            i <= es@.len(),
            ev == entries_view(es@),
            found == lookup(ev.subrange(0, i as int), key@),
        decreases es@.len() - i,
    {
        assert(ev.subrange(0, i + 1).drop_last() =~= ev.subrange(0, i as int));
        if equals(&es[i].0, key) {
            found = Some(es[i].1);
        }
        i = i + 1;
    }
    assert(ev.subrange(0, i as int) =~= ev);
    found
}

/// Reads a memory listing, one `label: value [unit]` entry per line (the
/// layout of `/proc/meminfo`).
///
/// Lines of fewer than two words are skipped; a later entry overrides an
/// earlier one of the same label. `MemTotal`, `MemFree`, `Buffers`,
/// `Cached`, `SwapTotal` and `SwapFree` are required. Available memory is
/// `MemAvailable` where the listing has it; older kernels do not, and there
/// it is estimated as `free + buffers + cached + SReclaimable - Shmem`, held
/// within `0..=total`. Fails with `Unknown` when a value is not a number,
/// a required entry is missing, or free or available memory exceeds the
/// total.
pub fn parse_meminfo(s: &str) -> (r: Result<MemInfo, Error>)
    ensures
        r == match meminfo_of(s@) {
            Some(m) => Ok::<MemInfo, Error>(m),
            None => Err(Error::Unknown),
        },
        r matches Ok(m) ==> m.wf(),
{
    let v = chars_of(s);
    let lines = split_chars(&v, '\n');
    let ghost ls = split_on(s@, '\n');
    let mut es: Vec<(Vec<char>, u64)> = Vec::new();
    let mut i: usize = 0;
    while i < lines.len()
        invariant
            i <= lines@.len(),
            ls == split_on(s@, '\n'),
            lines@.len() == ls.len(),
            forall|k: int| 0 <= k < ls.len() ==> #[trigger] lines@[k]@ == ls[k],
            mem_entries(ls.subrange(0, i as int)) == Some(entries_view(es@)),
        decreases lines@.len() - i,
    {
        assert(ls.subrange(0, i + 1).drop_last() =~= ls.subrange(0, i as int));
        let ws = words_of(&lines[i]);
        if ws.len() >= 2 {
            match parse_u64(&ws[1]) {
                Some(x) => {
                    let label = label_chars(&ws[0]);
                    let ghost before = es@;
                    es.push((label, x));
                    assert(entries_view(es@) =~= entries_view(before).push(
                        (label_of(ws@[0]@), x),
                    ));
                },
                None => {
                    proof {
                        assert(lines@[i as int]@ == ls[i as int]);
                        assert(ls.subrange(0, i + 1).last() == ls[i as int]);
                        assert(mem_line(ls[i as int]) is None);
                        lemma_mem_entries_stuck(ls, i + 1);
                    }
                    return Err(Error::Unknown);
                },
            }
        }
        i = i + 1;
    }
    assert(ls.subrange(0, i as int) =~= ls);
    let ghost ev = entries_view(es@);
    let total = match lookup_entry(&es, "MemTotal") {
        Some(x) => x,
        None => return Err(Error::Unknown),
    };
    let free = match lookup_entry(&es, "MemFree") {
        Some(x) => x,
        None => return Err(Error::Unknown),
    };
    let buffers = match lookup_entry(&es, "Buffers") {
        Some(x) => x,
        None => return Err(Error::Unknown),
    };
    let cached = match lookup_entry(&es, "Cached") {
        Some(x) => x,
        None => return Err(Error::Unknown),
    };
    let avail = match lookup_entry(&es, "MemAvailable") {
        Some(x) => x,
        None => {
            let reclaimable = match lookup_entry(&es, "SReclaimable") {
                Some(x) => x,
                None => return Err(Error::Unknown),
            };
            let shared = match lookup_entry(&es, "Shmem") {
                Some(x) => x,
                None => return Err(Error::Unknown),
            };
            estimate_avail(total, free, buffers, cached, reclaimable, shared)
        },
    };
    let swap_total = match lookup_entry(&es, "SwapTotal") {
        Some(x) => x,
        None => return Err(Error::Unknown),
    };
    let swap_free = match lookup_entry(&es, "SwapFree") {
        Some(x) => x,
        None => return Err(Error::Unknown),
    };
    if free > total || avail > total {
        return Err(Error::Unknown);
    }
    Ok(MemInfo { total, free, avail, buffers, cached, swap_total, swap_free })
}

/// The estimate of available memory, computed without overflow.
fn estimate_avail(
    total: u64,
    free: u64,
    buffers: u64,
    cached: u64,
    reclaimable: u64,
    shared: u64,
) -> (r: u64)
    ensures
        r == avail_estimate(total, free, buffers, cached, reclaimable, shared),
{
    let sum: u128 = free as u128 + buffers as u128 + cached as u128 + reclaimable as u128;
    if sum < shared as u128 {
        0
    } else if sum - shared as u128 > total as u128 {
        total
    } else {
        (sum - shared as u128) as u64
    }
}

} // verus!
