//! Readers for the one-line and positional text sources of the kernel:
//! kernel type and release, CPU clock, load average, process count and
//! uptime.
use vstd::prelude::*;
use crate::error::Error;
use crate::number::{
    float_literal, float_seconds, is_float_literal, parse_float_seconds, parse_u64, u64_of,
};
use crate::text::{
    chars_of, find_last, has_prefix, last_index, lemma_last_index_bounds, slice_of, split_chars,
    split_on, starts_with, string_of, trim, trimmed,
};

verus! {

/// `s` without the newlines at its end; everything before them is kept as
/// it is.
pub open spec fn strip_newlines(s: Seq<char>) -> Seq<char>
    decreases s.len(),
{
    if s.len() > 0 && s.last() == '\n' {
        strip_newlines(s.drop_last())
    } else {
        s
    }
}

/// A value read from a one-line source never ends in a newline.
pub proof fn lemma_strip_newlines(s: Seq<char>)
    ensures
        strip_newlines(s).len() == 0 || strip_newlines(s).last() != '\n',
    decreases s.len(),
{
    if s.len() > 0 && s.last() == '\n' {
        lemma_strip_newlines(s.drop_last());
    }
}

/// The value of a one-line source (such as the kernel type or release): its
/// text verbatim, without the newline at its end.
pub fn parse_kernel_line(s: &str) -> (r: String)
    ensures
        r@ == strip_newlines(s@),
        r@.len() == 0 || r@.last() != '\n',
{
    let v = chars_of(s);
    let mut hi: usize = v.len();
    assert(v@.subrange(0, hi as int) =~= v@);
    while hi > 0 && v[hi - 1] == '\n'
        invariant
            hi <= v@.len(),
            strip_newlines(v@) == strip_newlines(v@.subrange(0, hi as int)),
        decreases hi,
    {
        assert(v@.subrange(0, hi as int).drop_last() =~= v@.subrange(0, hi - 1));
        hi = hi - 1;
    }
    proof {
        lemma_strip_newlines(v@);
    }
    string_of(&v, 0, hi)
}

/// Whether a CPU listing line names a clock rate: its key is one of the
/// names that kernels and architectures use for it.
pub open spec fn is_speed_line(l: Seq<char>) -> bool {
    ||| has_prefix(l, "cpu MHz\t"@)
    ||| has_prefix(l, "BogoMIPS"@)
    ||| has_prefix(l, "clock\t"@)
    ||| has_prefix(l, "bogomips per cpu"@)
}

/// The first of `lines` that names a clock rate.
pub open spec fn first_speed_line(lines: Seq<Seq<char>>) -> Option<Seq<char>>
    decreases lines.len(),
{
    if lines.len() == 0 {
        None
    } else {
        match first_speed_line(lines.drop_last()) {
            Some(l) => Some(l),
            None => if is_speed_line(lines.last()) {
                Some(lines.last())
            } else {
                None
            },
        }
    }
}

/// What follows the last colon of a line (the whole line where it has none).
pub open spec fn after_last_colon(l: Seq<char>) -> Seq<char> {
    match last_index(l, ':') {
        Some(i) => l.subrange(i + 1, l.len() as int),
        None => l,
    }
}

pub open spec fn mhz() -> Seq<char> {
    seq!['M', 'H', 'z']
}

/// `s` with every occurrence of `MHz` removed, left to right.
pub open spec fn drop_mhz(s: Seq<char>) -> Seq<char>
    decreases s.len(),
{
    if s.len() == 0 {
        s
    } else if has_prefix(s, mhz()) {
        drop_mhz(s.subrange(3, s.len() as int))
    } else {
        seq![s[0]] + drop_mhz(s.drop_first())
    }
}

/// The clock rate in MHz that a CPU listing gives, as written: the value of
/// its first clock-rate line, without unit and trimmed, when it writes a
/// finite non-negative floating value.
pub open spec fn cpu_speed_field_of(s: Seq<char>) -> Option<Seq<char>> {
    match first_speed_line(split_on(s, '\n')) {
        Some(l) => {
            let t = trim(drop_mhz(after_last_colon(l)));
            if float_literal(t) {
                Some(t)
            } else {
                None
            }
        },
        None => None,
    }
}

/// `v` with every `MHz` removed.
fn without_mhz(v: &Vec<char>) -> (r: Vec<char>)
    ensures
        r@ == drop_mhz(v@),
{
    let mut out: Vec<char> = Vec::new();
    let mut i: usize = 0;
    let n = v.len();
    assert(v@.subrange(0, n as int) =~= v@);
    while i < n
        invariant
            i <= n == v@.len(),
            out@ + drop_mhz(v@.subrange(i as int, n as int)) == drop_mhz(v@),
        decreases n - i,
    {
        let ghost rest = v@.subrange(i as int, n as int);
        if n - i >= 3 && v[i] == 'M' && v[i + 1] == 'H' && v[i + 2] == 'z' {
            assert(has_prefix(rest, mhz())) by {
                assert(rest.subrange(0, 3) =~= mhz());
            }
            assert(rest.subrange(3, rest.len() as int) =~= v@.subrange(i + 3, n as int));
            i = i + 3;
        } else {
            assert(!has_prefix(rest, mhz())) by {
                if has_prefix(rest, mhz()) {
                    assert(rest.subrange(0, 3)[0] == 'M');
                    assert(rest.subrange(0, 3)[1] == 'H');
                    assert(rest.subrange(0, 3)[2] == 'z');
                }
            }
            assert(rest.drop_first() =~= v@.subrange(i + 1, n as int));
            let ghost before = out@;
            out.push(v[i]);
            assert(out@ =~= before + seq![rest[0]]);
            assert(before + (seq![rest[0]] + drop_mhz(rest.drop_first())) =~= out@ + drop_mhz(
                rest.drop_first(),
            ));
            i = i + 1;
        }
    }
    assert(drop_mhz(v@.subrange(i as int, n as int)) =~= Seq::<char>::empty());
    assert(out@ =~= out@ + Seq::<char>::empty());
    out
}

/// Reads the CPU clock rate, in MHz, from a CPU listing (the layout of
/// `/proc/cpuinfo`), as written.
///
/// The first line whose key is `cpu MHz`, `BogoMIPS`, `clock` or
/// `bogomips per cpu` gives it: the text after its last colon, without the
/// unit `MHz`, trimmed. That text is a floating value (read it with
/// `f64::from_str` and cut it to its whole part for the rate). Fails with
/// `Unknown` when there is no such line or its value does not write a
/// finite non-negative floating value.
pub fn parse_cpu_speed_field(s: &str) -> (r: Result<String, Error>)
    ensures
        match r {
            Ok(t) => cpu_speed_field_of(s@) == Some(t@),
            Err(e) => e == Error::Unknown && cpu_speed_field_of(s@) is None,
        },
{
    let v = chars_of(s);
    let lines = split_chars(&v, '\n');
    let ghost ls = split_on(s@, '\n');
    let mut i: usize = 0;
    while i < lines.len()
        invariant
            i <= lines@.len(),
            ls == split_on(s@, '\n'),
            lines@.len() == ls.len(),
            forall|k: int| 0 <= k < ls.len() ==> #[trigger] lines@[k]@ == ls[k],
            first_speed_line(ls.subrange(0, i as int)) is None,
        decreases lines@.len() - i,
    {
        assert(ls.subrange(0, i + 1).drop_last() =~= ls.subrange(0, i as int));
        let l = &lines[i];
        if starts_with(l, "cpu MHz\t") || starts_with(l, "BogoMIPS") || starts_with(l, "clock\t")
            || starts_with(l, "bogomips per cpu") {
            assert(first_speed_line(ls.subrange(0, i + 1)) == Some(ls[i as int]));
            proof {
                lemma_first_speed_line_prefix(ls, i + 1);
                lemma_last_index_bounds(l@, ':');
            }
            let field = match find_last(l, ':') {
                Some(j) => slice_of(l, j + 1, l.len()),
                None => slice_of(l, 0, l.len()),
            };
            assert(field@ == after_last_colon(l@)) by {
                if last_index(l@, ':') is None {
                    assert(l@.subrange(0, l@.len() as int) =~= l@);
                }
            }
            let bare = without_mhz(&field);
            let t = trimmed(&bare);
            if !is_float_literal(&t) {
                return Err(Error::Unknown);
            }
            assert(t@.subrange(0, t@.len() as int) =~= t@);
            return Ok(string_of(&t, 0, t.len()));
        }
        i = i + 1;
    }
    assert(ls.subrange(0, i as int) =~= ls);
    Err(Error::Unknown)
}

proof fn lemma_first_speed_line_prefix(lines: Seq<Seq<char>>, i: int)
    requires
        0 <= i <= lines.len(),
        first_speed_line(lines.subrange(0, i)) is Some,
    ensures
        first_speed_line(lines) == first_speed_line(lines.subrange(0, i)),
    decreases lines.len(),
{
    if i < lines.len() {
        assert(lines.drop_last().subrange(0, i) =~= lines.subrange(0, i));
        lemma_first_speed_line_prefix(lines.drop_last(), i);
    } else {
        assert(lines.subrange(0, i) =~= lines);
    }
}

/// The one-, five- and fifteen-minute load averages, as written: the first
/// three space-separated fields of the trimmed line, each writing a finite
/// non-negative floating value.
pub open spec fn load_fields_of(s: Seq<char>) -> Option<(Seq<char>, Seq<char>, Seq<char>)> {
    let t = split_on(trim(s), ' ');
    if t.len() >= 3 && float_literal(t[0]) && float_literal(t[1]) && float_literal(t[2]) {
        Some((t[0], t[1], t[2]))
    } else {
        None
    }
}

/// Reads the three load-average fields of a load line (the layout of
/// `/proc/loadavg`), in the order one, five, fifteen minutes. All three are
/// required, each a finite non-negative floating value (an optional `+`,
/// digits with an optional point, an optional exponent): fails with
/// `Unknown` when the line has fewer fields or one of them has another shape.
pub fn parse_loadavg_fields(s: &str) -> (r: Result<(String, String, String), Error>)
    ensures
        match r {
            Ok((a, b, c)) => load_fields_of(s@) == Some((a@, b@, c@)),
            Err(e) => e == Error::Unknown && load_fields_of(s@) is None,
        },
{
    let v = chars_of(s);
    let t = trimmed(&v);
    let fields = split_chars(&t, ' ');
    if fields.len() < 3 {
        return Err(Error::Unknown);
    }
    if !is_float_literal(&fields[0]) || !is_float_literal(&fields[1]) || !is_float_literal(
        &fields[2],
    ) {
        return Err(Error::Unknown);
    }
    let a = string_of(&fields[0], 0, fields[0].len());
    let b = string_of(&fields[1], 0, fields[1].len());
    let c = string_of(&fields[2], 0, fields[2].len());
    assert(fields@[0]@.subrange(0, fields@[0]@.len() as int) =~= fields@[0]@);
    assert(fields@[1]@.subrange(0, fields@[1]@.len() as int) =~= fields@[1]@);
    assert(fields@[2]@.subrange(0, fields@[2]@.len() as int) =~= fields@[2]@);
    Ok((a, b, c))
}

/// The number of processes that a load line gives: its fourth space-separated
/// field is `running/total`, and the total is what follows the last `/`.
pub open spec fn proc_total_of(s: Seq<char>) -> Option<u64> {
    let t = split_on(s, ' ');
    if t.len() >= 4 {
        u64_of(split_on(t[3], '/').last())
    } else {
        None
    }
}

/// Reads the total number of processes from a load line (the layout of
/// `/proc/loadavg`). Fails with `Unknown` when the line has fewer than four
/// fields or the total is not a number.
pub fn parse_proc_total(s: &str) -> (r: Result<u64, Error>)
    ensures
        r == match proc_total_of(s@) {
            Some(x) => Ok::<u64, Error>(x),
            None => Err(Error::Unknown),
        },
{
    let v = chars_of(s);
    let fields = split_chars(&v, ' ');
    if fields.len() < 4 {
        return Err(Error::Unknown);
    }
    let parts = split_chars(&fields[3], '/');
    let last = &parts[parts.len() - 1];
    match parse_u64(last) {
        Some(x) => Ok(x),
        None => Err(Error::Unknown),
    }
}

/// The time since boot that an uptime line gives: two space-separated
/// floating values (uptime and idle time), of which the first is the
/// result, read exactly, as whole seconds and the microseconds of the rest.
pub open spec fn uptime_of(s: Seq<char>) -> Option<(u64, u32)> {
    let t = split_on(trim(s), ' ');
    if t.len() >= 2 && float_literal(t[1]) {
        float_seconds(t[0])
    } else {
        None
    }
}

/// Reads the time since boot from an uptime line (the layout of
/// `/proc/uptime`): whole seconds, and the sub-second rest in microseconds
/// (rounded down). Both values are finite non-negative floating values (an
/// optional `+`, digits with an optional point, an optional exponent), and
/// the first is read exactly, without rounding through binary floating
/// point. Fails with `Unknown` when the line does not hold two such values
/// or the seconds do not fit in 64 bits.
pub fn parse_uptime(s: &str) -> (r: Result<(u64, u32), Error>)
    ensures
        r == match uptime_of(s@) {
            Some(x) => Ok::<(u64, u32), Error>(x),
            None => Err(Error::Unknown),
        },
        r matches Ok((_, us)) ==> us < 1000000,
{
    let v = chars_of(s);
    let t = trimmed(&v);
    let fields = split_chars(&t, ' ');
    if fields.len() < 2 {
        return Err(Error::Unknown);
    }
    if !is_float_literal(&fields[1]) {
        return Err(Error::Unknown);
    }
    match parse_float_seconds(&fields[0]) {
        Some(x) => Ok(x),
        None => Err(Error::Unknown),
    }
}

} // verus!
