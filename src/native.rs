//! Text from the byte buffers that native calls and helper processes fill:
//! NUL-terminated fields, host-name buffers and command output.
use vstd::prelude::*;
use vstd::utf8::{decode_utf8, valid_utf8};
use crate::error::Error;
use crate::text::{chars_of, string_of};

verus! {

/// std's error for bytes that are not UTF-8.
#[verifier::external_type_specification]
#[verifier::external_body]
pub struct ExUtf8Error(core::str::Utf8Error);

/// Relies on `core::str::from_utf8`: it succeeds exactly on valid UTF-8,
/// and the text is what those bytes encode.
pub assume_specification<'a>[ core::str::from_utf8 ](v: &'a [u8]) -> (r: Result<
    &'a str,
    core::str::Utf8Error,
>)
    ensures
        match r {
            Ok(s) => valid_utf8(v@) && s@ == decode_utf8(v@),
            Err(_) => !valid_utf8(v@),
        },
;

/// The text that `b` encodes, when it is valid UTF-8.
pub open spec fn text_of(b: Seq<u8>) -> Option<Seq<char>> {
    if valid_utf8(b) {
        Some(decode_utf8(b))
    } else {
        None
    }
}

/// The position of the first NUL byte of `b`.
pub open spec fn first_nul(b: Seq<u8>) -> Option<int>
    decreases b.len(),
{
    if b.len() == 0 {
        None
    } else {
        match first_nul(b.drop_last()) {
            Some(i) => Some(i),
            None => if b.last() == 0 {
                Some(b.len() - 1)
            } else {
                None
            },
        }
    }
}

/// The text of a fixed-size NUL-terminated field: the bytes before its first
/// NUL, decoded; `None` when it holds no NUL or is not UTF-8.
pub open spec fn field_text(b: Seq<u8>) -> Option<Seq<char>> {
    match first_nul(b) {
        Some(i) => text_of(b.subrange(0, i)),
        None => None,
    }
}

/// The text of a host-name buffer: the bytes before its first NUL (all of
/// them where it holds none), decoded.
pub open spec fn hostname_text(b: Seq<u8>) -> Option<Seq<char>> {
    match first_nul(b) {
        Some(i) => text_of(b.subrange(0, i)),
        None => text_of(b),
    }
}

/// `t` without one line terminator (`\r\n` or `\n`) at its end.
pub open spec fn strip_one_line_end(t: Seq<char>) -> Seq<char> {
    if t.len() >= 2 && t[t.len() - 2] == '\r' && t.last() == '\n' {
        t.subrange(0, t.len() - 2)
    } else if t.len() >= 1 && t.last() == '\n' {
        t.drop_last()
    } else {
        t
    }
}

/// The text of a helper's output: decoded, without its line terminator.
pub open spec fn output_text(b: Seq<u8>) -> Option<Seq<char>> {
    match text_of(b) {
        Some(t) => Some(strip_one_line_end(t)),
        None => None,
    }
}

/// The position of the first NUL byte of `b`.
fn find_nul(b: &[u8]) -> (r: Option<usize>)
    ensures
        r matches Some(i) ==> first_nul(b@) == Some(i as int) && i < b@.len(),
        r is None ==> first_nul(b@) is None,
{
    let mut i: usize = 0;
    while i < b.len()
        invariant
            i <= b@.len(),
            first_nul(b@.subrange(0, i as int)) is None,
        decreases b@.len() - i,
    {
        assert(b@.subrange(0, i + 1).drop_last() =~= b@.subrange(0, i as int));
        if b[i] == 0 {
            proof {
                lemma_first_nul_prefix(b@, i + 1);
            }
            return Some(i);
        }
        i = i + 1;
    }
    assert(b@.subrange(0, i as int) =~= b@);
    None
}

proof fn lemma_first_nul_prefix(b: Seq<u8>, i: int)
    requires
        0 <= i <= b.len(),
        first_nul(b.subrange(0, i)) is Some,
    ensures
        first_nul(b) == first_nul(b.subrange(0, i)),
    decreases b.len(),
{
    if i < b.len() {
        assert(b.drop_last().subrange(0, i) =~= b.subrange(0, i));
        lemma_first_nul_prefix(b.drop_last(), i);
    } else {
        assert(b.subrange(0, i) =~= b);
    }
}

/// Decodes a fixed-size NUL-terminated field. A field without a NUL is
/// taken as overflowed and is never read past its end: it fails with
/// `Unknown`, as does one that is not UTF-8.
pub fn decode_field(b: &[u8]) -> (r: Result<&str, Error>)
    ensures
        match r {
            Ok(s) => field_text(b@) == Some(s@),
            Err(e) => e == Error::Unknown && field_text(b@) is None,
        },
{
    match find_nul(b) {
        Some(i) => {
            let head = vstd::slice::slice_subrange(b, 0, i);
            match core::str::from_utf8(head) {
                Ok(s) => Ok(s),
                Err(_) => Err(Error::Unknown),
            }
        },
        None => Err(Error::Unknown),
    }
}

/// Decodes the buffer that a host-name call filled: the bytes before the
/// first NUL, or all of them where there is none. Fails with `Unknown` when
/// they are not UTF-8.
pub fn hostname_from_buffer(buf: &[u8]) -> (r: Result<String, Error>)
    ensures
        match r {
            Ok(s) => hostname_text(buf@) == Some(s@),
            Err(e) => e == Error::Unknown && hostname_text(buf@) is None,
        },
{
    let n = match find_nul(buf) {
        Some(i) => i,
        None => buf.len(),
    };
    assert(first_nul(buf@) is None ==> buf@.subrange(0, n as int) =~= buf@);
    let head = vstd::slice::slice_subrange(buf, 0, n);
    match core::str::from_utf8(head) {
        Ok(s) => Ok(s.to_owned()),
        Err(_) => Err(Error::Unknown),
    }
}

/// Decodes what a host-name helper wrote: its whole output as text, without
/// exactly one line terminator at the end. Fails with `Unknown` when the
/// output is not UTF-8.
pub fn hostname_from_output(out: &[u8]) -> (r: Result<String, Error>)
    ensures
        match r {
            Ok(s) => output_text(out@) == Some(s@),
            Err(e) => e == Error::Unknown && output_text(out@) is None,
        },
{
    match core::str::from_utf8(out) {
        Ok(s) => {
            let v = chars_of(s);
            let n = v.len();
            let hi = if n >= 2 && v[n - 2] == '\r' && v[n - 1] == '\n' {
                n - 2
            } else if n >= 1 && v[n - 1] == '\n' {
                n - 1
            } else {
                n
            };
            assert(v@.subrange(0, n as int) =~= v@);
            Ok(string_of(&v, 0, hi))
        },
        Err(_) => Err(Error::Unknown),
    }
}

} // verus!
