//! Distribution metadata, read from `KEY=VALUE` lines (the layout of
//! `/etc/os-release`).
use vstd::prelude::*;
use crate::text::{
    chars_of, find_first, first_index, lemma_first_index_bounds, split_chars, split_on, string_of,
    slice_of, trim, trimmed, equals,
};

verus! {

/// The release metadata of a Linux distribution. A key that the source does
/// not give leaves its field `None`.
#[derive(Debug, Default)]
pub struct LinuxOSReleaseInfo {
    /// Lower-case identifier of the distribution, such as `ubuntu`.
    pub id: Option<String>,
    /// Identifiers of related distributions.
    pub id_like: Option<String>,
    /// Name of the distribution, without version.
    pub name: Option<String>,
    /// Name of the distribution for display, with version.
    pub pretty_name: Option<String>,
    /// Version of the distribution.
    pub version: Option<String>,
    /// Version identifier of the distribution.
    pub version_id: Option<String>,
    /// Release code name of the distribution.
    pub version_codename: Option<String>,
    /// Suggested colour for showing the name.
    pub ansi_color: Option<String>,
    /// Common Platform Enumeration name.
    pub cpe_name: Option<String>,
    /// Identifier of the system image build.
    pub build_id: Option<String>,
    /// Variant or edition of the distribution.
    pub variant: Option<String>,
    /// Identifier of the variant.
    pub variant_id: Option<String>,
    /// Home page of the distribution.
    pub home_url: Option<String>,
    /// Where to report bugs.
    pub bug_report_url: Option<String>,
    /// Where to find support.
    pub support_url: Option<String>,
    /// Where to find documentation.
    pub documentation_url: Option<String>,
    /// Name of the distribution's logo icon.
    pub logo: Option<String>,
}

/// The characters of an optional string.
pub open spec fn opt_view(o: Option<String>) -> Option<Seq<char>> {
    match o {
        Some(s) => Some(s@),
        None => None,
    }
}

/// A value without one leading and one trailing double quote, where it has
/// them.
pub open spec fn unquote(v: Seq<char>) -> Seq<char> {
    let a = if v.len() > 0 && v[0] == '"' {
        v.drop_first()
    } else {
        v
    };
    if a.len() > 0 && a.last() == '"' {
        a.drop_last()
    } else {
        a
    }
}

/// The key and the unquoted value of a `KEY=VALUE` line, split at its first
/// `=`; `None` for a line without `=`.
pub open spec fn release_line(l: Seq<char>) -> Option<(Seq<char>, Seq<char>)> {
    match first_index(l, '=') {
        Some(i) => Some((l.subrange(0, i), unquote(l.subrange(i + 1, l.len() as int)))),
        None => None,
    }
}

/// The value that the last of `lines` (each trimmed) to set `key` gives it.
pub open spec fn release_value(lines: Seq<Seq<char>>, key: Seq<char>) -> Option<Seq<char>>
    decreases lines.len(),
{
    if lines.len() == 0 {
        None
    } else {
        match release_line(trim(lines.last())) {
            Some(e) => if e.0 == key {
                Some(e.1)
            } else {
                release_value(lines.drop_last(), key)
            },
            None => release_value(lines.drop_last(), key),
        }
    }
}

impl LinuxOSReleaseInfo {
    /// Each field holds the value that `lines` give its key, or `None`.
    pub open spec fn describes(&self, lines: Seq<Seq<char>>) -> bool {
        &&& opt_view(self.id) == release_value(lines, "ID"@)
        &&& opt_view(self.id_like) == release_value(lines, "ID_LIKE"@)
        &&& opt_view(self.name) == release_value(lines, "NAME"@)
        &&& opt_view(self.pretty_name) == release_value(lines, "PRETTY_NAME"@)
        &&& opt_view(self.version) == release_value(lines, "VERSION"@)
        &&& opt_view(self.version_id) == release_value(lines, "VERSION_ID"@)
        &&& opt_view(self.version_codename) == release_value(lines, "VERSION_CODENAME"@)
        &&& opt_view(self.ansi_color) == release_value(lines, "ANSI_COLOR"@)
        &&& opt_view(self.cpe_name) == release_value(lines, "CPE_NAME"@)
        &&& opt_view(self.build_id) == release_value(lines, "BUILD_ID"@)
        &&& opt_view(self.variant) == release_value(lines, "VARIANT"@)
        &&& opt_view(self.variant_id) == release_value(lines, "VARIANT_ID"@)
        &&& opt_view(self.home_url) == release_value(lines, "HOME_URL"@)
        &&& opt_view(self.bug_report_url) == release_value(lines, "BUG_REPORT_URL"@)
        &&& opt_view(self.support_url) == release_value(lines, "SUPPORT_URL"@)
        &&& opt_view(self.documentation_url) == release_value(lines, "DOCUMENTATION_URL"@)
        &&& opt_view(self.logo) == release_value(lines, "LOGO"@)
    }
}

/// Whether `after` is `before` with the value `val` set where `k` is `key`.
pub open spec fn set_if(after: Option<String>, before: Option<String>, k: Seq<char>, key: Seq<char>, val: Seq<char>) -> bool {
    opt_view(after) == if k == key {
        Some(val)
    } else {
        opt_view(before)
    }
}

/// A line without `=` is ignored: after it, every key has the value it had
/// before.
pub proof fn lemma_line_without_eq_ignored(lines: Seq<Seq<char>>, l: Seq<char>, key: Seq<char>)
    requires
        first_index(trim(l), '=') is None,
    ensures
        release_value(lines.push(l), key) == release_value(lines, key),
{
    assert(lines.push(l).drop_last() =~= lines);
}

impl LinuxOSReleaseInfo {
    /// Metadata with no key set.
    pub fn new() -> (r: LinuxOSReleaseInfo)
        ensures
            r.describes(Seq::empty()),
    {
        LinuxOSReleaseInfo {
            id: None,
            id_like: None,
            name: None,
            pretty_name: None,
            version: None,
            version_id: None,
            version_codename: None,
            ansi_color: None,
            cpe_name: None,
            build_id: None,
            variant: None,
            variant_id: None,
            home_url: None,
            bug_report_url: None,
            support_url: None,
            documentation_url: None,
            logo: None,
        }
    }

    /// Sets the field of key `k` to `val`; an unknown key changes nothing.
    fn set(&mut self, k: &Vec<char>, val: String)
        ensures
            set_if(final(self).id, old(self).id, k@, "ID"@, val@),
            set_if(final(self).id_like, old(self).id_like, k@, "ID_LIKE"@, val@),
            set_if(final(self).name, old(self).name, k@, "NAME"@, val@),
            set_if(final(self).pretty_name, old(self).pretty_name, k@, "PRETTY_NAME"@, val@),
            set_if(final(self).version, old(self).version, k@, "VERSION"@, val@),
            set_if(final(self).version_id, old(self).version_id, k@, "VERSION_ID"@, val@),
            set_if(final(self).version_codename, old(self).version_codename, k@, "VERSION_CODENAME"@, val@),
            set_if(final(self).ansi_color, old(self).ansi_color, k@, "ANSI_COLOR"@, val@),
            set_if(final(self).cpe_name, old(self).cpe_name, k@, "CPE_NAME"@, val@),
            set_if(final(self).build_id, old(self).build_id, k@, "BUILD_ID"@, val@),
            set_if(final(self).variant, old(self).variant, k@, "VARIANT"@, val@),
            set_if(final(self).variant_id, old(self).variant_id, k@, "VARIANT_ID"@, val@),
            set_if(final(self).home_url, old(self).home_url, k@, "HOME_URL"@, val@),
            set_if(final(self).bug_report_url, old(self).bug_report_url, k@, "BUG_REPORT_URL"@, val@),
            set_if(final(self).support_url, old(self).support_url, k@, "SUPPORT_URL"@, val@),
            set_if(final(self).documentation_url, old(self).documentation_url, k@, "DOCUMENTATION_URL"@, val@),
            set_if(final(self).logo, old(self).logo, k@, "LOGO"@, val@),
    {
        proof {
            reveal_strlit("ID");
            assert("ID"@.len() == 2 && "ID"@[0] == 'I' && "ID"@[1] == 'D');
            reveal_strlit("ID_LIKE");
            assert("ID_LIKE"@.len() == 7 && "ID_LIKE"@[0] == 'I' && "ID_LIKE"@[1] == 'D');
            reveal_strlit("NAME");
            assert("NAME"@.len() == 4 && "NAME"@[0] == 'N' && "NAME"@[1] == 'A');
            reveal_strlit("PRETTY_NAME");
            assert("PRETTY_NAME"@.len() == 11 && "PRETTY_NAME"@[0] == 'P' && "PRETTY_NAME"@[1] == 'R');
            reveal_strlit("VERSION");
            assert("VERSION"@.len() == 7 && "VERSION"@[0] == 'V' && "VERSION"@[1] == 'E');
            reveal_strlit("VERSION_ID");
            assert("VERSION_ID"@.len() == 10 && "VERSION_ID"@[0] == 'V' && "VERSION_ID"@[1] == 'E');
            reveal_strlit("VERSION_CODENAME");
            assert("VERSION_CODENAME"@.len() == 16 && "VERSION_CODENAME"@[0] == 'V' && "VERSION_CODENAME"@[1] == 'E');
            reveal_strlit("ANSI_COLOR");
            assert("ANSI_COLOR"@.len() == 10 && "ANSI_COLOR"@[0] == 'A' && "ANSI_COLOR"@[1] == 'N');
            reveal_strlit("CPE_NAME");
            assert("CPE_NAME"@.len() == 8 && "CPE_NAME"@[0] == 'C' && "CPE_NAME"@[1] == 'P');
            reveal_strlit("BUILD_ID");
            assert("BUILD_ID"@.len() == 8 && "BUILD_ID"@[0] == 'B' && "BUILD_ID"@[1] == 'U');
            reveal_strlit("VARIANT");
            assert("VARIANT"@.len() == 7 && "VARIANT"@[0] == 'V' && "VARIANT"@[1] == 'A');
            reveal_strlit("VARIANT_ID");
            assert("VARIANT_ID"@.len() == 10 && "VARIANT_ID"@[0] == 'V' && "VARIANT_ID"@[1] == 'A');
            reveal_strlit("HOME_URL");
            assert("HOME_URL"@.len() == 8 && "HOME_URL"@[0] == 'H' && "HOME_URL"@[1] == 'O');
            reveal_strlit("BUG_REPORT_URL");
            assert("BUG_REPORT_URL"@.len() == 14 && "BUG_REPORT_URL"@[0] == 'B' && "BUG_REPORT_URL"@[1] == 'U');
            reveal_strlit("SUPPORT_URL");
            assert("SUPPORT_URL"@.len() == 11 && "SUPPORT_URL"@[0] == 'S' && "SUPPORT_URL"@[1] == 'U');
            reveal_strlit("DOCUMENTATION_URL");
            assert("DOCUMENTATION_URL"@.len() == 17 && "DOCUMENTATION_URL"@[0] == 'D' && "DOCUMENTATION_URL"@[1] == 'O');
            reveal_strlit("LOGO");
            assert("LOGO"@.len() == 4 && "LOGO"@[0] == 'L' && "LOGO"@[1] == 'O');
        }
        if equals(k, "ID") {
            self.id = Some(val);
        } else if equals(k, "ID_LIKE") {
            self.id_like = Some(val);
        } else if equals(k, "NAME") {
            self.name = Some(val);
        } else if equals(k, "PRETTY_NAME") {
            self.pretty_name = Some(val);
        } else if equals(k, "VERSION") {
            self.version = Some(val);
        } else if equals(k, "VERSION_ID") {
            self.version_id = Some(val);
        } else if equals(k, "VERSION_CODENAME") {
            self.version_codename = Some(val);
        } else if equals(k, "ANSI_COLOR") {
            self.ansi_color = Some(val);
        } else if equals(k, "CPE_NAME") {
            self.cpe_name = Some(val);
        } else if equals(k, "BUILD_ID") {
            self.build_id = Some(val);
        } else if equals(k, "VARIANT") {
            self.variant = Some(val);
        } else if equals(k, "VARIANT_ID") {
            self.variant_id = Some(val);
        } else if equals(k, "HOME_URL") {
            self.home_url = Some(val);
        } else if equals(k, "BUG_REPORT_URL") {
            self.bug_report_url = Some(val);
        } else if equals(k, "SUPPORT_URL") {
            self.support_url = Some(val);
        } else if equals(k, "DOCUMENTATION_URL") {
            self.documentation_url = Some(val);
        } else if equals(k, "LOGO") {
            self.logo = Some(val);
        }
    }
}

/// Splits a line at its first `=` into key and unquoted value.
fn split_entry(l: &Vec<char>) -> (r: Option<(Vec<char>, String)>)
    ensures
        match r {
            Some((k, v)) => release_line(l@) == Some((k@, v@)),
            None => release_line(l@) is None,
        },
{
    let n = l.len();
    proof {
        lemma_first_index_bounds(l@, '=');
    }
    match find_first(l, '=') {
        None => None,
        Some(i) => {
            let key = slice_of(l, 0, i);
            let ghost v0 = l@.subrange(i + 1, l@.len() as int);
            let mut lo: usize = i + 1;
            let mut hi: usize = l.len();
            if lo < hi && l[lo] == '"' {
                lo = lo + 1;
            }
            let ghost a = if v0.len() > 0 && v0[0] == '"' {
                v0.drop_first()
            } else {
                v0
            };
            assert(l@.subrange(lo as int, hi as int) =~= a);
            if lo < hi && l[hi - 1] == '"' {
                hi = hi - 1;
            }
            assert(l@.subrange(lo as int, hi as int) =~= unquote(v0));
            let value = string_of(l, lo, hi);
            Some((key, value))
        },
    }
}

/// Splits a `KEY=VALUE` line at its first `=`, removing one double quote
/// from each end of the value where there is one. A line without `=` gives
/// `None`.
pub fn parse_line_for_linux_os_release(l: String) -> (r: Option<(String, String)>)
    ensures
        match r {
            Some((k, v)) => release_line(l@) == Some((k@, v@)),
            None => release_line(l@) is None,
        },
{
    let v = chars_of(l.as_str());
    match split_entry(&v) {
        Some((k, val)) => Some((string_of(&k, 0, k.len()), val)),
        None => None,
    }
}

/// Reads release metadata: each line, trimmed, that holds `=` sets its key
/// (a later line overrides an earlier one); other lines and unknown keys are
/// ignored. Nothing here is an error.
pub fn parse_linux_os_release(s: &str) -> (r: LinuxOSReleaseInfo)
    ensures
        r.describes(split_on(s@, '\n')),
{
    let v = chars_of(s);
    let lines = split_chars(&v, '\n');
    let ghost ls = split_on(s@, '\n');
    let mut info = LinuxOSReleaseInfo::new();
    let mut i: usize = 0;
    assert(ls.subrange(0, 0) =~= Seq::<Seq<char>>::empty());
    while i < lines.len()
        invariant
            i <= lines@.len(),
            ls == split_on(s@, '\n'),
            lines@.len() == ls.len(),
            forall|k: int| 0 <= k < ls.len() ==> #[trigger] lines@[k]@ == ls[k],
            info.describes(ls.subrange(0, i as int)),
        decreases lines@.len() - i,
    {
        let ghost pre = ls.subrange(0, i as int);
        assert(ls.subrange(0, i + 1).drop_last() =~= pre);
        assert(ls.subrange(0, i + 1).last() == lines@[i as int]@);
        let t = trimmed(&lines[i]);
        match split_entry(&t) {
            Some((k, val)) => {
                info.set(&k, val);
            },
            None => {},
        }
        i = i + 1;
    }
    assert(ls.subrange(0, i as int) =~= ls);
    info
}

} // verus!
