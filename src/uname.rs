//! Kernel identity, as `uname` reports it: from the native call's
//! fixed-width fields, or composed from the other queries where a platform
//! has no such call.
use vstd::prelude::*;
use crate::error::Error;
use crate::native::{decode_field, field_text};

verus! {

/// The text an identity field reads as, or why it cannot be read.
pub open spec fn text_result(r: Result<&str, Error>) -> Result<Seq<char>, Error> {
    match r {
        Ok(s) => Ok(s@),
        Err(e) => Err(e),
    }
}

/// What a native fixed-width field reads as.
pub open spec fn native_field(b: Seq<u8>) -> Result<Seq<char>, Error> {
    match field_text(b) {
        Some(t) => Ok(t),
        None => Err(Error::Unknown),
    }
}

/// The raw fields that the native `uname` call fills, each a fixed-size
/// NUL-terminated byte array.
struct UtsFields {
    sysname: Vec<u8>,
    nodename: Vec<u8>,
    release: Vec<u8>,
    version: Vec<u8>,
    machine: Vec<u8>,
    domainname: Option<Vec<u8>>,
}

enum Source {
    Native(UtsFields),
    Composed { sysname: String, nodename: String, release: String },
}

/// The kernel identity; its fields are read through methods.
pub struct Info {
    source: Source,
}

impl Info {
    /// What `sysname` answers.
    pub closed spec fn sysname_text(&self) -> Result<Seq<char>, Error> {
        match self.source {
            Source::Native(u) => native_field(u.sysname@),
            Source::Composed { sysname, .. } => Ok(sysname@),
        }
    }

    /// What `nodename` answers.
    pub closed spec fn nodename_text(&self) -> Result<Seq<char>, Error> {
        match self.source {
            Source::Native(u) => native_field(u.nodename@),
            Source::Composed { nodename, .. } => Ok(nodename@),
        }
    }

    /// What `release` answers.
    pub closed spec fn release_text(&self) -> Result<Seq<char>, Error> {
        match self.source {
            Source::Native(u) => native_field(u.release@),
            Source::Composed { release, .. } => Ok(release@),
        }
    }

    /// What `version` answers.
    pub closed spec fn version_text(&self) -> Result<Seq<char>, Error> {
        match self.source {
            Source::Native(u) => native_field(u.version@),
            Source::Composed { release, .. } => Ok(release@),
        }
    }

    /// What `machine` answers.
    pub closed spec fn machine_text(&self) -> Result<Seq<char>, Error> {
        match self.source {
            Source::Native(u) => native_field(u.machine@),
            Source::Composed { .. } => Err(Error::UnsupportedSystem),
        }
    }

    /// What `domainname` answers.
    pub closed spec fn domainname_text(&self) -> Result<Seq<char>, Error> {
        match self.source {
            Source::Native(u) => match u.domainname {
                Some(d) => native_field(d@),
                None => Err(Error::UnsupportedSystem),
            },
            Source::Composed { .. } => Err(Error::UnsupportedSystem),
        }
    }

    /// Whether this identity was composed from the given kernel type, host
    /// name and kernel release.
    pub closed spec fn composed_of(
        &self,
        sysname: Seq<char>,
        nodename: Seq<char>,
        release: Seq<char>,
    ) -> bool {
        match self.source {
            Source::Composed { sysname: s, nodename: n, release: r } => s@ == sysname && n@
                == nodename && r@ == release,
            _ => false,
        }
    }

    /// An identity composed from the other queries names the kernel type that
    /// was handed to it and reports the release as the version, while the
    /// machine cannot be known.
    pub proof fn lemma_composed_identity(
        &self,
        sysname: Seq<char>,
        nodename: Seq<char>,
        release: Seq<char>,
    )
        requires
            self.composed_of(sysname, nodename, release),
        ensures
            self.sysname_text() == Ok::<Seq<char>, Error>(sysname),
            self.nodename_text() == Ok::<Seq<char>, Error>(nodename),
            self.version_text() == Ok::<Seq<char>, Error>(release),
            self.machine_text() == Err::<Seq<char>, Error>(Error::UnsupportedSystem),
    {
    }

    /// The identity that the native call reported, from its fields.
    /// `domainname` is `None` on platforms whose call has no such field.
    pub fn from_native(
        sysname: Vec<u8>,
        nodename: Vec<u8>,
        release: Vec<u8>,
        version: Vec<u8>,
        machine: Vec<u8>,
        domainname: Option<Vec<u8>>,
    ) -> (r: Info)
        ensures
            r.sysname_text() == native_field(sysname@),
            r.nodename_text() == native_field(nodename@),
            r.release_text() == native_field(release@),
            r.version_text() == native_field(version@),
            r.machine_text() == native_field(machine@),
            r.domainname_text() == match domainname {
                Some(d) => native_field(d@),
                None => Err(Error::UnsupportedSystem),
            },
    {
        Info {
            source: Source::Native(
                UtsFields { sysname, nodename, release, version, machine, domainname },
            ),
        }
    }

    /// The identity composed, where there is no native call, from the kernel
    /// type, the host name and the kernel release. The kernel version is
    /// reported as the release; the machine and domain cannot be known.
    pub fn composed(sysname: String, nodename: String, release: String) -> (r: Info)
        ensures
            r.composed_of(sysname@, nodename@, release@),
            r.sysname_text() == Ok::<Seq<char>, Error>(sysname@),
            r.nodename_text() == Ok::<Seq<char>, Error>(nodename@),
            r.release_text() == Ok::<Seq<char>, Error>(release@),
            r.version_text() == Ok::<Seq<char>, Error>(release@),
            r.machine_text() == Err::<Seq<char>, Error>(Error::UnsupportedSystem),
            r.domainname_text() == Err::<Seq<char>, Error>(Error::UnsupportedSystem),
    {
        Info { source: Source::Composed { sysname, nodename, release } }
    }

    /// Kernel name, for example "Linux".
    pub fn sysname(&self) -> (r: Result<&str, Error>)
        ensures
            text_result(r) == self.sysname_text(),
    {
        match &self.source {
            Source::Native(u) => decode_field(u.sysname.as_slice()),
            Source::Composed { sysname, .. } => Ok(sysname.as_str()),
        }
    }

    /// Network node host name, usually the same as the host name.
    pub fn nodename(&self) -> (r: Result<&str, Error>)
        ensures
            text_result(r) == self.nodename_text(),
    {
        match &self.source {
            Source::Native(u) => decode_field(u.nodename.as_slice()),
            Source::Composed { nodename, .. } => Ok(nodename.as_str()),
        }
    }

    /// Kernel release, for example "5.10.4-arch2-1".
    pub fn release(&self) -> (r: Result<&str, Error>)
        ensures
            text_result(r) == self.release_text(),
    {
        match &self.source {
            Source::Native(u) => decode_field(u.release.as_slice()),
            Source::Composed { release, .. } => Ok(release.as_str()),
        }
    }

    /// Kernel version, for example "#1 SMP PREEMPT Fri, 01 Jan 2021".
    /// Where the identity is composed, this is the release.
    pub fn version(&self) -> (r: Result<&str, Error>)
        ensures
            text_result(r) == self.version_text(),
    {
        match &self.source {
            Source::Native(u) => decode_field(u.version.as_slice()),
            Source::Composed { release, .. } => Ok(release.as_str()),
        }
    }

    /// Machine hardware name, for example "x86_64". Where the identity is
    /// composed it cannot be known: `UnsupportedSystem`.
    pub fn machine(&self) -> (r: Result<&str, Error>)
        ensures
            text_result(r) == self.machine_text(),
    {
        match &self.source {
            Source::Native(u) => decode_field(u.machine.as_slice()),
            Source::Composed { .. } => Err(Error::UnsupportedSystem),
        }
    }

    /// Domain name of the system, on platforms whose native call reports
    /// one; `UnsupportedSystem` elsewhere.
    pub fn domainname(&self) -> (r: Result<&str, Error>)
        ensures
            text_result(r) == self.domainname_text(),
    {
        match &self.source {
            Source::Native(u) => match &u.domainname {
                Some(d) => decode_field(d.as_slice()),
                None => Err(Error::UnsupportedSystem),
            },
            Source::Composed { .. } => Err(Error::UnsupportedSystem),
        }
    }
}

} // verus!
