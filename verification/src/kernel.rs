//! Kernel identity facts: release-string parsing and the kernel probe's
//! configuration.

use vstd::prelude::*;
use vstd::string::StrSliceExecFns;
use vstd::string::StringExecFns;

use crate::text::find_idx;
use crate::text::find_from;
use crate::text::lemma_find_idx;

verus! {

/// The release string up to (not including) the first `-`, or the whole
/// string when there is none.
pub open spec fn version_of(release: Seq<char>) -> Seq<char> {
    release.take(find_idx(release, '-', 0))
}

/// The release string up to (not including) the second `.`, or the whole
/// string when it has fewer than two.
pub open spec fn majorversion_of(release: Seq<char>) -> Seq<char> {
    release.take(find_idx(release, '.', find_idx(release, '.', 0) + 1))
}

/// `base` with `rel` appended under one separating `/`.
pub open spec fn joined_path(base: Seq<char>, rel: Seq<char>) -> Seq<char> {
    if base.len() > 0 && base.last() == '/' {
        base + rel
    } else {
        base + seq!['/'] + rel
    }
}

/// Kernel identity facts derived from the raw probe strings.
#[derive(Debug)]
pub struct KernelFacts {
    pub ostype: String,
    pub arch: String,
    pub release: String,
    pub version: String,
    pub majorversion: String,
}

/// The kernel probe: reads three single-value pseudo-files below a
/// configurable filesystem root.
pub struct KernelComponent {
    pub fsroot: String,
}

/// The version component of a release string.
pub fn parse_version(release: &str) -> (r: String)
    ensures
        r@ == version_of(release@),
{
    let cut = find_from(release, '-', 0);
    String::from_str(release.substring_char(0, cut))
}

/// The major-version component of a release string: its first two
/// dot-separated components.
pub fn parse_majorversion(release: &str) -> (r: String)
    ensures
        r@ == majorversion_of(release@),
{
    let len = release.unicode_len();
    let first = find_from(release, '.', 0);
    proof {
        lemma_find_idx(release@, '.', 0);
    }
    let cut = if first < len {
        find_from(release, '.', first + 1)
    } else {
        proof {
            assert(find_idx(release@, '.', first + 1) == release@.len());
        }
        len
    };
    String::from_str(release.substring_char(0, cut))
}

/// Assembles the kernel facts from the three raw probe strings; the two
/// derived fields follow the release string exactly.
pub fn build_kernel_facts(ostype: String, arch: String, release: String) -> (r: KernelFacts)
    ensures
        r.ostype == ostype,
        r.arch == arch,
        r.release == release,
        r.version@ == version_of(release@),
        r.majorversion@ == majorversion_of(release@),
{
    let version = parse_version(release.as_str());
    let majorversion = parse_majorversion(release.as_str());
    KernelFacts { ostype, arch, release, version, majorversion }
}

/// Joins a filesystem root and a relative path with exactly one `/`
/// between them.
pub fn join_path(base: &str, rel: &str) -> (r: String)
    ensures
        r@ == joined_path(base@, rel@),
{
    let len = base.unicode_len();
    let mut out = String::from_str(base);
    if len == 0 || base.get_char(len - 1) != '/' {
        out.append("/");
        proof {
            reveal_strlit("/");
            assert(out@ =~= base@ + seq!['/']);
        }
    }
    out.append(rel);
    proof {
        if !(base@.len() > 0 && base@.last() == '/') {
            assert(out@ =~= base@ + seq!['/'] + rel@);
        }
    }
    out
}

impl KernelComponent {
    /// A kernel probe rooted at the real filesystem root.
    pub fn new() -> (r: Self)
        ensures
            r.fsroot@ == "/"@,
    {
        KernelComponent { fsroot: String::from_str("/") }
    }

    /// A kernel probe rooted at the given directory, for reading a staged
    /// copy of the pseudo-files.
    pub fn with_root(fsroot: String) -> (r: Self)
        ensures
            r.fsroot == fsroot,
    {
        KernelComponent { fsroot }
    }

    /// The merge key of this probe.
    pub fn name(&self) -> (r: &'static str)
        ensures
            r@ == "kernel"@,
    {
        "kernel"
    }

    /// The pseudo-file that holds the OS type string.
    pub fn ostype_path(&self) -> (r: String)
        ensures
            r@ == joined_path(self.fsroot@, "proc/sys/kernel/ostype"@),
    {
        join_path(self.fsroot.as_str(), "proc/sys/kernel/ostype")
    }

    /// The pseudo-file that holds the architecture string.
    pub fn arch_path(&self) -> (r: String)
        ensures
            r@ == joined_path(self.fsroot@, "proc/sys/kernel/arch"@),
    {
        join_path(self.fsroot.as_str(), "proc/sys/kernel/arch")
    }

    /// The pseudo-file that holds the release string.
    pub fn release_path(&self) -> (r: String)
        ensures
            r@ == joined_path(self.fsroot@, "proc/sys/kernel/osrelease"@),
    {
        join_path(self.fsroot.as_str(), "proc/sys/kernel/osrelease")
    }
}

} // verus!
