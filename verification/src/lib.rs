//! Documentation model builder for trees of WGSL shader modules that use
//! a textual import system and conditional compilation. The library scans
//! raw shader text for the conditional-compilation tokens it references,
//! composes namespace-identified units into the external composition
//! engine in dependency order, lowers the engine's compiled representation
//! into a canonical, engine-version-independent documentation model, and
//! normalizes the finished namespace tree for static rendering.

pub mod engine;
pub mod gen;
pub mod ir;
pub mod resolve;
pub mod lower;
pub mod model;
pub mod post;
pub mod scan;
pub mod views;
pub mod text;
pub mod tree;

use vstd::prelude::*;

verus! {

/// Which release line of the composition engine a build runs against.
#[derive(Debug, Clone, Copy, PartialEq, Eq, Structural, Hash)]
pub enum CompilerBackend {
    V0_15,
    V0_14,
    V0_13,
    V0_11,
    V0_10,
    V0_08,
}

impl CompilerBackend {
    /// The engine's minor version the backend drives.
    pub fn naga_oil_minor(self) -> (r: u64)
        ensures
            r == spec_naga_oil_minor(self),
    {
        match self {
            CompilerBackend::V0_15 => 15,
            CompilerBackend::V0_14 => 14,
            CompilerBackend::V0_13 => 13,
            CompilerBackend::V0_11 => 11,
            CompilerBackend::V0_10 => 10,
            CompilerBackend::V0_08 => 8,
        }
    }
}

/// The engine minor version of each backend.
pub open spec fn spec_naga_oil_minor(b: CompilerBackend) -> u64 {
    match b {
        CompilerBackend::V0_15 => 15,
        CompilerBackend::V0_14 => 14,
        CompilerBackend::V0_13 => 13,
        CompilerBackend::V0_11 => 11,
        CompilerBackend::V0_10 => 10,
        CompilerBackend::V0_08 => 8,
    }
}

/// One import declaration of a unit: the imported namespace path and
/// the item names pulled from it.
#[derive(Debug, PartialEq)]
pub struct ImportDeclaration {
    pub import: String,
    pub items: Vec<String>,
}

/// A crate to document, identified by a directory on disk.
pub struct CrateLocalPath {
    pub path: String,
}

/// A crate to document, identified by its registry name.
pub struct CratesIoIdentifier {
    pub name: String,
}

/// Where the crate whose shaders are documented comes from.
pub enum CrateLocation {
    Local(CrateLocalPath),
    CratesIo(CratesIoIdentifier),
}

/// Everything after the final `/`: the last path segment.
pub open spec fn last_segment(p: Seq<char>) -> Seq<char>
    decreases p.len(),
{
    if p.len() == 0 {
        p
    } else if p[p.len() - 1] == '/' {
        Seq::empty()
    } else if exists|i: int| 0 <= i < p.len() && p[i] == '/' {
        last_segment(p.skip(1))
    } else {
        p
    }
}

/// The path with its trailing separators dropped; a file-name lookup
/// ignores them.
pub open spec fn strip_trailing_separators(p: Seq<char>) -> Seq<char>
    decreases p.len(),
{
    if p.len() > 0 && p[p.len() - 1] == '/' {
        strip_trailing_separators(p.drop_last())
    } else {
        p
    }
}

/// The file name of a path: its last segment once trailing separators
/// are dropped.
pub open spec fn spec_file_name(p: Seq<char>) -> Seq<char> {
    last_segment(strip_trailing_separators(p))
}

/// Whether the path has a file name at all: a real final component, not
/// a current- or parent-directory step. A name lookup on anything else
/// has no answer.
pub open spec fn has_file_name(p: Seq<char>) -> bool {
    let seg = spec_file_name(p);
    seg.len() > 0 && seg != "."@ && seg != ".."@
}

impl CrateLocation {
    /// The crate's name: for a local path, its file name (the last real
    /// path component, trailing separators ignored). A local path without
    /// a file name has no crate name and is refused.
    pub fn name(&self) -> (r: String)
        requires
            self matches CrateLocation::Local(l) ==> has_file_name(l.path@),
        ensures
            r@ == match self {
                CrateLocation::Local(l) => spec_file_name(l.path@),
                CrateLocation::CratesIo(c) => c.name@,
            },
    {
        match self {
            CrateLocation::Local(l) => file_name_of(l.path.as_str()),
            CrateLocation::CratesIo(c) => c.name.clone(),
        }
    }
}

fn find_last_slash(p: &str) -> (r: Option<usize>)
    ensures
        match r {
            Some(i) => i < p@.len() && p@[i as int] == '/' && forall|j: int|
                i < j < p@.len() ==> p@[j] != '/',
            None => forall|j: int| 0 <= j < p@.len() ==> p@[j] != '/',
        },
{
    let n = p.unicode_len();
    let mut i: usize = n;
    loop
        invariant
            i <= n,
            n == p@.len(),
            forall|j: int| i <= j < p@.len() ==> p@[j] != '/',
        decreases i,
    {
        if i == 0 {
            return None;
        }
        i = i - 1;
        if p.get_char(i) == '/' {
            return Some(i);
        }
    }
}

/// The path's file name: the segment after the final `/` once trailing
/// separators are dropped; empty when none is left.
pub fn file_name_of(p: &str) -> (r: String)
    ensures
        r@ == spec_file_name(p@),
{
    let n = p.unicode_len();
    let mut j: usize = n;
    while j != 0 && p.get_char(j - 1) == '/'
        invariant
            j <= n,
            n == p@.len(),
            forall|t: int| j <= t < p@.len() ==> p@[t] == '/',
        decreases j,
    {
        j = j - 1;
    }
    let stripped = p.substring_char(0, j);
    proof {
        lemma_strip_prefix(p@, j as int);
        assert(stripped@ =~= strip_trailing_separators(p@));
    }
    match find_last_slash(stripped) {
        None => {
            proof {
                lemma_file_name_no_slash(stripped@);
            }
            stripped.to_owned()
        },
        Some(i) => {
            let m = stripped.unicode_len();
            let tail = stripped.substring_char(i + 1, m);
            proof {
                lemma_file_name_after_slash(stripped@, i as int);
            }
            tail.to_owned()
        },
    }
}

proof fn lemma_strip_prefix(p: Seq<char>, j: int)
    requires
        0 <= j <= p.len(),
        forall|t: int| j <= t < p.len() ==> p[t] == '/',
        j > 0 ==> p[j - 1] != '/',
    ensures
        strip_trailing_separators(p) == p.take(j),
    decreases p.len(),
{
    if p.len() > 0 && p[p.len() - 1] == '/' {
        assert(j < p.len());
        lemma_strip_prefix(p.drop_last(), j);
        assert(p.drop_last().take(j) =~= p.take(j));
    } else {
        assert(j == p.len());
        assert(p.take(j) =~= p);
    }
}

proof fn lemma_file_name_no_slash(p: Seq<char>)
    requires
        forall|j: int| 0 <= j < p.len() ==> p[j] != '/',
    ensures
        last_segment(p) == p,
    decreases p.len(),
{
}

proof fn lemma_file_name_after_slash(p: Seq<char>, i: int)
    requires
        0 <= i < p.len(),
        p[i] == '/',
        forall|j: int| i < j < p.len() ==> p[j] != '/',
    ensures
        last_segment(p) == p.skip(i + 1),
    decreases p.len(),
{
    if i == p.len() - 1 {
        assert(p.skip(i + 1) =~= Seq::empty());
    } else {
        assert(p[i] == '/');
        assert(exists|k: int| 0 <= k < p.len() && p[k] == '/');
        if p.len() > 0 {
            if i == 0 {
                lemma_file_name_no_slash(p.skip(1));
                assert(p.skip(1).skip(i) =~= p.skip(i + 1));
            } else {
                assert(p.skip(1)[i - 1] == '/');
                lemma_file_name_after_slash(p.skip(1), i - 1);
                assert(p.skip(1).skip(i) =~= p.skip(i + 1));
            }
        }
    }
}

/// The registry download address of one crate version.
pub fn crates_io_download_url(name: &str, version: &crate::model::Version) -> (r: String)
    ensures
        r@ == "https://static.crates.io/crates/"@ + name@ + "/"@ + name@ + "-"@
            + crate::model::version_text(*version) + ".crate"@,
{
    let mut s = "https://static.crates.io/crates/".to_owned();
    s.append(name);
    s.append("/");
    s.append(name);
    s.append("-");
    let v = version.text();
    s.append(v.as_str());
    s.append(".crate");
    s
}

} // verus!
