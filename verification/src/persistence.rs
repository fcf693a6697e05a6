//! Project file naming: the on-disk format a path selects, versioned save
//! names, and the recently-used file lists.
//!
//! Reading and writing files is the application's part; what to read,
//! write and remember is decided here.

use crate::note::decimal;
use crate::text::append_decimal;
use vstd::prelude::*;
use vstd::string::*;

verus! {

/// A project file format.
#[derive(Debug, Clone, Copy, PartialEq, Eq, Structural)]
pub enum ProjectFormat {
    /// Human-readable JSON.
    Json,
    /// Compact MessagePack.
    MessagePack,
}

/// The extension of the path `p`, as `std::path::Path::extension` reads it.
pub uninterp spec fn path_ext(p: Seq<char>) -> Option<Seq<char>>;

/// The extension of `path` (`std::path::Path::extension`): the part of its
/// last component after the last dot, if there is one that does not start
/// the component.
#[verifier::external_body]
fn path_extension(path: &str) -> (r: Option<String>)
    ensures
        match r {
            Some(e) => path_ext(path@) == Some(e@),
            None => path_ext(path@).is_none(),
        },
{
    std::path::Path::new(path).extension().and_then(|e| e.to_str()).map(|e| e.to_string())
}

/// Whether the two paths name the same path component by component.
pub uninterp spec fn path_eq(a: Seq<char>, b: Seq<char>) -> bool;

/// Compare two paths as `std::path::Path` does (component by component, so
/// `a/b` and `a//b/` are equal).
#[verifier::external_body]
fn same_path(a: &str, b: &str) -> (r: bool)
    ensures
        r == path_eq(a@, b@),
{
    std::path::Path::new(a) == std::path::Path::new(b)
}

impl ProjectFormat {
    /// The format of a path: MessagePack for a `.seqterm` file, JSON for
    /// anything else.
    pub fn from_path(path: &str) -> (r: ProjectFormat)
        ensures
            r == (if path_ext(path@) == Some("seqterm"@) {
                ProjectFormat::MessagePack
            } else {
                ProjectFormat::Json
            }),
    {
        proof {
            reveal_strlit("seqterm");
        }
        match path_extension(path) {
            Some(e) => {
                if crate::sched::str_eq(e.as_str(), "seqterm") {
                    ProjectFormat::MessagePack
                } else {
                    ProjectFormat::Json
                }
            },
            None => ProjectFormat::Json,
        }
    }

    /// The file extension the format is saved with.
    pub fn extension(self) -> (r: &'static str)
        ensures
            r@ == match self {
                ProjectFormat::Json => "json"@,
                ProjectFormat::MessagePack => "seqterm"@,
            },
    {
        match self {
            ProjectFormat::Json => "json",
            ProjectFormat::MessagePack => "seqterm",
        }
    }
}

/// `s[i..i+2]` is `_v`.
pub open spec fn v_at(s: Seq<char>, i: int) -> bool {
    0 <= i && i + 1 < s.len() && s[i] == '_' && s[i + 1] == 'v'
}

/// The last position of `_v` in `s[..n]`-started matches, or -1.
pub open spec fn last_v(s: Seq<char>, n: int) -> int
    decreases n,
{
    if n <= 0 {
        -1
    } else if v_at(s, n - 1) {
        n - 1
    } else {
        last_v(s, n - 1)
    }
}

/// The stem without a trailing `_vNNN` (three ASCII digits after the last
/// `_v`).
pub open spec fn version_base(s: Seq<char>) -> Seq<char> {
    let p = last_v(s, s.len() as int);
    if p >= 0 && s.len() - (p + 2) == 3 && crate::note::all_digits(s.skip(p + 2)) {
        s.take(p)
    } else {
        s
    }
}

/// `n` written with at least three digits.
pub open spec fn pad3(n: nat) -> Seq<char> {
    if n < 10 {
        seq!['0', '0'] + decimal(n)
    } else if n < 100 {
        seq!['0'] + decimal(n)
    } else {
        decimal(n)
    }
}

/// Strip a trailing `_vNNN` version suffix from a file stem.
pub fn version_base_of(stem: &str) -> (r: String)
    ensures
        r@ == version_base(stem@),
{
    let n = stem.unicode_len();
    let mut i = n;
    while i > 0 && !(i < n && stem.get_char(i - 1) == '_' && stem.get_char(i) == 'v')
        invariant
            i <= n,
            n == stem@.len(),
            last_v(stem@, n as int) == last_v(stem@, i as int),
        decreases i,
    {
        i = i - 1;
    }
    if i == 0 {
        return String::from_str(stem);
    }
    let p = i - 1;
    proof {
        assert(v_at(stem@, p as int));
        assert(last_v(stem@, n as int) == p);
    }
    if n - (p + 2) != 3 {
        return String::from_str(stem);
    }
    let mut all = true;
    let mut k = p + 2;
    while k < n
        invariant
            p + 2 <= k <= n,
            n == stem@.len(),
            all == crate::note::all_digits(stem@.subrange(p + 2, k as int)),
        decreases n - k,
    {
        let c = stem.get_char(k);
        proof {
            let sub = stem@.subrange(p + 2, k as int);
            assert(stem@.subrange(p + 2, k + 1) =~= sub.push(c));
            assert(crate::note::all_digits(sub.push(c)) == (crate::note::all_digits(sub) && crate::note::is_digit(c))) by {
                if crate::note::all_digits(sub) && crate::note::is_digit(c) {
                    assert forall|j: int| 0 <= j < sub.push(c).len() implies crate::note::is_digit(#[trigger] sub.push(c)[j]) by {
                        if j < sub.len() {
                            assert(sub.push(c)[j] == sub[j]);
                        }
                    }
                }
                if crate::note::all_digits(sub.push(c)) {
                    assert(crate::note::is_digit(sub.push(c)[sub.len() as int]));
                    assert forall|j: int| 0 <= j < sub.len() implies crate::note::is_digit(#[trigger] sub[j]) by {
                        assert(sub.push(c)[j] == sub[j]);
                    }
                }
            }
        }
        if !(c >= '0' && c <= '9') {
            all = false;
        }
        k = k + 1;
    }
    proof {
        assert(stem@.subrange(p + 2, n as int) =~= stem@.skip(p + 2));
    }
    if all {
        proof {
            assert(stem@.subrange(0, p as int) =~= stem@.take(p as int));
        }
        String::from_str(stem.substring_char(0, p))
    } else {
        String::from_str(stem)
    }
}

/// The file name of version `n` of a file with stem `stem` and extension
/// `ext`: `{base}_v{n:03}.{ext}`, where `base` is the stem without any
/// version suffix.
pub fn versioned_file_name(stem: &str, n: u32, ext: &str) -> (r: String)
    requires
        n <= 999,
    ensures
        r@ == version_base(stem@) + seq!['_', 'v'] + pad3(n as nat) + seq!['.'] + ext@,
{
    proof {
        reveal_strlit("_v");
        reveal_strlit("00");
        reveal_strlit("0");
        reveal_strlit(".");
    }
    let mut s = version_base_of(stem);
    s.append("_v");
    if n < 10 {
        s.append("00");
    } else if n < 100 {
        s.append("0");
    }
    append_decimal(&mut s, n as u64);
    s.append(".");
    s.append(ext);
    s
}

/// Version `n` is taken: `exists[n - 1]` says its file is already there.
pub open spec fn version_taken(exists: Seq<bool>, n: int) -> bool {
    n - 1 < exists.len() && exists[n - 1]
}

/// The version a versioned save uses: the first `n` in `1..=999` whose file
/// does not exist yet (`exists[n - 1]` tells whether version `n`'s file is
/// there; a version past the flags counts as free), or `None` when all 999
/// are taken.
pub fn next_free_version(exists: &[bool]) -> (r: Option<u32>)
    ensures
        match r {
            Some(n) => {
                &&& 1 <= n <= 999
                &&& !version_taken(exists@, n as int)
                &&& forall|m: int| 1 <= m < n ==> #[trigger] version_taken(exists@, m)
            },
            None => forall|m: int| 1 <= m <= 999 ==> #[trigger] version_taken(exists@, m),
        },
{
    let mut n: u32 = 1;
    while n <= 999
        invariant
            1 <= n <= 1000,
            forall|m: int| 1 <= m < n ==> #[trigger] version_taken(exists@, m),
        decreases 1000 - n,
    {
        let k = (n - 1) as usize;
        if k >= exists.len() || !exists[k] {
            return Some(n);
        }
        n = n + 1;
    }
    None
}

/// The recently used files, newest first.
#[derive(Debug, Clone)]
pub struct RecentFiles {
    pub projects: Vec<String>,
    pub midi_imports: Vec<String>,
}

/// Keep at most this many recent files of each kind.
pub const RECENT_CAP: usize = 10;

/// Put `path` first in `list`, dropping other entries that name the same
/// path, and keep the ten newest.
pub fn push_recent(list: &mut Vec<String>, path: &str)
    ensures
        ({
            let kept = old(list)@.filter(|p: String| !path_eq(p@, path@));
            let n = if kept.len() + 1 > RECENT_CAP {
                RECENT_CAP as int
            } else {
                kept.len() + 1int
            };
            &&& final(list)@.len() == n
            &&& final(list)@[0]@ == path@
            &&& forall|i: int| 1 <= i < n ==> #[trigger] final(list)@[i] == kept[i - 1]
        }),
{
    let mut kept: Vec<String> = Vec::new();
    let ghost src = list@;
    let mut i: usize = 0;
    proof {
        reveal(Seq::filter);
    }
    while i < list.len()
        invariant
            i <= list@.len(),
            list@ == src,
            kept@ == src.take(i as int).filter(|p: String| !path_eq(p@, path@)),
        decreases list@.len() - i,
    {
        proof {
            reveal(Seq::filter);
            assert(src.take(i + 1).drop_last() =~= src.take(i as int));
        }
        if !same_path(list[i].as_str(), path) {
            kept.push(list[i].clone());
        }
        i = i + 1;
    }
    proof {
        assert(src.take(src.len() as int) =~= src);
    }
    let ghost k = kept@;
    let mut out: Vec<String> = Vec::new();
    out.push(String::from_str(path));
    let mut j: usize = 0;
    while j < kept.len() && out.len() < RECENT_CAP
        invariant
            j <= kept@.len(),
            kept@ == k,
            out@.len() == j + 1,
            out@.len() <= RECENT_CAP,
            out@[0]@ == path@,
            forall|m: int| 1 <= m < out@.len() ==> #[trigger] out@[m] == k[m - 1],
        decreases kept@.len() - j,
    {
        out.push(kept[j].clone());
        j = j + 1;
    }
    *list = out;
}

/// Record `path` as the most recent project.
pub fn push_recent_project(recent: &mut RecentFiles, path: &str)
    ensures
        final(recent).midi_imports@ == old(recent).midi_imports@,
        ({
            let kept = old(recent).projects@.filter(|p: String| !path_eq(p@, path@));
            let n = if kept.len() + 1 > RECENT_CAP {
                RECENT_CAP as int
            } else {
                kept.len() + 1int
            };
            &&& final(recent).projects@.len() == n
            &&& final(recent).projects@[0]@ == path@
            &&& forall|i: int| 1 <= i < n ==> #[trigger] final(recent).projects@[i] == kept[i - 1]
        }),
{
    push_recent(&mut recent.projects, path);
}

/// Record `path` as the most recent MIDI import.
pub fn push_recent_midi_import(recent: &mut RecentFiles, path: &str)
    ensures
        final(recent).projects@ == old(recent).projects@,
        ({
            let kept = old(recent).midi_imports@.filter(|p: String| !path_eq(p@, path@));
            let n = if kept.len() + 1 > RECENT_CAP {
                RECENT_CAP as int
            } else {
                kept.len() + 1int
            };
            &&& final(recent).midi_imports@.len() == n
            &&& final(recent).midi_imports@[0]@ == path@
            &&& forall|i: int| 1 <= i < n ==> #[trigger] final(recent).midi_imports@[i] == kept[i - 1]
        }),
{
    push_recent(&mut recent.midi_imports, path);
}

/// The entries of `paths` whose file still exists (`present[i]` tells for
/// `paths[i]`), in order.
pub fn keep_present(paths: &[String], present: &[bool]) -> (r: Vec<String>)
    requires
        present@.len() == paths@.len(),
    ensures
        r@ == Seq::new(paths@.len(), |i: int| i).filter(|i: int| present@[i]).map_values(|i: int| paths@[i]),
{
    let mut out: Vec<String> = Vec::new();
    let ghost idx = Seq::new(paths@.len(), |i: int| i);
    let mut i: usize = 0;
    while i < paths.len()
        invariant
            i <= paths@.len(),
            present@.len() == paths@.len(),
            idx == Seq::new(paths@.len(), |i: int| i),
            out@ == idx.take(i as int).filter(|i: int| present@[i]).map_values(|i: int| paths@[i]),
        decreases paths@.len() - i,
    {
        proof {
            reveal(Seq::filter);
            assert(idx.take(i + 1).drop_last() =~= idx.take(i as int));
            assert(idx.take(i + 1).last() == i as int);
        }
        if present[i] {
            let ghost before = out@;
            out.push(paths[i].clone());
            proof {
                assert(idx.take(i + 1).filter(|i: int| present@[i]) == idx.take(i as int).filter(|i: int| present@[i]).push(i as int));
                assert(out@ =~= idx.take(i + 1).filter(|i: int| present@[i]).map_values(|i: int| paths@[i]));
            }
        } else {
            proof {
                assert(idx.take(i + 1).filter(|i: int| present@[i]) == idx.take(i as int).filter(|i: int| present@[i]));
            }
        }
        i = i + 1;
    }
    proof {
        assert(idx.take(paths@.len() as int) =~= idx);
    }
    out
}

/// The recent projects whose files still exist (`present[i]` tells for the
/// `i`-th), newest first.
pub fn load_recent_projects(recent: &RecentFiles, present: &[bool]) -> (r: Vec<String>)
    requires
        present@.len() == recent.projects@.len(),
    ensures
        r@ == Seq::new(recent.projects@.len(), |i: int| i).filter(|i: int| present@[i]).map_values(|i: int| recent.projects@[i]),
{
    keep_present(recent.projects.as_slice(), present)
}

/// The recent MIDI imports whose files still exist (`present[i]` tells for
/// the `i`-th), newest first.
pub fn load_recent_midi_imports(recent: &RecentFiles, present: &[bool]) -> (r: Vec<String>)
    requires
        present@.len() == recent.midi_imports@.len(),
    ensures
        r@ == Seq::new(recent.midi_imports@.len(), |i: int| i).filter(|i: int| present@[i]).map_values(|i: int| recent.midi_imports@[i]),
{
    keep_present(recent.midi_imports.as_slice(), present)
}

} // verus!
