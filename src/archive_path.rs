//! Identities of serialized files stored inside bundle archives:
//! `archive:/<bundle>/<file>`.
use vstd::prelude::*;
use vstd::string::*;

use crate::resolver::{extension_of, file_name_of};
use crate::text::{before_first, before_first_char, ends_with, find_char, starts_with, substring};

verus! {

/// The part of `s` left once every trailing copy of `suffix` is removed.
pub open spec fn trim_suffix_all(s: Seq<char>, suffix: Seq<char>) -> Seq<char>
    decreases s.len(),
{
    if suffix.len() > 0 && suffix.len() <= s.len() && s.subrange(s.len() - suffix.len(), s.len() as int) == suffix {
        trim_suffix_all(s.subrange(0, s.len() - suffix.len()), suffix)
    } else {
        s
    }
}

/// A new string with every trailing copy of `suffix` removed from `s`.
pub fn trim_end_matches(s: &str, suffix: &str) -> (r: String)
    ensures
        r@ == trim_suffix_all(s@, suffix@),
{
    let m = suffix.unicode_len();
    let mut cur = s.to_string();
    if m == 0 {
        return cur;
    }
    loop
        invariant
            m == suffix@.len(),
            m > 0,
            trim_suffix_all(cur@, suffix@) == trim_suffix_all(s@, suffix@),
        decreases cur@.len(),
    {
        if !ends_with(cur.as_str(), suffix) {
            return cur;
        }
        let n = cur.as_str().unicode_len();
        cur = substring(cur.as_str(), 0, n - m);
    }
}

/// The two segments of `archive:/<bundle>/<file>[/...]`, when the path has
/// that prefix and both segments are non-empty.
pub open spec fn spec_archive_parts(p: Seq<char>) -> Option<(Seq<char>, Seq<char>)> {
    let pre = "archive:/"@;
    if pre.len() <= p.len() && p.subrange(0, pre.len() as int) == pre {
        let rest = p.subrange(pre.len() as int, p.len() as int);
        match rest.index_of_first('/') {
            None => None,
            Some(i) => {
                let bundle = rest.subrange(0, i);
                let file = before_first(rest.subrange(i + 1, rest.len() as int), '/');
                if bundle.len() > 0 && file.len() > 0 {
                    Some((bundle, file))
                } else {
                    None
                }
            },
        }
    } else {
        None
    }
}

/// A file inside a bundle archive: the bundle's identifier and the entry's name.
pub struct ArchivePath {
    pub bundle: String,
    pub file: String,
}

impl ArchivePath {
    pub fn new(bundle: &str, file: &str) -> (r: ArchivePath)
        ensures
            r.bundle@ == bundle@,
            r.file@ == file@,
    {
        ArchivePath { bundle: bundle.to_string(), file: file.to_string() }
    }

    /// The path of the entry of a bundle named like the bundle itself.
    pub fn same(path: &str) -> (r: ArchivePath)
        ensures
            r.bundle@ == path@,
            r.file@ == path@,
    {
        ArchivePath { bundle: path.to_string(), file: path.to_string() }
    }

    /// Parses `archive:/<bundle>/<file>`. Anything else, a path with a single
    /// segment included, is not an archive path.
    pub fn try_parse(path: &str) -> (r: Option<ArchivePath>)
        ensures
            r matches Some(a) ==> spec_archive_parts(path@) == Some((a.bundle@, a.file@)),
            r is None ==> spec_archive_parts(path@) is None,
    {
        let prefix = "archive:/";
        if !starts_with(path, prefix) {
            return None;
        }
        let m = prefix.unicode_len();
        let n = path.unicode_len();
        let rest = substring(path, m, n);
        proof {
            rest@.index_of_first_ensures('/');
        }
        let i = match find_char(rest.as_str(), '/') {
            Some(i) => i,
            None => return None,
        };
        let bundle = substring(rest.as_str(), 0, i);
        let rn = rest.as_str().unicode_len();
        let tail = substring(rest.as_str(), i + 1, rn);
        let file = before_first_char(tail.as_str(), '/');
        if bundle.as_str().unicode_len() == 0 || file.as_str().unicode_len() == 0 {
            return None;
        }
        Some(ArchivePath { bundle, file })
    }

    /// `archive:/<bundle>/<file>`.
    pub fn to_path_string(&self) -> (r: String)
        ensures
            r@ == "archive:/"@ + self.bundle@ + "/"@ + self.file@,
    {
        let mut r = "archive:/".to_string();
        r.append(self.bundle.as_str());
        r.append("/");
        r.append(self.file.as_str());
        r
    }
}

/// The place in `entries` of the bundle's main serialized file: the first
/// entry that is not a `.sharedAssets` sibling.
pub fn main_entry(entries: &Vec<String>) -> (r: Option<usize>)
    ensures
        r matches Some(i) ==> i < entries@.len() && !is_shared_assets(entries@[i as int]@)
            && forall|j: int| 0 <= j < i ==> is_shared_assets(#[trigger] entries@[j]@),
        r is None ==> forall|j: int| 0 <= j < entries@.len() ==> is_shared_assets(#[trigger] entries@[j]@),
{
    let mut i: usize = 0;
    while i < entries.len()
        invariant
            i <= entries@.len(),
            forall|j: int| 0 <= j < i ==> is_shared_assets(#[trigger] entries@[j]@),
        decreases entries@.len() - i,
    {
        if !ends_with(entries[i].as_str(), ".sharedAssets") {
            return Some(i);
        }
        i = i + 1;
    }
    None
}

/// Whether an entry name ends with `.sharedAssets`.
pub open spec fn is_shared_assets(name: Seq<char>) -> bool {
    ".sharedAssets"@.len() <= name.len() && name.subrange(name.len() - ".sharedAssets"@.len(), name.len() as int) == ".sharedAssets"@
}

/// The place in `entries` of the entry that names a bundle: the first one
/// whose final component has no extension.
pub fn bundle_identifier(entries: &Vec<String>) -> (r: Option<usize>)
    ensures
        r matches Some(i) ==> i < entries@.len() && extension_of(file_name_of(entries@[i as int]@)) is None
            && forall|j: int| 0 <= j < i ==> extension_of(file_name_of(#[trigger] entries@[j]@)) is Some,
        r is None ==> forall|j: int| 0 <= j < entries@.len() ==> extension_of(file_name_of(#[trigger] entries@[j]@)) is Some,
{
    let mut i: usize = 0;
    while i < entries.len()
        invariant
            i <= entries@.len(),
            forall|j: int| 0 <= j < i ==> extension_of(file_name_of(#[trigger] entries@[j]@)) is Some,
        decreases entries@.len() - i,
    {
        if !has_extension(entries[i].as_str()) {
            return Some(i);
        }
        i = i + 1;
    }
    None
}

fn has_extension(path: &str) -> (r: bool)
    ensures
        r == extension_of(file_name_of(path@)) is Some,
{
    let name = crate::text::after_last_char(path, '/');
    proof {
        name@.index_of_last_ensures('.');
    }
    match crate::text::rfind_char(name.as_str(), '.') {
        Some(i) => i > 0,
        None => false,
    }
}

/// The archive path of the main entry of bundle `cab`: `archive:/<cab>/<cab>`.
pub fn wrap_archive(cab: &str) -> (r: String)
    ensures
        r@ == "archive:/"@ + cab@ + "/"@ + cab@,
{
    ArchivePath::same(cab).to_path_string()
}

/// The bundle an archive path names, when its entry is the bundle's main
/// entry or that entry's `.sharedAssets` sibling.
pub fn unwrap_archive(path: &str) -> (r: Option<String>)
    ensures
        r matches Some(s) ==> spec_archive_parts(path@) matches Some((b, f)) && b == s@ && trim_suffix_all(f, ".sharedAssets"@) == s@,
        r is None ==> !(spec_archive_parts(path@) matches Some((b, f)) && b == trim_suffix_all(f, ".sharedAssets"@)),
{
    let a = match ArchivePath::try_parse(path) {
        Some(a) => a,
        None => return None,
    };
    let file = trim_end_matches(a.file.as_str(), ".sharedAssets");
    if !crate::text::str_eq(a.bundle.as_str(), file.as_str()) {
        return None;
    }
    Some(file)
}

} // verus!
