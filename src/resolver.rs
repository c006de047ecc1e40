//! Which of a game's files hold serialized objects, and the game's app info.
use vstd::prelude::*;
use vstd::string::*;

use crate::text::{after_last, after_last_char, find_char, starts_with, str_eq, substring};

verus! {

/// The value of a string of decimal digits.
pub open spec fn digits_value(s: Seq<char>) -> int
    decreases s.len(),
{
    if s.len() == 0 {
        0
    } else {
        digits_value(s.drop_last()) * 10 + (s.last() as int - '0' as int)
    }
}

pub open spec fn all_digits(s: Seq<char>) -> bool {
    forall|i: int| 0 <= i < s.len() ==> '0' <= #[trigger] s[i] <= '9'
}

/// One or more decimal digits, with no sign, whose value fits in `usize`.
pub open spec fn spec_parse_digits(d: Seq<char>) -> Option<usize> {
    if d.len() > 0 && all_digits(d) && digits_value(d) <= usize::MAX {
        Some(digits_value(d) as usize)
    } else {
        None
    }
}

/// `str::parse::<usize>`: an optional `+`, then one or more decimal digits
/// whose value fits in `usize`.
pub open spec fn spec_parse_usize(s: Seq<char>) -> Option<usize> {
    let d = if s.len() > 0 && s[0] == '+' {
        s.subrange(1, s.len() as int)
    } else {
        s
    };
    if d.len() > 0 && all_digits(d) && digits_value(d) <= usize::MAX {
        Some(digits_value(d) as usize)
    } else {
        None
    }
}

proof fn lemma_digits_grow(s: Seq<char>, k: int)
    requires
        all_digits(s),
        0 <= k <= s.len(),
    ensures
        0 <= digits_value(s.subrange(0, k)) <= digits_value(s),
    decreases s.len() - k,
{
    if k < s.len() {
        lemma_digits_grow(s, k + 1);
        assert(s.subrange(0, k + 1).drop_last() =~= s.subrange(0, k));
        assert('0' <= s[k] <= '9');
    } else {
        assert(s.subrange(0, k) =~= s);
    }
    lemma_digits_nonneg(s);
}

proof fn lemma_digits_nonneg(s: Seq<char>)
    requires
        all_digits(s),
    ensures
        digits_value(s) >= 0,
    decreases s.len(),
{
    if s.len() > 0 {
        assert(all_digits(s.drop_last()));
        lemma_digits_nonneg(s.drop_last());
        assert('0' <= s[s.len() - 1] <= '9');
    }
}

/// Parses a decimal `usize` the way `str::parse` does.
pub fn parse_usize(s: &str) -> (r: Option<usize>)
    ensures
        r == spec_parse_usize(s@),
{
    let n = s.unicode_len();
    let start: usize = if n > 0 && s.get_char(0) == '+' { 1 } else { 0 };
    let d = substring(s, start, n);
    let ghost dv = d@;
    proof {
        assert(s@.subrange(0, n as int) =~= s@);
        assert(dv == (if s@.len() > 0 && s@[0] == '+' { s@.subrange(1, s@.len() as int) } else { s@ }));
    }
    let m = d.as_str().unicode_len();
    if m == 0 {
        return None;
    }
    let mut v: usize = 0;
    let mut i: usize = 0;
    while i < m
        invariant
            m == dv.len(),
            d@ == dv,
            dv == (if s@.len() > 0 && s@[0] == '+' { s@.subrange(1, s@.len() as int) } else { s@ }),
            i <= m,
            all_digits(dv.subrange(0, i as int)),
            v == digits_value(dv.subrange(0, i as int)),
        decreases m - i,
    {
        let c = d.as_str().get_char(i);
        proof {
            assert(dv.subrange(0, i + 1).drop_last() =~= dv.subrange(0, i as int));
        }
        if c < '0' || c > '9' {
            proof {
                assert(dv[i as int] == c);
                assert(!all_digits(dv));
            }
            return None;
        }
        let digit = (c as u32 - '0' as u32) as usize;
        if v > (usize::MAX - digit) / 10 {
            proof {
                assert(v * 10 + digit > usize::MAX) by (nonlinear_arith)
                    requires
                        v > (usize::MAX - digit) / 10,
                        digit <= 9,
                ;
                assert(dv.subrange(0, i + 1).last() == c);
                assert(digits_value(dv.subrange(0, i + 1)) == v * 10 + digit);
                assert(all_digits(dv.subrange(0, i + 1)));
                if all_digits(dv) {
                    lemma_digits_grow(dv, i + 1);
                }
            }
            return None;
        }
        v = v * 10 + digit;
        proof {
            assert(all_digits(dv.subrange(0, i + 1)));
        }
        i = i + 1;
    }
    assert(dv.subrange(0, m as int) =~= dv);
    Some(v)
}

/// The final component of a relative path.
pub open spec fn file_name_of(p: Seq<char>) -> Seq<char> {
    after_last(p, '/')
}

/// The extension of a file name: what follows its last `.`, unless that
/// `.` starts the name.
pub open spec fn extension_of(name: Seq<char>) -> Option<Seq<char>> {
    match name.index_of_last('.') {
        Some(i) => if i > 0 {
            Some(name.subrange(i + 1, name.len() as int))
        } else {
            None
        },
        None => None,
    }
}

/// The level number of a file named `level<digits>`.
pub open spec fn spec_level_index(name: Seq<char>) -> Option<usize> {
    if 5 <= name.len() && name.subrange(0, 5) == "level"@ {
        spec_parse_digits(name.subrange(5, name.len() as int))
    } else {
        None
    }
}

/// Whether a file holds serialized objects: it is named `globalgamemanagers`
/// or `level<digits>`, or has the extension `assets`.
pub open spec fn spec_is_serialized(path: Seq<char>) -> bool {
    let name = file_name_of(path);
    spec_level_index(name) is Some || extension_of(name) == Some("assets"@) || name == "globalgamemanagers"@
}

/// The level number of a file named `level<digits>`.
pub fn level_index(name: &str) -> (r: Option<usize>)
    ensures
        r == spec_level_index(name@),
{
    proof {
        reveal_strlit("level");
    }
    if !starts_with(name, "level") {
        return None;
    }
    let n = name.unicode_len();
    let rest = substring(name, 5, n);
    if rest.as_str().unicode_len() > 0 && rest.as_str().get_char(0) == '+' {
        proof {
            assert(!('0' <= rest@[0] <= '9'));
        }
        return None;
    }
    parse_usize(rest.as_str())
}

/// Whether the file at `path` holds serialized objects.
pub fn is_serialized_file(path: &str) -> (r: bool)
    ensures
        r == spec_is_serialized(path@),
{
    let name = after_last_char(path, '/');
    if level_index(name.as_str()).is_some() {
        return true;
    }
    if str_eq(name.as_str(), "globalgamemanagers") {
        return true;
    }
    proof {
        name@.index_of_last_ensures('.');
    }
    let n = name.as_str().unicode_len();
    let ext = match crate::text::rfind_char(name.as_str(), '.') {
        Some(i) => {
            if i == 0 {
                return false;
            }
            substring(name.as_str(), i + 1, n)
        },
        None => return false,
    };
    str_eq(ext.as_str(), "assets")
}

/// The files among `all` that hold serialized objects, in order.
pub open spec fn spec_serialized_files(all: Seq<Seq<char>>) -> Seq<Seq<char>>
    decreases all.len(),
{
    if all.len() == 0 {
        Seq::empty()
    } else {
        spec_serialized_files(all.drop_last()) + if spec_is_serialized(all.last()) {
            seq![all.last()]
        } else {
            Seq::empty()
        }
    }
}

/// The level numbers of the files among `all` named `level<digits>`, in order.
pub open spec fn spec_level_files(all: Seq<Seq<char>>) -> Seq<usize>
    decreases all.len(),
{
    if all.len() == 0 {
        Seq::empty()
    } else {
        spec_level_files(all.drop_last()) + match spec_level_index(file_name_of(all.last())) {
            Some(x) => seq![x],
            None => Seq::empty(),
        }
    }
}

pub open spec fn strings_view(v: Seq<String>) -> Seq<Seq<char>> {
    v.map_values(|s: String| s@)
}

/// The files among `all` that hold serialized objects, in order.
pub fn serialized_files(all: &Vec<String>) -> (r: Vec<String>)
    ensures
        strings_view(r@) == spec_serialized_files(strings_view(all@)),
{
    let mut out: Vec<String> = Vec::new();
    let mut i: usize = 0;
    while i < all.len()
        invariant
            i <= all@.len(),
            strings_view(out@) == spec_serialized_files(strings_view(all@.subrange(0, i as int))),
        decreases all@.len() - i,
    {
        proof {
            assert(strings_view(all@.subrange(0, i + 1)).drop_last() =~= strings_view(all@.subrange(0, i as int)));
            assert(strings_view(all@.subrange(0, i + 1)).last() == all@[i as int]@);
        }
        if is_serialized_file(all[i].as_str()) {
            let ghost before = out@;
            out.push(all[i].clone());
            proof {
                assert(strings_view(out@) =~= strings_view(before).push(all@[i as int]@));
            }
        }
        i = i + 1;
    }
    assert(all@.subrange(0, all@.len() as int) =~= all@);
    out
}

/// The level numbers of the files among `all` named `level<digits>`, in order.
pub fn level_files(all: &Vec<String>) -> (r: Vec<usize>)
    ensures
        r@ == spec_level_files(strings_view(all@)),
{
    let mut out: Vec<usize> = Vec::new();
    let mut i: usize = 0;
    while i < all.len()
        invariant
            i <= all@.len(),
            out@ == spec_level_files(strings_view(all@.subrange(0, i as int))),
        decreases all@.len() - i,
    {
        proof {
            assert(strings_view(all@.subrange(0, i + 1)).drop_last() =~= strings_view(all@.subrange(0, i as int)));
            assert(strings_view(all@.subrange(0, i + 1)).last() == all@[i as int]@);
        }
        let name = after_last_char(all[i].as_str(), '/');
        match level_index(name.as_str()) {
            Some(x) => {
                out.push(x);
            },
            None => {},
        }
        i = i + 1;
    }
    assert(all@.subrange(0, all@.len() as int) =~= all@);
    out
}

/// Where a loose copy of a built-in resource may lie: a path under
/// `Library/` is looked for under `Resources/` first.
pub open spec fn spec_resources_override(path: Seq<char>) -> Option<Seq<char>> {
    let pre = "Library/"@;
    if pre.len() <= path.len() && path.subrange(0, pre.len() as int) == pre {
        Some("Resources/"@ + path.subrange(pre.len() as int, path.len() as int))
    } else if path == "Library"@ {
        Some("Resources"@)
    } else {
        None
    }
}

/// The path of the loose copy that a built-in resource may have.
pub fn resources_override(path: &str) -> (r: Option<String>)
    ensures
        r matches Some(s) ==> spec_resources_override(path@) == Some(s@),
        r is None ==> spec_resources_override(path@) is None,
{
    let pre = "Library/";
    if starts_with(path, pre) {
        let m = pre.unicode_len();
        let n = path.unicode_len();
        let mut r = "Resources/".to_string();
        let rest = substring(path, m, n);
        r.append(rest.as_str());
        return Some(r);
    }
    if str_eq(path, "Library") {
        return Some("Resources".to_string());
    }
    None
}

/// Whether `path` names a bundle file: its extension is `bundle`.
pub fn is_bundle_path(path: &str) -> (r: bool)
    ensures
        r == (extension_of(file_name_of(path@)) == Some("bundle"@)),
{
    let name = after_last_char(path, '/');
    proof {
        name@.index_of_last_ensures('.');
    }
    let n = name.as_str().unicode_len();
    match crate::text::rfind_char(name.as_str(), '.') {
        Some(i) => {
            if i == 0 {
                return false;
            }
            let ext = substring(name.as_str(), i + 1, n);
            str_eq(ext.as_str(), "bundle")
        },
        None => false,
    }
}

/// Whether a folder named `name` is a game's data folder: `<game>_Data`.
pub fn is_unity_data_dir_name(name: &str) -> (r: bool)
    ensures
        r == (6 <= name@.len() && name@.subrange(name@.len() - 5, name@.len() as int) == "_Data"@),
{
    proof {
        reveal_strlit("_Data");
    }
    let n = name.unicode_len();
    n >= 6 && crate::text::ends_with(name, "_Data")
}

/// The developer and the name of a game, from its `app.info` file.
pub struct AppInfo {
    pub developer: String,
    pub name: String,
}

impl AppInfo {
    /// Splits `app.info` at its first line break: the developer before it,
    /// the name after it. `None` when it has no line break.
    pub fn parse(contents: &str) -> (r: Option<AppInfo>)
        ensures
            r matches Some(a) ==> contents@.index_of_first('\n') matches Some(i)
                && a.developer@ == contents@.subrange(0, i) && a.name@ == contents@.subrange(i + 1, contents@.len() as int),
            r is None ==> contents@.index_of_first('\n') is None,
    {
        proof {
            contents@.index_of_first_ensures('\n');
        }
        let n = contents.unicode_len();
        match find_char(contents, '\n') {
            Some(i) => Some(AppInfo { developer: substring(contents, 0, i), name: substring(contents, i + 1, n) }),
            None => None,
        }
    }
}

} // verus!
