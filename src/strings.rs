//! Strings of the addressables catalog: length-prefixed basic strings, and
//! segmented strings stored as a backward linked list of fragments.
use std::collections::HashMap;
use vstd::prelude::*;
use vstd::string::*;

use crate::bytes::{read_i32, read_u32, spec_i32_at, spec_u32_at};

verus! {

broadcast use vstd::std_specs::hash::group_hash_axioms;

/// Offset value that marks an absent string, array or value.
pub const SENTINEL: u32 = 0xFFFF_FFFF;

/// Why a catalog could not be decoded.
#[derive(Debug, Clone, Copy, PartialEq, Eq, Structural)]
pub enum CatalogError {
    /// A read ran past the end of the data, or an offset is too small.
    OutOfBounds,
    /// The header does not begin with the catalog magic.
    BadMagic,
    /// The header names a format version other than 2.
    UnsupportedVersion,
    /// An offset array whose byte size is negative or not a multiple of 4,
    /// or a key table with an odd number of entries.
    MalformedArray,
    /// A string whose bytes are not UTF-8, or whose length is negative.
    InvalidString,
    /// A segmented string whose fragment chain never ends.
    CyclicString,
    /// A tagged value of a type outside the supported set.
    UnknownType,
    /// A catalog key that is not a string.
    NonStringKey,
    /// A location whose data is not an `AssetBundleRequestOptions`.
    UnexpectedData,
    /// A bundle location whose internal id does not start with the runtime-path placeholder.
    NotRuntimePath,
}

/// What `String::from_utf8` makes of a byte sequence.
pub uninterp spec fn utf8_decode(b: Seq<u8>) -> Option<Seq<char>>;

/// The characters held by an optional string.
pub open spec fn opt_view(r: Option<String>) -> Option<Seq<char>> {
    match r {
        Some(s) => Some(s@),
        None => None,
    }
}

/// Relies on `String::from_utf8`: the characters of `d[from..to]` when
/// those bytes are valid UTF-8.
#[verifier::external_body]
fn utf8_string(d: &[u8], from: usize, to: usize) -> (r: Option<String>)
    requires
        from <= to <= d@.len(),
    ensures
        opt_view(r) == utf8_decode(d@.subrange(from as int, to as int)),
{
    String::from_utf8(d[from..to].to_vec()).ok()
}

/// Relies on `String::push`: appends one character.
#[verifier::external_body]
pub(crate) fn push_char(s: &mut String, c: char)
    ensures
        final(s)@ == old(s)@.push(c),
{
    s.push(c)
}

/// The low 30 bits of an encoded offset: the byte offset itself.
pub open spec fn real_offset(enc: u32) -> u32 {
    enc & 0x3fff_ffff
}

/// Whether an encoded offset read with separator `sep` names a segmented string.
pub open spec fn is_dynamic(enc: u32, sep: char) -> bool {
    enc & 0x4000_0000 != 0 && sep != '\0'
}

/// The separator that decides how `enc` is read: `sep` for a segmented
/// string, the null character otherwise.
pub open spec fn effective_sep(enc: u32, sep: char) -> char {
    if is_dynamic(enc, sep) {
        sep
    } else {
        '\0'
    }
}

/// A basic string at `off`: its byte length as `i32` at `off - 4`, then its UTF-8 bytes.
pub open spec fn spec_basic_string(d: Seq<u8>, off: u32) -> Option<Seq<char>> {
    if off < 4 {
        None
    } else {
        match spec_i32_at(d, off - 4) {
            None => None,
            Some(len) => if len < 0 || off + len > d.len() {
                None
            } else {
                utf8_decode(d.subrange(off as int, off + len))
            },
        }
    }
}

/// An encoded offset read without separator: empty at the sentinel, else a basic string.
pub open spec fn spec_plain_string(d: Seq<u8>, enc: u32) -> Option<Seq<char>> {
    if enc == SENTINEL {
        Some(Seq::empty())
    } else {
        spec_basic_string(d, real_offset(enc))
    }
}

/// The fragment offsets of the chain of nodes starting at `node`, in the
/// order the chain visits them. Each node holds a fragment offset and the
/// offset of the next node, the sentinel ending the chain. `None` when a
/// read fails or the chain is longer than `fuel`.
pub open spec fn spec_chain(d: Seq<u8>, node: u32, fuel: nat) -> Option<Seq<u32>>
    decreases fuel,
{
    if fuel == 0 {
        None
    } else {
        match (spec_u32_at(d, node as int), spec_u32_at(d, node + 4)) {
            (Some(part), Some(next)) => if next == SENTINEL {
                Some(seq![part])
            } else {
                match spec_chain(d, next, (fuel - 1) as nat) {
                    Some(rest) => Some(seq![part] + rest),
                    None => None,
                }
            },
            _ => None,
        }
    }
}

/// `parts[n-1] sep parts[n-2] sep ... sep parts[j]`: the fragments from
/// index `j` on, last first, joined with `sep`.
pub open spec fn join_reversed(parts: Seq<Seq<char>>, j: int, sep: char) -> Seq<char>
    decreases parts.len() - j,
{
    if j >= parts.len() {
        Seq::empty()
    } else if j + 1 == parts.len() {
        parts[j]
    } else {
        join_reversed(parts, j + 1, sep) + seq![sep] + parts[j]
    }
}

/// A segmented string: its fragments read as plain strings, reversed and joined.
/// A chain that visits more nodes than the data has bytes repeats a node and
/// so never ends: such a chain is refused.
pub open spec fn spec_segmented(d: Seq<u8>, off: u32, sep: char) -> Option<Seq<char>> {
    match spec_chain(d, off, d.len()) {
        None => None,
        Some(ps) => if forall|i: int| 0 <= i < ps.len() ==> spec_plain_string(d, #[trigger] ps[i]) is Some {
            Some(join_reversed(Seq::new(ps.len(), |i: int| spec_plain_string(d, ps[i]).unwrap()), 0, sep))
        } else {
            None
        },
    }
}

/// The string an encoded offset stands for, read with separator `sep`.
pub open spec fn spec_encoded_string(d: Seq<u8>, enc: u32, sep: char) -> Option<Seq<char>> {
    if enc == SENTINEL {
        Some(Seq::empty())
    } else if is_dynamic(enc, sep) {
        spec_segmented(d, real_offset(enc), sep)
    } else {
        spec_basic_string(d, real_offset(enc))
    }
}

/// Decoded strings by encoded offset, each with the separator it was read with.
pub struct StringCache {
    pub(crate) map: HashMap<u32, (char, String)>,
}

impl StringCache {
    /// Every cached string is the decoding of its offset in `d`.
    pub closed spec fn wf(&self, d: Seq<u8>) -> bool {
        forall|k: u32| #[trigger]
            self.map@.contains_key(k) ==> self.map@[k].0 == effective_sep(k, self.map@[k].0)
                && spec_encoded_string(d, k, self.map@[k].0) == Some(self.map@[k].1@)
    }

    /// The string cached for `enc` read with separator `sep`.
    pub closed spec fn cached(&self, enc: u32, sep: char) -> Option<Seq<char>> {
        if self.map@.contains_key(enc) && self.map@[enc].0 == effective_sep(enc, sep) {
            Some(self.map@[enc].1@)
        } else {
            None
        }
    }

    pub fn new() -> (r: StringCache)
        ensures
            forall|d: Seq<u8>| r.wf(d),
    {
        StringCache { map: HashMap::new() }
    }
}

/// Reads the basic string at byte offset `offset`.
pub fn read_basic_string(d: &[u8], offset: u32) -> (r: Result<String, CatalogError>)
    ensures
        r matches Ok(s) ==> spec_basic_string(d@, offset) == Some(s@),
        r is Err ==> spec_basic_string(d@, offset) is None,
{
    if offset < 4 {
        return Err(CatalogError::OutOfBounds);
    }
    let len = match read_i32(d, (offset - 4) as usize) {
        Some(l) => l,
        None => return Err(CatalogError::OutOfBounds),
    };
    if len < 0 {
        return Err(CatalogError::InvalidString);
    }
    let start = offset as usize;
    if start > d.len() || d.len() - start < len as usize {
        return Err(CatalogError::OutOfBounds);
    }
    match utf8_string(d, start, start + len as usize) {
        Some(s) => Ok(s),
        None => Err(CatalogError::InvalidString),
    }
}

/// Reads the segmented string whose last node is at `offset`.
pub fn read_segmented_string(d: &[u8], cache: &mut StringCache, offset: u32, separator: char) -> (r:
    Result<String, CatalogError>)
    requires
        old(cache).wf(d@),
    ensures
        final(cache).wf(d@),
        r matches Ok(s) ==> spec_segmented(d@, offset, separator) == Some(s@),
        r is Err ==> spec_segmented(d@, offset, separator) is None,
{
    let mut parts: Vec<String> = Vec::new();
    let ghost mut offs: Seq<u32> = Seq::empty();
    let mut node = offset;
    let mut fuel: usize = d.len();
    loop
        invariant_except_break
            spec_chain(d@, offset, d@.len()) == (match spec_chain(d@, node, fuel as nat) {
                Some(rest) => Some(offs + rest),
                None => None::<Seq<u32>>,
            }),
        invariant
            cache.wf(d@),
            fuel <= d@.len(),
            parts@.len() == offs.len(),
            forall|i: int| 0 <= i < offs.len() ==> spec_plain_string(d@, #[trigger] offs[i]) == Some(parts@[i]@),
        ensures
            cache.wf(d@),
            parts@.len() >= 1,
            parts@.len() == offs.len(),
            forall|i: int| 0 <= i < offs.len() ==> spec_plain_string(d@, #[trigger] offs[i]) == Some(parts@[i]@),
            spec_chain(d@, offset, d@.len()) == Some(offs),
        decreases fuel,
    {
        if fuel == 0 {
            return Err(CatalogError::CyclicString);
        }
        if d.len() < 8 || node as usize > d.len() - 8 {
            return Err(CatalogError::OutOfBounds);
        }
        let part = read_u32(d, node as usize).unwrap();
        let next = read_u32(d, node as usize + 4).unwrap();
        let s = match read_encoded_string(d, cache, part) {
            Ok(s) => s,
            Err(e) => {
                proof {
                    match spec_chain(d@, offset, d@.len()) {
                        Some(ps) => {
                            let rest = spec_chain(d@, node, fuel as nat).unwrap();
                            assert(rest[0] == part);
                            assert(ps[offs.len() as int] == part);
                        },
                        None => {},
                    }
                }
                return Err(e);
            },
        };
        parts.push(s);
        proof {
            offs = offs.push(part);
        }
        if next == SENTINEL {
            proof {
                assert(offs.drop_last() + seq![part] =~= offs);
            }
            break;
        }
        node = next;
        fuel = fuel - 1;
        proof {
            assert forall|rest: Seq<u32>| offs.drop_last() + (seq![part] + rest) =~= offs + rest by {}
        }
    }
    let k = parts.len();
    let mut result = parts[k - 1].clone();
    let mut j: usize = k - 1;
    let ghost strs = Seq::new(offs.len(), |i: int| spec_plain_string(d@, offs[i]).unwrap());
    while j > 0
        invariant
            k == parts@.len(),
            k == offs.len(),
            j < k,
            strs.len() == k,
            forall|i: int| 0 <= i < k ==> strs[i] == parts@[i]@,
            result@ == join_reversed(strs, j as int, separator),
        decreases j,
    {
        j = j - 1;
        push_char(&mut result, separator);
        result.append(parts[j].as_str());
    }
    Ok(result)
}

/// Reads the encoded offset `encoded_offset` as a plain string. Results are cached.
pub fn read_encoded_string(d: &[u8], cache: &mut StringCache, encoded_offset: u32) -> (r: Result<String, CatalogError>)
    requires
        old(cache).wf(d@),
    ensures
        final(cache).wf(d@),
        r matches Ok(s) ==> spec_plain_string(d@, encoded_offset) == Some(s@),
        r is Err ==> spec_plain_string(d@, encoded_offset) is None,
        encoded_offset == SENTINEL ==> *final(cache) == *old(cache),
        old(cache).cached(encoded_offset, '\0') matches Some(x) ==> *final(cache) == *old(cache) && (r matches Ok(s) && s@ == x),
        encoded_offset != SENTINEL && r is Ok ==> final(cache).cached(encoded_offset, '\0') == Some(r.unwrap()@),
{
    if encoded_offset == SENTINEL {
        return Ok(String::new());
    }
    match cache.map.get(&encoded_offset) {
        Some(entry) => {
            if entry.0 == '\0' {
                return Ok(entry.1.clone());
            }
        },
        None => {},
    }
    match read_basic_string(d, encoded_offset & 0x3fff_ffff) {
        Ok(s) => {
            cache.map.insert(encoded_offset, ('\0', s.clone()));
            Ok(s)
        },
        Err(e) => Err(e),
    }
}

/// Reads the string that `encoded_offset` stands for, with `separator`
/// joining the fragments of a segmented string. Results are cached.
pub fn read_encoded_string_sep(
    d: &[u8],
    cache: &mut StringCache,
    encoded_offset: u32,
    separator: char,
) -> (r: Result<String, CatalogError>)
    requires
        old(cache).wf(d@),
    ensures
        final(cache).wf(d@),
        r matches Ok(s) ==> spec_encoded_string(d@, encoded_offset, separator) == Some(s@),
        r is Err ==> spec_encoded_string(d@, encoded_offset, separator) is None,
        encoded_offset == SENTINEL ==> *final(cache) == *old(cache),
        old(cache).cached(encoded_offset, separator) matches Some(x) ==> *final(cache) == *old(cache) && (r matches Ok(s) && s@ == x),
        encoded_offset != SENTINEL && r is Ok ==> final(cache).cached(encoded_offset, separator) == Some(r.unwrap()@),
{
    let dynamic = (encoded_offset & 0x4000_0000) != 0 && separator != '\0';
    if encoded_offset == SENTINEL || !dynamic {
        return read_encoded_string(d, cache, encoded_offset);
    }
    match cache.map.get(&encoded_offset) {
        Some(entry) => {
            if entry.0 == separator {
                return Ok(entry.1.clone());
            }
        },
        None => {},
    }
    match read_segmented_string(d, cache, encoded_offset & 0x3fff_ffff, separator) {
        Ok(s) => {
            cache.map.insert(encoded_offset, (separator, s.clone()));
            Ok(s)
        },
        Err(e) => Err(e),
    }
}

} // verus!
