//! Engine records the library reads: build settings, scripts, text assets.
use vstd::prelude::*;
use vstd::string::*;

use crate::archive_path::{trim_end_matches, trim_suffix_all};
use crate::strings::push_char;
use crate::text::ends_with;

verus! {

/// What `Path::file_stem` makes of a path: the final component without
/// its extension.
pub uninterp spec fn file_stem_of(p: Seq<char>) -> Option<Seq<char>>;

/// Relies on `std::path::Path::file_stem`: the final component of the
/// path without its extension, when the path has a final component.
#[verifier::external_body]
fn file_stem(p: &str) -> (r: Option<String>)
    ensures
        r matches Some(s) ==> file_stem_of(p@) == Some(s@),
        r is None ==> file_stem_of(p@) is None,
{
    std::path::Path::new(p).file_stem().and_then(|s| s.to_str()).map(|s| s.to_string())
}

/// The build settings of a game: the scenes it was built with.
pub struct BuildSettings {
    pub scenes: Vec<String>,
}

impl BuildSettings {
    /// The name of each scene: its path's file stem. `None` when a scene
    /// path has no file name.
    pub fn scene_names(&self) -> (r: Option<Vec<String>>)
        ensures
            r matches Some(v) ==> v@.len() == self.scenes@.len() && forall|i: int| 0 <= i < v@.len() ==> file_stem_of(self.scenes@[i]@) == Some(#[trigger] v@[i]@),
            r is None ==> exists|i: int| 0 <= i < self.scenes@.len() && file_stem_of(#[trigger] self.scenes@[i]@) is None,
    {
        let mut out: Vec<String> = Vec::new();
        let mut i: usize = 0;
        while i < self.scenes.len()
            invariant
                i <= self.scenes@.len(),
                out@.len() == i,
                forall|j: int| 0 <= j < i ==> file_stem_of(self.scenes@[j]@) == Some(#[trigger] out@[j]@),
            decreases self.scenes@.len() - i,
        {
            match file_stem(self.scenes[i].as_str()) {
                Some(s) => out.push(s),
                None => return None,
            }
            i = i + 1;
        }
        Some(out)
    }
}

/// A script of the game, as a MonoBehaviour refers to it.
#[allow(non_snake_case)]
pub struct MonoScript {
    pub m_Name: String,
    pub m_ExecutionOrder: i32,
    pub m_PropertiesHash: [u8; 16],
    pub m_ClassName: String,
    pub m_Namespace: String,
    pub m_AssemblyName: String,
}

impl MonoScript {
    /// The assembly name without its `.dll` extension(s).
    pub fn assembly_name_base(&self) -> (r: String)
        ensures
            r@ == trim_suffix_all(self.m_AssemblyName@, ".dll"@),
    {
        trim_end_matches(self.m_AssemblyName.as_str(), ".dll")
    }

    /// The assembly's file name: the assembly name, with `.dll` appended
    /// unless it ends so already.
    pub fn assembly_name(&self) -> (r: String)
        ensures
            r@ == if self.m_AssemblyName@.len() >= 4 && self.m_AssemblyName@.subrange(self.m_AssemblyName@.len() - 4, self.m_AssemblyName@.len() as int) == ".dll"@ {
                self.m_AssemblyName@
            } else {
                self.m_AssemblyName@ + ".dll"@
            },
    {
        let suffix = ".dll";
        proof {
            reveal_strlit(".dll");
        }
        if ends_with(self.m_AssemblyName.as_str(), suffix) {
            self.m_AssemblyName.as_str().to_string()
        } else {
            let mut r = self.m_AssemblyName.as_str().to_string();
            r.append(suffix);
            r
        }
    }

    /// The class name qualified by its namespace, when it has one.
    pub fn full_name(&self) -> (r: String)
        ensures
            r@ == if self.m_Namespace@.len() == 0 {
                self.m_ClassName@
            } else {
                self.m_Namespace@ + seq!['.'] + self.m_ClassName@
            },
    {
        if self.m_Namespace.as_str().unicode_len() == 0 {
            self.m_ClassName.as_str().to_string()
        } else {
            let mut r = self.m_Namespace.as_str().to_string();
            push_char(&mut r, '.');
            r.append(self.m_ClassName.as_str());
            r
        }
    }
}

/// A text asset: a name and its text.
#[allow(non_snake_case)]
pub struct TextAsset {
    pub m_Name: String,
    pub m_Script: String,
}

} // verus!
