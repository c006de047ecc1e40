//! The addressables settings file and what is derived from it.
use vstd::prelude::*;
use vstd::string::*;

use crate::text::{starts_with, substring};

verus! {

/// A .NET type named by its assembly and its class name.
#[allow(non_snake_case)]
pub struct AssemblyClass {
    pub m_AssemblyName: String,
    pub m_ClassName: String,
}

/// Where a catalog is found and which provider reads it.
#[allow(non_snake_case)]
pub struct CatalogLocation {
    pub m_Keys: Vec<String>,
    pub m_InternalId: String,
    pub m_Provider: String,
    pub m_Dependencies: Vec<()>,
    pub m_ResourceType: AssemblyClass,
}

/// The addressables runtime settings shipped with a game.
#[allow(non_snake_case)]
pub struct AddressablesSettings {
    pub m_buildTarget: String,
    pub m_SettingsHash: String,
    pub m_CatalogLocations: Vec<CatalogLocation>,
    pub m_LogResourceManagerExceptions: bool,
    pub m_ExtraInitializationData: Vec<()>,
    pub m_DisableCatalogUpdateOnStart: bool,
    pub m_IsLocalCatalogInBundle: bool,
    pub m_CertificateHandlerType: AssemblyClass,
    pub m_AddressablesVersion: String,
    pub m_maxConcurrentWebRequests: u32,
    pub m_CatalogRequestsTimeout: u32,
}

/// `base` joined with `rel` by `/`; an absolute `rel` stands alone.
pub open spec fn join_path(base: Seq<char>, rel: Seq<char>) -> Seq<char> {
    if rel.len() > 0 && rel[0] == '/' {
        rel
    } else {
        base + seq!['/'] + rel
    }
}

/// Every occurrence of `pat` in `s`, from left to right and not
/// overlapping, replaced by `rep`.
pub open spec fn replace_all(s: Seq<char>, pat: Seq<char>, rep: Seq<char>) -> Seq<char>
    decreases s.len(),
{
    if s.len() == 0 {
        s
    } else if pat.len() > 0 && pat.len() <= s.len() && s.subrange(0, pat.len() as int) == pat {
        rep + replace_all(s.subrange(pat.len() as int, s.len() as int), pat, rep)
    } else {
        seq![s[0]] + replace_all(s.subrange(1, s.len() as int), pat, rep)
    }
}

/// Replaces every occurrence of `pat` in `s` by `rep`.
pub fn replace_str(s: &str, pat: &str, rep: &str) -> (r: String)
    ensures
        r@ == replace_all(s@, pat@, rep@),
{
    let n = s.unicode_len();
    let m = pat.unicode_len();
    let mut out = String::new();
    let mut i: usize = 0;
    assert(s@.subrange(0, n as int) =~= s@);
    assert(out@ + replace_all(s@, pat@, rep@) =~= replace_all(s@, pat@, rep@));
    while i < n
        invariant
            n == s@.len(),
            m == pat@.len(),
            i <= n,
            replace_all(s@, pat@, rep@) == out@ + replace_all(s@.subrange(i as int, n as int), pat@, rep@),
        decreases n - i,
    {
        let rest = substring(s, i, n);
        proof {
            reveal_with_fuel(replace_all, 1);
        }
        if m > 0 && starts_with(rest.as_str(), pat) {
            proof {
                assert(rest@.subrange(m as int, rest@.len() as int) =~= s@.subrange(i + m, n as int));
                assert(out@ + (rep@ + replace_all(s@.subrange(i + m, n as int), pat@, rep@)) =~= (out@ + rep@) + replace_all(s@.subrange(i + m, n as int), pat@, rep@));
            }
            out.append(rep);
            i = i + m;
        } else {
            let c = s.get_char(i);
            proof {
                assert(rest@.subrange(1, rest@.len() as int) =~= s@.subrange(i + 1, n as int));
                assert(rest@[0] == c);
                assert(out@ + (seq![c] + replace_all(s@.subrange(i + 1, n as int), pat@, rep@)) =~= out@.push(c) + replace_all(s@.subrange(i + 1, n as int), pat@, rep@));
            }
            crate::strings::push_char(&mut out, c);
            i = i + 1;
        }
    }
    proof {
        assert(s@.subrange(n as int, n as int).len() == 0);
        assert(out@ + s@.subrange(n as int, n as int) =~= out@);
    }
    out
}

/// Replaces the runtime-path placeholder of a catalog location with the
/// folder it stands for.
pub fn evaluate_string(s: &str) -> (r: String)
    ensures
        r@ == replace_all(s@, "{UnityEngine.AddressableAssets.Addressables.RuntimePath}"@, "StreamingAssets/aa"@),
{
    replace_str(s, "{UnityEngine.AddressableAssets.Addressables.RuntimePath}", "StreamingAssets/aa")
}

impl AddressablesSettings {
    /// The build folder, relative to the game's data folder.
    pub fn build_folder(&self) -> (r: String)
        ensures
            r@ == join_path("StreamingAssets/aa"@, self.m_buildTarget@),
    {
        let t = self.m_buildTarget.as_str();
        if t.unicode_len() > 0 && t.get_char(0) == '/' {
            return t.to_string();
        }
        let mut r = "StreamingAssets/aa".to_string();
        crate::strings::push_char(&mut r, '/');
        r.append(t);
        r
    }

    /// The paths of the catalogs that the content-catalog provider reads,
    /// placeholders resolved, in the order the settings list them.
    pub fn catalog_paths(&self) -> (r: Vec<String>)
        ensures
            r@.map_values(|x: String| x@) == spec_catalog_paths(self.m_CatalogLocations@),
    {
        let provider = "UnityEngine.AddressableAssets.ResourceProviders.ContentCatalogProvider".to_string();
        let mut out: Vec<String> = Vec::new();
        let mut i: usize = 0;
        while i < self.m_CatalogLocations.len()
            invariant
                i <= self.m_CatalogLocations@.len(),
                provider@ == "UnityEngine.AddressableAssets.ResourceProviders.ContentCatalogProvider"@,
                out@.map_values(|x: String| x@) == spec_catalog_paths(self.m_CatalogLocations@.subrange(0, i as int)),
            decreases self.m_CatalogLocations@.len() - i,
        {
            let loc = &self.m_CatalogLocations[i];
            proof {
                assert(self.m_CatalogLocations@.subrange(0, i + 1).drop_last() =~= self.m_CatalogLocations@.subrange(0, i as int));
            }
            if loc.m_Provider == provider {
                let p = evaluate_string(loc.m_InternalId.as_str());
                let ghost before = out@;
                out.push(p);
                proof {
                    assert(out@.map_values(|x: String| x@) =~= before.map_values(|x: String| x@).push(p@));
                }
            }
            i = i + 1;
        }
        assert(self.m_CatalogLocations@.subrange(0, self.m_CatalogLocations@.len() as int) =~= self.m_CatalogLocations@);
        out
    }
}

/// The resolved paths of the locations read by the content-catalog provider, in order.
pub open spec fn spec_catalog_paths(locs: Seq<CatalogLocation>) -> Seq<Seq<char>>
    decreases locs.len(),
{
    if locs.len() == 0 {
        Seq::empty()
    } else {
        let last = locs.last();
        spec_catalog_paths(locs.drop_last()) + if last.m_Provider@ == "UnityEngine.AddressableAssets.ResourceProviders.ContentCatalogProvider"@ {
            seq![replace_all(last.m_InternalId@, "{UnityEngine.AddressableAssets.Addressables.RuntimePath}"@, "StreamingAssets/aa"@)]
        } else {
            Seq::empty()
        }
    }
}

} // verus!
