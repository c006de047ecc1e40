//! Offset arrays and resource-location records of the addressables catalog.
use vstd::prelude::*;

use crate::bytes::{i32_field, le_u32, read_u32, spec_i32_at, spec_u32_at, u32_field};
use crate::strings::{read_encoded_string_sep, spec_encoded_string, CatalogError, StringCache, SENTINEL};
use crate::text::{after_last, after_last_char};
use crate::values::{
    decode_v2, spec_assembly_class, spec_decode_v2, AbroView, AssemblyClass,
    AssemblyClassView, AssetBundleRequestOptions, Value, ValueView,
};

verus! {

/// An offset array at `enc`: its byte size as `i32` at `enc - 4`, then that
/// many bytes of `u32` offsets. Empty at the sentinel; `None` when the size
/// is negative, not a multiple of 4, or runs past the data.
pub open spec fn spec_offset_array(d: Seq<u8>, enc: u32) -> Option<Seq<u32>> {
    if enc == SENTINEL {
        Some(Seq::empty())
    } else if enc < 4 {
        None
    } else {
        match spec_i32_at(d, enc - 4) {
            None => None,
            Some(size) => if size < 0 || size % 4 != 0 || enc + size > d.len() {
                None
            } else {
                Some(Seq::new((size / 4) as nat, |i: int| le_u32(d, enc + 4 * i)))
            },
        }
    }
}

/// Reads the offset array at `encoded_offset`.
pub fn read_offset_array(d: &[u8], encoded_offset: u32) -> (r: Result<Vec<u32>, CatalogError>)
    ensures
        r matches Ok(v) ==> spec_offset_array(d@, encoded_offset) == Some(v@),
        r is Err ==> spec_offset_array(d@, encoded_offset) is None,
{
    if encoded_offset == SENTINEL {
        return Ok(Vec::new());
    }
    if encoded_offset < 4 {
        return Err(CatalogError::OutOfBounds);
    }
    let size = match i32_field(d, encoded_offset - 4, 0) {
        Some(s) => s,
        None => return Err(CatalogError::OutOfBounds),
    };
    if size < 0 || size % 4 != 0 {
        return Err(CatalogError::MalformedArray);
    }
    let base = encoded_offset as usize;
    if base > d.len() || d.len() - base < size as usize {
        return Err(CatalogError::OutOfBounds);
    }
    let count = (size / 4) as usize;
    assert(4 * count == size) by (nonlinear_arith)
        requires
            count == size / 4,
            size % 4 == 0,
    ;
    let n = d.len();
    let mut v: Vec<u32> = Vec::new();
    let mut i: usize = 0;
    while i < count
        invariant
            count == size / 4,
            4 * count == size,
            base == encoded_offset,
            base + size <= n,
            n == d@.len(),
            i <= count,
            v@ =~= Seq::new(i as nat, |j: int| le_u32(d@, base + 4 * j)),
        decreases count - i,
    {
        let x = read_u32(d, base + 4 * i).unwrap();
        v.push(x);
        i = i + 1;
    }
    Ok(v)
}

/// The fixed part of a resource location: seven 32-bit fields.
#[derive(Debug, Clone, Copy, PartialEq, Eq, Structural)]
pub struct ResourceLocationHeader {
    pub primary_key_offset: u32,
    pub internal_id_offset: u32,
    pub provider_id_offset: u32,
    pub dependencies_offset: u32,
    pub dependency_hash_code: i32,
    pub data_offset: u32,
    pub type_offset: u32,
}

pub open spec fn spec_location_header(d: Seq<u8>, off: u32) -> Option<ResourceLocationHeader> {
    match (spec_u32_at(d, off as int), spec_u32_at(d, off + 4), spec_u32_at(d, off + 8), spec_u32_at(d, off + 12), spec_i32_at(d, off + 16), spec_u32_at(d, off + 20), spec_u32_at(d, off + 24)) {
        (Some(a), Some(b), Some(c), Some(e), Some(h), Some(f), Some(g)) => Some(
            ResourceLocationHeader {
                primary_key_offset: a,
                internal_id_offset: b,
                provider_id_offset: c,
                dependencies_offset: e,
                dependency_hash_code: h,
                data_offset: f,
                type_offset: g,
            },
        ),
        _ => None,
    }
}

impl ResourceLocationHeader {
    /// Reads the location header at `offset`.
    pub fn from_reader(d: &[u8], offset: u32) -> (r: Result<ResourceLocationHeader, CatalogError>)
        ensures
            r matches Ok(h) ==> spec_location_header(d@, offset) == Some(h),
            r is Err ==> spec_location_header(d@, offset) is None,
    {
        match (u32_field(d, offset, 0), u32_field(d, offset, 4), u32_field(d, offset, 8), u32_field(d, offset, 12), i32_field(d, offset, 16), u32_field(d, offset, 20), u32_field(d, offset, 24)) {
            (Some(a), Some(b), Some(c), Some(e), Some(h), Some(f), Some(g)) => Ok(
                ResourceLocationHeader {
                    primary_key_offset: a,
                    internal_id_offset: b,
                    provider_id_offset: c,
                    dependencies_offset: e,
                    dependency_hash_code: h,
                    data_offset: f,
                    type_offset: g,
                },
            ),
            _ => Err(CatalogError::OutOfBounds),
        }
    }
}

/// Where and how a resource is loaded. `dependencies` holds the catalog
/// offsets of the locations to load first; the catalog decodes each of them
/// once and keeps it under that offset.
pub struct ResourceLocation {
    pub internal_id: String,
    pub provider_id: String,
    pub dependencies: Vec<u32>,
    pub data: Option<AssetBundleRequestOptions>,
    pub dependency_hash_code: i32,
    pub primary_key: String,
    pub type_: AssemblyClass,
}

pub ghost struct ResourceLocationView {
    pub internal_id: Seq<char>,
    pub provider_id: Seq<char>,
    pub dependencies: Seq<u32>,
    pub data: Option<AbroView>,
    pub dependency_hash_code: i32,
    pub primary_key: Seq<char>,
    pub type_: AssemblyClassView,
}

pub open spec fn opt_abro_view(a: Option<AssetBundleRequestOptions>) -> Option<AbroView> {
    match a {
        Some(x) => Some(x@),
        None => None,
    }
}

impl View for ResourceLocation {
    type V = ResourceLocationView;

    open spec fn view(&self) -> ResourceLocationView {
        ResourceLocationView {
            internal_id: self.internal_id@,
            provider_id: self.provider_id@,
            dependencies: self.dependencies@,
            data: opt_abro_view(self.data),
            dependency_hash_code: self.dependency_hash_code,
            primary_key: self.primary_key@,
            type_: self.type_@,
        }
    }
}

/// A location's data: no value, or request options; any other value is refused.
pub open spec fn spec_location_data(d: Seq<u8>, off: u32) -> Option<Option<AbroView>> {
    match spec_decode_v2(d, off) {
        Some(None) => Some(None),
        Some(Some(ValueView::Abro(_, a))) => Some(Some(a)),
        _ => None,
    }
}

/// The resource location whose header is at `off`. Primary key and internal
/// id are read with separator `/`, the provider id with `.`.
#[verifier::opaque]
pub open spec fn spec_location(d: Seq<u8>, off: u32) -> Option<ResourceLocationView> {
    match spec_location_header(d, off) {
        None => None,
        Some(h) => match (spec_encoded_string(d, h.primary_key_offset, '/'), spec_encoded_string(d, h.internal_id_offset, '/'), spec_encoded_string(d, h.provider_id_offset, '.'), spec_offset_array(d, h.dependencies_offset), spec_location_data(d, h.data_offset), spec_assembly_class(d, h.type_offset)) {
            (Some(pk), Some(iid), Some(pid), Some(deps), Some(data), Some(t)) => Some(
                ResourceLocationView {
                    internal_id: iid,
                    provider_id: pid,
                    dependencies: deps,
                    data,
                    dependency_hash_code: h.dependency_hash_code,
                    primary_key: pk,
                    type_: t,
                },
            ),
            _ => None,
        },
    }
}

impl ResourceLocation {
    /// The provider's class name without its namespace.
    pub fn provider_name(&self) -> (r: String)
        ensures
            r@ == after_last(self.provider_id@, '.'),
    {
        after_last_char(self.provider_id.as_str(), '.')
    }

    /// Decodes the resource location whose header is at `offset`.
    pub fn from_catalog_at(d: &[u8], cache: &mut StringCache, offset: u32) -> (r: Result<ResourceLocation, CatalogError>)
        requires
            old(cache).wf(d@),
        ensures
            final(cache).wf(d@),
            r matches Ok(l) ==> spec_location(d@, offset) == Some(l@),
            r is Err ==> spec_location(d@, offset) is None,
    {
        reveal(spec_location);
        let header = ResourceLocationHeader::from_reader(d, offset)?;
        let primary_key = read_encoded_string_sep(d, cache, header.primary_key_offset, '/')?;
        let internal_id = read_encoded_string_sep(d, cache, header.internal_id_offset, '/')?;
        let provider_id = read_encoded_string_sep(d, cache, header.provider_id_offset, '.')?;
        let dependencies = read_offset_array(d, header.dependencies_offset)?;
        let data = match decode_v2(d, cache, header.data_offset)? {
            None => None,
            Some(Value::Abro(_, a)) => Some(a),
            Some(_) => return Err(CatalogError::UnexpectedData),
        };
        let type_ = AssemblyClass::from_reader(d, cache, header.type_offset)?;
        Ok(ResourceLocation {
            internal_id,
            provider_id,
            dependencies,
            data,
            dependency_hash_code: header.dependency_hash_code,
            primary_key,
            type_,
        })
    }
}

} // verus!
