//! Records of the addressables catalog that sit at byte offsets: .NET type
//! names, tagged values, request options and provider data.
use vstd::prelude::*;
use vstd::string::*;

use crate::bytes::{
    i16_field, i32_field, i64_field, spec_i16_at, spec_i32_at, spec_i64_at, spec_u32_at,
    spec_u8_at, u32_field, u8_field,
};
use crate::strings::{
    read_encoded_string, read_encoded_string_sep, spec_encoded_string, spec_plain_string,
    CatalogError, StringCache, SENTINEL,
};
use crate::text::{after_last, after_last_char, before_first, before_first_char, str_eq};

verus! {

/// A .NET type named by its assembly and its full class name.
#[allow(non_snake_case)]
pub struct AssemblyClass {
    pub m_AssemblyName: String,
    pub m_ClassName: String,
}

pub ghost struct AssemblyClassView {
    pub assembly: Seq<char>,
    pub class: Seq<char>,
}

impl View for AssemblyClass {
    type V = AssemblyClassView;

    open spec fn view(&self) -> AssemblyClassView {
        AssemblyClassView { assembly: self.m_AssemblyName@, class: self.m_ClassName@ }
    }
}

/// The name used to recognise a tagged value's type: the assembly's short
/// name (up to its first comma), `"; "`, and the full class name.
pub open spec fn match_name(t: AssemblyClassView) -> Seq<char> {
    before_first(t.assembly, ',') + "; "@ + t.class
}

/// A type-name record at `off`: two encoded offsets, both read with separator `.`.
pub open spec fn spec_assembly_class(d: Seq<u8>, off: u32) -> Option<AssemblyClassView> {
    match (spec_u32_at(d, off as int), spec_u32_at(d, off + 4)) {
        (Some(a), Some(c)) => match (spec_encoded_string(d, a, '.'), spec_encoded_string(d, c, '.')) {
            (Some(x), Some(y)) => Some(AssemblyClassView { assembly: x, class: y }),
            _ => None,
        },
        _ => None,
    }
}

impl AssemblyClass {
    /// The class name without its namespace: what follows the last `.`.
    pub fn class_name(&self) -> (r: String)
        ensures
            r@ == after_last(self.m_ClassName@, '.'),
    {
        after_last_char(self.m_ClassName.as_str(), '.')
    }

    /// Decodes the type-name record at `offset`.
    pub fn from_reader(d: &[u8], cache: &mut StringCache, offset: u32) -> (r: Result<AssemblyClass, CatalogError>)
        requires
            old(cache).wf(d@),
        ensures
            final(cache).wf(d@),
            r matches Ok(t) ==> spec_assembly_class(d@, offset) == Some(t@),
            r is Err ==> spec_assembly_class(d@, offset) is None,
    {
        let a = match u32_field(d, offset, 0) {
            Some(v) => v,
            None => return Err(CatalogError::OutOfBounds),
        };
        let c = match u32_field(d, offset, 4) {
            Some(v) => v,
            None => return Err(CatalogError::OutOfBounds),
        };
        let assembly = read_encoded_string_sep(d, cache, a, '.')?;
        let class = read_encoded_string_sep(d, cache, c, '.')?;
        Ok(AssemblyClass { m_AssemblyName: assembly, m_ClassName: class })
    }

    /// The assembly's short name: its name up to the first comma.
    pub fn get_assembly_short_name(&self) -> (r: String)
        ensures
            r@ == before_first(self.m_AssemblyName@, ','),
    {
        before_first_char(self.m_AssemblyName.as_str(), ',')
    }

    /// `"<assembly short name>; <class name>"`.
    pub fn get_match_name(&self) -> (r: String)
        ensures
            r@ == match_name(self@),
    {
        let mut r = self.get_assembly_short_name();
        r.append("; ");
        r.append(self.m_ClassName.as_str());
        r
    }
}

/// A 128-bit hash as four words.
#[derive(Debug, Clone, Copy, PartialEq, Eq, Hash, Structural)]
pub struct Hash128(pub u32, pub u32, pub u32, pub u32);

/// Download settings shared by asset bundle requests.
#[derive(Debug, Clone, Copy, PartialEq, Eq, Hash, Structural)]
pub struct CommonInfo {
    pub timeout: i16,
    pub redirect_limit: u8,
    pub retry_count: u8,
    pub flags: i32,
}

/// A hash record at `off`: four `u32`.
pub open spec fn spec_hash128(d: Seq<u8>, off: u32) -> Option<Hash128> {
    match (spec_u32_at(d, off as int), spec_u32_at(d, off + 4), spec_u32_at(d, off + 8), spec_u32_at(d, off + 12)) {
        (Some(a), Some(b), Some(c), Some(e)) => Some(Hash128(a, b, c, e)),
        _ => None,
    }
}

/// A common-info record at `off`: `i16` timeout, `u8` redirect limit, `u8` retry count, `i32` flags.
pub open spec fn spec_common_info(d: Seq<u8>, off: u32) -> Option<CommonInfo> {
    match (spec_i16_at(d, off as int), spec_u8_at(d, off + 2), spec_u8_at(d, off + 3), spec_i32_at(d, off + 4)) {
        (Some(t), Some(rl), Some(rc), Some(f)) => Some(
            CommonInfo { timeout: t, redirect_limit: rl, retry_count: rc, flags: f },
        ),
        _ => None,
    }
}

fn read_hash128(d: &[u8], offset: u32) -> (r: Result<Hash128, CatalogError>)
    ensures
        r matches Ok(h) ==> spec_hash128(d@, offset) == Some(h),
        r is Err ==> spec_hash128(d@, offset) is None,
{
    match (u32_field(d, offset, 0), u32_field(d, offset, 4), u32_field(d, offset, 8), u32_field(d, offset, 12)) {
        (Some(a), Some(b), Some(c), Some(e)) => Ok(Hash128(a, b, c, e)),
        _ => Err(CatalogError::OutOfBounds),
    }
}

impl CommonInfo {
    /// Decodes the common-info record at `offset`.
    pub fn from_reader(d: &[u8], offset: u32) -> (r: Result<CommonInfo, CatalogError>)
        ensures
            r matches Ok(c) ==> spec_common_info(d@, offset) == Some(c),
            r is Err ==> spec_common_info(d@, offset) is None,
    {
        match (i16_field(d, offset, 0), u8_field(d, offset, 2), u8_field(d, offset, 3), i32_field(d, offset, 4)) {
            (Some(t), Some(rl), Some(rc), Some(f)) => Ok(
                CommonInfo { timeout: t, redirect_limit: rl, retry_count: rc, flags: f },
            ),
            _ => Err(CatalogError::OutOfBounds),
        }
    }
}

/// Options of a request for an asset bundle. `bundle_name` is the bundle's
/// logical name, not the file name of its archive.
pub struct AssetBundleRequestOptions {
    pub hash: Hash128,
    pub crc: u32,
    pub common_info: CommonInfo,
    pub bundle_name: String,
    pub bundle_size: u32,
}

pub ghost struct AbroView {
    pub hash: Hash128,
    pub crc: u32,
    pub common_info: CommonInfo,
    pub bundle_name: Seq<char>,
    pub bundle_size: u32,
}

impl View for AssetBundleRequestOptions {
    type V = AbroView;

    open spec fn view(&self) -> AbroView {
        AbroView {
            hash: self.hash,
            crc: self.crc,
            common_info: self.common_info,
            bundle_name: self.bundle_name@,
            bundle_size: self.bundle_size,
        }
    }
}

/// A request-options record at `off`: offsets of the hash, of the bundle
/// name (separator `_`) and of the common info, around the crc and the size.
pub open spec fn spec_abro(d: Seq<u8>, off: u32) -> Option<AbroView> {
    match (spec_u32_at(d, off as int), spec_u32_at(d, off + 4), spec_u32_at(d, off + 8), spec_u32_at(d, off + 12), spec_u32_at(d, off + 16)) {
        (Some(h), Some(n), Some(crc), Some(size), Some(ci)) => match (spec_hash128(d, h), spec_encoded_string(d, n, '_'), spec_common_info(d, ci)) {
            (Some(hash), Some(name), Some(common)) => Some(
                AbroView { hash, crc, common_info: common, bundle_name: name, bundle_size: size },
            ),
            _ => None,
        },
        _ => None,
    }
}

/// The default request options: zero hash, crc and size, zeroed common
/// info, empty bundle name.
pub open spec fn default_abro() -> AbroView {
    AbroView {
        hash: Hash128(0, 0, 0, 0),
        crc: 0,
        common_info: CommonInfo { timeout: 0, redirect_limit: 0, retry_count: 0, flags: 0 },
        bundle_name: Seq::empty(),
        bundle_size: 0,
    }
}

impl AssetBundleRequestOptions {
    /// The default request options.
    pub fn zeroed() -> (r: AssetBundleRequestOptions)
        ensures
            r@ == default_abro(),
    {
        AssetBundleRequestOptions {
            hash: Hash128(0, 0, 0, 0),
            crc: 0,
            common_info: CommonInfo { timeout: 0, redirect_limit: 0, retry_count: 0, flags: 0 },
            bundle_name: String::new(),
            bundle_size: 0,
        }
    }

    /// Decodes the request-options record at `offset`.
    pub fn from_reader(d: &[u8], cache: &mut StringCache, offset: u32) -> (r: Result<AssetBundleRequestOptions, CatalogError>)
        requires
            old(cache).wf(d@),
        ensures
            final(cache).wf(d@),
            r matches Ok(a) ==> spec_abro(d@, offset) == Some(a@),
            r is Err ==> spec_abro(d@, offset) is None,
    {
        let (h, n, crc, size, ci) = match (u32_field(d, offset, 0), u32_field(d, offset, 4), u32_field(d, offset, 8), u32_field(d, offset, 12), u32_field(d, offset, 16)) {
            (Some(h), Some(n), Some(crc), Some(size), Some(ci)) => (h, n, crc, size, ci),
            _ => return Err(CatalogError::OutOfBounds),
        };
        let hash = read_hash128(d, h)?;
        let bundle_name = read_encoded_string_sep(d, cache, n, '_')?;
        let common_info = CommonInfo::from_reader(d, ci)?;
        Ok(AssetBundleRequestOptions { hash, crc, common_info, bundle_name, bundle_size: size })
    }
}

/// A tagged value of the catalog.
pub enum Value {
    Int(i32),
    Long(i64),
    Bool(bool),
    String(String),
    Hash128(Hash128),
    Abro(AssemblyClass, AssetBundleRequestOptions),
}

pub ghost enum ValueView {
    Int(i32),
    Long(i64),
    Bool(bool),
    Str(Seq<char>),
    Hash128(Hash128),
    Abro(AssemblyClassView, AbroView),
}

impl View for Value {
    type V = ValueView;

    open spec fn view(&self) -> ValueView {
        match self {
            Value::Int(v) => ValueView::Int(*v),
            Value::Long(v) => ValueView::Long(*v),
            Value::Bool(v) => ValueView::Bool(*v),
            Value::String(s) => ValueView::Str(s@),
            Value::Hash128(h) => ValueView::Hash128(*h),
            Value::Abro(t, a) => ValueView::Abro(t@, a@),
        }
    }
}

impl Value {
    /// The string held by a string value.
    pub fn as_string(&self) -> (r: Option<&str>)
        ensures
            r matches Some(s) ==> self@ == ValueView::Str(s@),
            r is None ==> !(self@ is Str),
    {
        match self {
            Value::String(s) => Some(s.as_str()),
            _ => None,
        }
    }

    /// The string held by a string value.
    pub fn into_string(self) -> (r: Option<String>)
        ensures
            r matches Some(s) ==> self@ == ValueView::Str(s@),
            r is None ==> !(self@ is Str),
    {
        match self {
            Value::String(s) => Some(s),
            _ => None,
        }
    }

    /// The request options held by a request-options value.
    pub fn into_abro(self) -> (r: Option<AssetBundleRequestOptions>)
        ensures
            r matches Some(a) ==> self@ matches ValueView::Abro(_, x) && x == a@,
            r is None ==> !(self@ is Abro),
    {
        match self {
            Value::Abro(_, a) => Some(a),
            _ => None,
        }
    }
}

/// The six value types a tagged value may have.
#[derive(Debug, Clone, Copy, PartialEq, Eq, Structural)]
pub enum ValueKind {
    Int,
    Long,
    Bool,
    Str,
    Hash128,
    Abro,
}

/// The value type a match name stands for.
pub open spec fn spec_value_kind(name: Seq<char>) -> Option<ValueKind> {
    if name == "mscorlib; System.Int32"@ {
        Some(ValueKind::Int)
    } else if name == "mscorlib; System.Int64"@ {
        Some(ValueKind::Long)
    } else if name == "mscorlib; System.Boolean"@ {
        Some(ValueKind::Bool)
    } else if name == "mscorlib; System.String"@ {
        Some(ValueKind::Str)
    } else if name == "UnityEngine.CoreModule; UnityEngine.Hash128"@ {
        Some(ValueKind::Hash128)
    } else if name
        == "Unity.ResourceManager; UnityEngine.ResourceManagement.ResourceProviders.AssetBundleRequestOptions"@ {
        Some(ValueKind::Abro)
    } else {
        None
    }
}

fn value_kind(name: &str) -> (r: Option<ValueKind>)
    ensures
        r == spec_value_kind(name@),
{
    if str_eq(name, "mscorlib; System.Int32") {
        Some(ValueKind::Int)
    } else if str_eq(name, "mscorlib; System.Int64") {
        Some(ValueKind::Long)
    } else if str_eq(name, "mscorlib; System.Boolean") {
        Some(ValueKind::Bool)
    } else if str_eq(name, "mscorlib; System.String") {
        Some(ValueKind::Str)
    } else if str_eq(name, "UnityEngine.CoreModule; UnityEngine.Hash128") {
        Some(ValueKind::Hash128)
    } else if str_eq(
        name,
        "Unity.ResourceManager; UnityEngine.ResourceManagement.ResourceProviders.AssetBundleRequestOptions",
    ) {
        Some(ValueKind::Abro)
    } else {
        None
    }
}

/// The value of type `kind` whose object sits at `obj`; the sentinel object
/// offset stands for the type's default value.
pub open spec fn spec_value_of(d: Seq<u8>, kind: ValueKind, t: AssemblyClassView, obj: u32) -> Option<Option<ValueView>> {
    let default = obj == SENTINEL;
    match kind {
        ValueKind::Int => if default {
            Some(Some(ValueView::Int(0)))
        } else {
            match spec_i32_at(d, obj as int) {
                Some(v) => Some(Some(ValueView::Int(v))),
                None => None,
            }
        },
        ValueKind::Long => if default {
            Some(Some(ValueView::Long(0)))
        } else {
            match spec_i64_at(d, obj as int) {
                Some(v) => Some(Some(ValueView::Long(v))),
                None => None,
            }
        },
        ValueKind::Bool => if default {
            Some(Some(ValueView::Bool(false)))
        } else {
            match spec_u8_at(d, obj as int) {
                Some(v) => Some(Some(ValueView::Bool(v != 0))),
                None => None,
            }
        },
        ValueKind::Str => if default {
            Some(Some(ValueView::Str(Seq::empty())))
        } else {
            match (spec_u32_at(d, obj as int), spec_u8_at(d, obj + 4)) {
                (Some(so), Some(sep)) => match spec_encoded_string(d, so, sep as char) {
                    Some(s) => Some(Some(ValueView::Str(s))),
                    None => None,
                },
                _ => None,
            }
        },
        ValueKind::Hash128 => if default {
            Some(Some(ValueView::Hash128(Hash128(0, 0, 0, 0))))
        } else {
            match spec_hash128(d, obj) {
                Some(h) => Some(Some(ValueView::Hash128(h))),
                None => None,
            }
        },
        ValueKind::Abro => if default {
            Some(Some(ValueView::Abro(t, default_abro())))
        } else {
            match spec_abro(d, obj) {
                Some(a) => Some(Some(ValueView::Abro(t, a))),
                None => None,
            }
        },
    }
}

/// A tagged value at `off`: the offsets of its type name and of its object.
/// The sentinel offset stands for no value. `None` when decoding fails.
pub open spec fn spec_decode_v2(d: Seq<u8>, off: u32) -> Option<Option<ValueView>> {
    if off == SENTINEL {
        Some(None)
    } else {
        match (spec_u32_at(d, off as int), spec_u32_at(d, off + 4)) {
            (Some(tn), Some(obj)) => match spec_assembly_class(d, tn) {
                Some(t) => match spec_value_kind(match_name(t)) {
                    Some(kind) => spec_value_of(d, kind, t, obj),
                    None => None,
                },
                None => None,
            },
            _ => None,
        }
    }
}

/// The view of a decoded optional value.
pub open spec fn opt_value_view(v: Option<Value>) -> Option<ValueView> {
    match v {
        Some(x) => Some(x@),
        None => None,
    }
}

/// Decodes the tagged value at `offset`.
pub fn decode_v2(d: &[u8], cache: &mut StringCache, offset: u32) -> (r: Result<Option<Value>, CatalogError>)
    requires
        old(cache).wf(d@),
    ensures
        final(cache).wf(d@),
        r matches Ok(v) ==> spec_decode_v2(d@, offset) == Some(opt_value_view(v)),
        r is Err ==> spec_decode_v2(d@, offset) is None,
        offset == SENTINEL ==> *final(cache) == *old(cache),
{
    if offset == SENTINEL {
        return Ok(None);
    }
    let type_name_offset = match u32_field(d, offset, 0) {
        Some(v) => v,
        None => return Err(CatalogError::OutOfBounds),
    };
    let object_offset = match u32_field(d, offset, 4) {
        Some(v) => v,
        None => return Err(CatalogError::OutOfBounds),
    };
    let is_default_object = object_offset == SENTINEL;
    let serialized_type = AssemblyClass::from_reader(d, cache, type_name_offset)?;
    let match_name = serialized_type.get_match_name();
    let kind = match value_kind(match_name.as_str()) {
        Some(k) => k,
        None => return Err(CatalogError::UnknownType),
    };
    match kind {
        ValueKind::Int => {
            if is_default_object {
                return Ok(Some(Value::Int(0)));
            }
            match i32_field(d, object_offset, 0) {
                Some(v) => Ok(Some(Value::Int(v))),
                None => Err(CatalogError::OutOfBounds),
            }
        },
        ValueKind::Long => {
            if is_default_object {
                return Ok(Some(Value::Long(0)));
            }
            match i64_field(d, object_offset, 0) {
                Some(v) => Ok(Some(Value::Long(v))),
                None => Err(CatalogError::OutOfBounds),
            }
        },
        ValueKind::Bool => {
            if is_default_object {
                return Ok(Some(Value::Bool(false)));
            }
            match u8_field(d, object_offset, 0) {
                Some(v) => Ok(Some(Value::Bool(v != 0))),
                None => Err(CatalogError::OutOfBounds),
            }
        },
        ValueKind::Str => {
            if is_default_object {
                return Ok(Some(Value::String(String::new())));
            }
            let string_offset = match u32_field(d, object_offset, 0) {
                Some(v) => v,
                None => return Err(CatalogError::OutOfBounds),
            };
            let separator = match u8_field(d, object_offset, 4) {
                Some(v) => v as char,
                None => return Err(CatalogError::OutOfBounds),
            };
            let value = read_encoded_string_sep(d, cache, string_offset, separator)?;
            Ok(Some(Value::String(value)))
        },
        ValueKind::Hash128 => {
            if is_default_object {
                return Ok(Some(Value::Hash128(Hash128(0, 0, 0, 0))));
            }
            let h = read_hash128(d, object_offset)?;
            Ok(Some(Value::Hash128(h)))
        },
        ValueKind::Abro => {
            if is_default_object {
                return Ok(Some(Value::Abro(serialized_type, AssetBundleRequestOptions::zeroed())));
            }
            let obj = AssetBundleRequestOptions::from_reader(d, cache, object_offset)?;
            Ok(Some(Value::Abro(serialized_type, obj)))
        },
    }
}

/// Data handed to a provider at start-up: an id, a type and a serialized payload.
pub struct ObjectInitializationData {
    pub id: String,
    pub object_type: AssemblyClass,
    pub data: String,
}

pub ghost struct ObjectInitializationDataView {
    pub id: Seq<char>,
    pub object_type: AssemblyClassView,
    pub data: Seq<char>,
}

impl View for ObjectInitializationData {
    type V = ObjectInitializationDataView;

    open spec fn view(&self) -> ObjectInitializationDataView {
        ObjectInitializationDataView { id: self.id@, object_type: self.object_type@, data: self.data@ }
    }
}

/// A provider-data record at `off`: offsets of the id, the type name record and the payload.
pub open spec fn spec_object_init(d: Seq<u8>, off: u32) -> Option<ObjectInitializationDataView> {
    match (spec_u32_at(d, off as int), spec_u32_at(d, off + 4), spec_u32_at(d, off + 8)) {
        (Some(i), Some(t), Some(x)) => match (spec_plain_string(d, i), spec_assembly_class(d, t), spec_plain_string(d, x)) {
            (Some(id), Some(ty), Some(data)) => Some(ObjectInitializationDataView { id, object_type: ty, data }),
            _ => None,
        },
        _ => None,
    }
}

impl ObjectInitializationData {
    /// Decodes the provider-data record at `offset`.
    pub fn from_reader(d: &[u8], cache: &mut StringCache, offset: u32) -> (r: Result<ObjectInitializationData, CatalogError>)
        requires
            old(cache).wf(d@),
        ensures
            final(cache).wf(d@),
            r matches Ok(o) ==> spec_object_init(d@, offset) == Some(o@),
            r is Err ==> spec_object_init(d@, offset) is None,
    {
        let (i, t, x) = match (u32_field(d, offset, 0), u32_field(d, offset, 4), u32_field(d, offset, 8)) {
            (Some(i), Some(t), Some(x)) => (i, t, x),
            _ => return Err(CatalogError::OutOfBounds),
        };
        let id = read_encoded_string(d, cache, i)?;
        let object_type = AssemblyClass::from_reader(d, cache, t)?;
        let data = read_encoded_string(d, cache, x)?;
        Ok(ObjectInitializationData { id, object_type, data })
    }
}

} // verus!
