use rabex_env::catalog::{BinaryCatalog, BinaryCatalogHeader, BinaryCatalogReader};
use rabex_env::locations::{read_offset_array, ResourceLocation};
use rabex_env::strings::{
    read_basic_string, read_encoded_string, read_encoded_string_sep, read_segmented_string,
    CatalogError, StringCache, SENTINEL,
};
use rabex_env::values::{decode_v2, AssemblyClass, Hash128, Value};

const DYNAMIC: u32 = 0x4000_0000;

/// Lays out catalog records in a byte buffer.
struct Buf {
    b: Vec<u8>,
}

impl Buf {
    fn new(reserve: usize) -> Buf {
        Buf { b: vec![0; reserve] }
    }
    fn put_u32(&mut self, off: usize, v: u32) {
        self.b[off..off + 4].copy_from_slice(&v.to_le_bytes());
    }
    fn words(&mut self, ws: &[u32]) -> u32 {
        let off = self.b.len() as u32;
        for w in ws {
            self.b.extend_from_slice(&w.to_le_bytes());
        }
        off
    }
    fn bytes(&mut self, bs: &[u8]) -> u32 {
        let off = self.b.len() as u32;
        self.b.extend_from_slice(bs);
        off
    }
    fn string(&mut self, s: &str) -> u32 {
        self.b.extend_from_slice(&(s.len() as i32).to_le_bytes());
        self.bytes(s.as_bytes())
    }
    fn array(&mut self, items: &[u32]) -> u32 {
        self.b.extend_from_slice(&((items.len() * 4) as i32).to_le_bytes());
        self.words(items)
    }
    fn net_type(&mut self, assembly: &str, class: &str) -> u32 {
        let a = self.string(assembly);
        let c = self.string(class);
        self.words(&[a, c])
    }
    fn string_value(&mut self, s: &str) -> u32 {
        let t = self.net_type("mscorlib, Version=4.0.0.0", "System.String");
        let so = self.string(s);
        let obj = self.words(&[so]);
        self.bytes(&[0]);
        self.words(&[t, obj])
    }
}

#[test]
fn segmented_string_is_joined_last_fragment_first() {
    let mut b = Buf::new(4);
    let unity = b.string("Unity");
    let engine = b.string("Engine");
    let core = b.string("CoreModule");
    let n1 = b.words(&[unity, SENTINEL]);
    let n2 = b.words(&[engine, n1]);
    let n3 = b.words(&[core, n2]);
    let mut cache = StringCache::new();
    let s = read_encoded_string_sep(&b.b, &mut cache, n3 | DYNAMIC, '.').ok().unwrap();
    assert_eq!(s, "Unity.Engine.CoreModule");
    let s = read_segmented_string(&b.b, &mut cache, n3, '/').ok().unwrap();
    assert_eq!(s, "Unity/Engine/CoreModule");
    // without a separator the dynamic bit is ignored and the offset is a basic string
    let plain = read_encoded_string_sep(&b.b, &mut cache, core | DYNAMIC, '\0').ok().unwrap();
    assert_eq!(plain, "CoreModule");
}

#[test]
fn cached_string_is_read_again_with_other_separator() {
    let mut b = Buf::new(4);
    let x = b.string("a");
    let y = b.string("b");
    let n1 = b.words(&[x, SENTINEL]);
    let n2 = b.words(&[y, n1]);
    let mut cache = StringCache::new();
    assert_eq!(read_encoded_string_sep(&b.b, &mut cache, n2 | DYNAMIC, '.').ok().unwrap(), "a.b");
    assert_eq!(read_encoded_string_sep(&b.b, &mut cache, n2 | DYNAMIC, '_').ok().unwrap(), "a_b");
    assert_eq!(read_encoded_string_sep(&b.b, &mut cache, n2 | DYNAMIC, '.').ok().unwrap(), "a.b");
}

#[test]
fn sentinel_offsets_decode_to_defaults() {
    let b = Buf::new(8);
    let mut cache = StringCache::new();
    assert_eq!(read_encoded_string_sep(&b.b, &mut cache, SENTINEL, '.').ok().unwrap(), "");
    assert_eq!(read_encoded_string(&b.b, &mut cache, SENTINEL).ok().unwrap(), "");
    assert_eq!(read_offset_array(&b.b, SENTINEL).ok().unwrap(), Vec::<u32>::new());
    assert!(decode_v2(&b.b, &mut cache, SENTINEL).ok().unwrap().is_none());
}

#[test]
fn tagged_values_with_sentinel_object_are_defaults() {
    let mut b = Buf::new(4);
    let cases = [
        ("mscorlib, Version=4", "System.Int32"),
        ("mscorlib, Version=4", "System.Int64"),
        ("mscorlib, Version=4", "System.Boolean"),
        ("mscorlib, Version=4", "System.String"),
        ("UnityEngine.CoreModule, Version=0", "UnityEngine.Hash128"),
        ("Unity.ResourceManager, Version=0", "UnityEngine.ResourceManagement.ResourceProviders.AssetBundleRequestOptions"),
    ];
    let mut offs = Vec::new();
    for (a, c) in cases {
        let t = b.net_type(a, c);
        offs.push(b.words(&[t, SENTINEL]));
    }
    let mut cache = StringCache::new();
    let v: Vec<Option<Value>> = offs.iter().map(|&o| decode_v2(&b.b, &mut cache, o).ok().unwrap()).collect();
    assert!(matches!(v[0], Some(Value::Int(0))));
    assert!(matches!(v[1], Some(Value::Long(0))));
    assert!(matches!(v[2], Some(Value::Bool(false))));
    assert!(matches!(&v[3], Some(Value::String(s)) if s.is_empty()));
    assert!(matches!(v[4], Some(Value::Hash128(Hash128(0, 0, 0, 0)))));
    match &v[5] {
        Some(Value::Abro(t, a)) => {
            assert_eq!(t.class_name(), "AssetBundleRequestOptions");
            assert_eq!(a.hash, Hash128(0, 0, 0, 0));
            assert_eq!(a.crc, 0);
            assert_eq!(a.bundle_size, 0);
            assert!(a.bundle_name.is_empty());
            assert_eq!(a.common_info.flags, 0);
        }
        _ => panic!("expected default request options"),
    }
}

#[test]
fn tagged_values_read_their_objects() {
    let mut b = Buf::new(4);
    let t_int = b.net_type("mscorlib, Version=4", "System.Int32");
    let i_obj = b.words(&[(-7i32) as u32]);
    let i_val = b.words(&[t_int, i_obj]);
    let t_long = b.net_type("mscorlib", "System.Int64");
    let l_obj = b.words(&[5, 1]);
    let l_val = b.words(&[t_long, l_obj]);
    let t_bool = b.net_type("mscorlib, X", "System.Boolean");
    let b_obj = b.bytes(&[2]);
    let b_val = b.words(&[t_bool, b_obj]);
    let s_val = b.string_value("key");
    let mut cache = StringCache::new();
    assert!(matches!(decode_v2(&b.b, &mut cache, i_val).ok().unwrap(), Some(Value::Int(-7))));
    assert!(matches!(decode_v2(&b.b, &mut cache, l_val).ok().unwrap(), Some(Value::Long(0x1_0000_0005))));
    assert!(matches!(decode_v2(&b.b, &mut cache, b_val).ok().unwrap(), Some(Value::Bool(true))));
    let s = decode_v2(&b.b, &mut cache, s_val).ok().unwrap().unwrap();
    assert_eq!(s.as_string(), Some("key"));
    assert_eq!(s.into_string(), Some("key".to_string()));
}

#[test]
fn unknown_tagged_type_is_refused() {
    let mut b = Buf::new(4);
    let t = b.net_type("mscorlib, Version=4", "System.Double");
    let v = b.words(&[t, SENTINEL]);
    let mut cache = StringCache::new();
    assert_eq!(decode_v2(&b.b, &mut cache, v).err(), Some(CatalogError::UnknownType));
}

#[test]
fn basic_string_errors() {
    let mut b = Buf::new(4);
    let bad = b.string("ab");
    b.b[bad as usize] = 0xff;
    let ok = b.string("h\u{e9}");
    let mut neg = Buf::new(4);
    neg.b.extend_from_slice(&(-1i32).to_le_bytes());
    assert_eq!(read_basic_string(&b.b, bad).err(), Some(CatalogError::InvalidString));
    assert_eq!(read_basic_string(&b.b, ok).ok().unwrap(), "h\u{e9}");
    assert_eq!(read_basic_string(&b.b, 2).err(), Some(CatalogError::OutOfBounds));
    assert_eq!(read_basic_string(&neg.b, 8).err(), Some(CatalogError::InvalidString));
    assert_eq!(read_basic_string(&b.b, 1000).err(), Some(CatalogError::OutOfBounds));
}

#[test]
fn cyclic_segment_chain_is_refused() {
    let mut b = Buf::new(4);
    let s = b.string("x");
    let node = b.b.len() as u32;
    b.words(&[s, node]);
    let mut cache = StringCache::new();
    assert_eq!(read_segmented_string(&b.b, &mut cache, node, '.').err(), Some(CatalogError::CyclicString));
}

#[test]
fn offset_arrays() {
    let mut b = Buf::new(4);
    let a = b.array(&[7, 8, 9]);
    b.b.extend_from_slice(&6i32.to_le_bytes());
    let bad = b.words(&[1, 2]);
    assert_eq!(read_offset_array(&b.b, a).ok().unwrap(), vec![7, 8, 9]);
    assert_eq!(read_offset_array(&b.b, bad).err(), Some(CatalogError::MalformedArray));
    assert_eq!(read_offset_array(&b.b, 2).err(), Some(CatalogError::OutOfBounds));
}

#[test]
fn header_errors() {
    let mut b = Buf::new(32);
    b.put_u32(0, 1234);
    assert_eq!(BinaryCatalogHeader::from_reader(&b.b).err(), Some(CatalogError::BadMagic));
    b.put_u32(0, 0x0de3_8942);
    b.put_u32(4, 1);
    assert_eq!(BinaryCatalogHeader::from_reader(&b.b).err(), Some(CatalogError::UnsupportedVersion));
    b.put_u32(4, 2);
    assert!(BinaryCatalogHeader::from_reader(&b.b).is_ok());
    assert_eq!(BinaryCatalogHeader::from_reader(&b.b[..20]).err(), Some(CatalogError::OutOfBounds));
    assert_eq!(BinaryCatalog::from_reader(&b.b[..3]).err(), Some(CatalogError::OutOfBounds));
}

fn oid(b: &mut Buf, id: &str) -> u32 {
    let i = b.string(id);
    let t = b.net_type("Unity.ResourceManager, Version=0", "UnityEngine.ResourceManagement.ResourceProviders.InstanceProvider");
    let d = b.string("");
    b.words(&[i, t, d])
}

struct Sample {
    bytes: Vec<u8>,
    loc_a: u32,
    loc_b: u32,
}

fn sample_catalog(key_is_string: bool, b_data_is_abro: bool) -> Sample {
    sample_catalog_listing(key_is_string, b_data_is_abro, false)
}

fn sample_catalog_listing(key_is_string: bool, b_data_is_abro: bool, list_b: bool) -> Sample {
    let mut b = Buf::new(32);
    let locator = b.string("AddressablesMainContentCatalog");
    let hash = b.string("0123abcd");
    let inst = oid(&mut b, "inst");
    let scene = oid(&mut b, "scene");
    let prov = oid(&mut b, "prov");
    let provs = b.array(&[prov]);

    let bundle_provider = b.string("UnityEngine.ResourceManagement.ResourceProviders.AssetBundleProvider");
    let asset_provider = b.string("UnityEngine.ResourceManagement.ResourceProviders.BundledAssetProvider");
    let ty = b.net_type("UnityEngine.CoreModule, Version=0", "UnityEngine.GameObject");

    // location B: a bundle, with request options
    let b_id = b.string("{UnityEngine.AddressableAssets.Addressables.RuntimePath}/x.bundle");
    let b_key = b.string("x.bundle");
    let b_data = if b_data_is_abro {
        let hash_rec = b.words(&[1, 2, 3, 4]);
        let name = b.string("scenes_all");
        let ci = b.bytes(&[10, 0, 3, 2, 9, 0, 0, 0]);
        let abro = b.words(&[hash_rec, name, 77, 1000, ci]);
        let t = b.net_type(
            "Unity.ResourceManager, Version=0",
            "UnityEngine.ResourceManagement.ResourceProviders.AssetBundleRequestOptions",
        );
        b.words(&[t, abro])
    } else {
        let t = b.net_type("mscorlib, Version=4", "System.Int32");
        b.words(&[t, SENTINEL])
    };
    let loc_b = b.words(&[b_key, b_id, bundle_provider, SENTINEL, 5, b_data, ty]);

    // location A: an asset depending on B
    let a_id = b.string("Assets/Enemy.prefab");
    let deps = b.array(&[loc_b]);
    let loc_a = b.words(&[a_id, a_id, asset_provider, deps, -3i32 as u32, SENTINEL, ty]);

    let key = if key_is_string {
        b.string_value("Enemy")
    } else {
        let t = b.net_type("mscorlib, Version=4", "System.Int32");
        b.words(&[t, SENTINEL])
    };
    let list = if list_b { b.array(&[loc_a, loc_b]) } else { b.array(&[loc_a]) };
    let keys = b.array(&[key, list]);

    b.put_u32(0, 0x0de3_8942);
    b.put_u32(4, 2);
    b.put_u32(8, keys);
    b.put_u32(12, locator);
    b.put_u32(16, inst);
    b.put_u32(20, scene);
    b.put_u32(24, provs);
    b.put_u32(28, hash);
    Sample { bytes: b.b, loc_a, loc_b }
}

#[test]
fn whole_catalog_decodes_with_dependencies() {
    let s = sample_catalog(true, true);
    let c = BinaryCatalog::from_reader(&s.bytes).ok().unwrap();
    assert_eq!(c.locator_id, "AddressablesMainContentCatalog");
    assert_eq!(c.build_result_hash, "0123abcd");
    assert_eq!(c.instance_provider_data.id, "inst");
    assert_eq!(c.scene_provider_data.id, "scene");
    assert_eq!(c.resource_provider_data.len(), 1);
    assert_eq!(c.resource_provider_data[0].object_type.class_name(), "InstanceProvider");
    assert_eq!(c.resources.len(), 1);
    assert_eq!(c.resources[0].0, "Enemy");
    assert_eq!(c.resources[0].1, vec![s.loc_a]);

    let a = c.locations.get(s.loc_a).unwrap();
    assert_eq!(a.primary_key, "Assets/Enemy.prefab");
    assert_eq!(a.dependencies, vec![s.loc_b]);
    assert_eq!(a.dependency_hash_code, -3);
    assert_eq!(a.provider_name(), "BundledAssetProvider");
    assert_eq!(a.type_.m_ClassName, "UnityEngine.GameObject");
    assert!(a.data.is_none());

    let b: &ResourceLocation = c.locations.get(s.loc_b).unwrap();
    let abro = b.data.as_ref().unwrap();
    assert_eq!(abro.bundle_name, "scenes_all");
    assert_eq!(abro.hash, Hash128(1, 2, 3, 4));
    assert_eq!(abro.crc, 77);
    assert_eq!(abro.bundle_size, 1000);
    assert_eq!(abro.common_info.timeout, 10);
    assert_eq!(abro.common_info.redirect_limit, 3);
    assert_eq!(abro.common_info.retry_count, 2);
    assert_eq!(abro.common_info.flags, 9);
    assert_eq!(b.provider_name(), "AssetBundleProvider");

    let all = c.locations();
    assert_eq!(all.len(), 1);
    assert_eq!(all[0].internal_id, "Assets/Enemy.prefab");
    let bundled = c.locations_of_provider("UnityEngine.ResourceManagement.ResourceProviders.BundledAssetProvider");
    assert_eq!(bundled.len(), 1);
    assert_eq!(c.locations_of_provider("UnityEngine.ResourceManagement.ResourceProviders.AssetBundleProvider").len(), 0);
}

#[test]
fn reader_reads_the_same_catalog() {
    let s = sample_catalog(true, true);
    let mut r = BinaryCatalogReader::new(&s.bytes).ok().unwrap();
    let c = r.read().ok().unwrap();
    assert_eq!(c.resources[0].0, "Enemy");
    let again = r.read().ok().unwrap();
    assert_eq!(again.locator_id, c.locator_id);
}

#[test]
fn non_string_key_is_refused() {
    let s = sample_catalog(false, true);
    assert_eq!(BinaryCatalog::from_reader(&s.bytes).err(), Some(CatalogError::NonStringKey));
}

#[test]
fn location_data_of_other_type_is_refused() {
    let s = sample_catalog(true, false);
    assert_eq!(BinaryCatalog::from_reader(&s.bytes).err(), Some(CatalogError::UnexpectedData));
}

#[test]
fn odd_key_table_is_refused() {
    let mut s = sample_catalog(true, true);
    let keys = u32::from_le_bytes(s.bytes[8..12].try_into().unwrap()) as usize;
    s.bytes[keys - 4..keys].copy_from_slice(&4i32.to_le_bytes());
    assert_eq!(BinaryCatalog::from_reader(&s.bytes).err(), Some(CatalogError::MalformedArray));
}

#[test]
fn assembly_class_names() {
    let t = AssemblyClass {
        m_AssemblyName: "Unity.ResourceManager, Version=1.0".to_string(),
        m_ClassName: "UnityEngine.ResourceManagement.ResourceProviders.AssetBundleRequestOptions".to_string(),
    };
    assert_eq!(t.class_name(), "AssetBundleRequestOptions");
    assert_eq!(t.get_assembly_short_name(), "Unity.ResourceManager");
    assert_eq!(
        t.get_match_name(),
        "Unity.ResourceManager; UnityEngine.ResourceManagement.ResourceProviders.AssetBundleRequestOptions"
    );
    let plain = AssemblyClass { m_AssemblyName: "mscorlib".to_string(), m_ClassName: "Int32".to_string() };
    assert_eq!(plain.class_name(), "Int32");
    assert_eq!(plain.get_match_name(), "mscorlib; Int32");
}

#[test]
fn bundle_names_of_listed_bundle_locations() {
    let s = sample_catalog_listing(true, true, true);
    let mut r = BinaryCatalogReader::new(&s.bytes).ok().unwrap();
    let names = r.assetbundle_names().ok().unwrap();
    assert_eq!(names, vec![("x.bundle".to_string(), "scenes_all".to_string())]);
    let headers = r.location_headers().ok().unwrap();
    assert_eq!(headers.len(), 2);
    assert_eq!(headers[0].dependency_hash_code, -3);
    assert_eq!(headers[1].dependency_hash_code, 5);
    assert_eq!(headers[1].data_offset != SENTINEL, true);
    let only_a = sample_catalog(true, true);
    let mut r = BinaryCatalogReader::new(&only_a.bytes).ok().unwrap();
    assert!(r.assetbundle_names().ok().unwrap().is_empty());
}

#[test]
fn bundle_without_request_options_is_refused() {
    let s = sample_catalog_listing(true, false, true);
    let mut r = BinaryCatalogReader::new(&s.bytes).ok().unwrap();
    assert_eq!(r.assetbundle_names().err(), Some(CatalogError::UnexpectedData));
}

#[test]
fn header_fields_read_through_the_reader() {
    let s = sample_catalog_listing(true, true, true);
    let mut r = BinaryCatalogReader::new(&s.bytes).ok().unwrap();
    let headers = r.location_headers().ok().unwrap();
    let a = headers[0];
    assert_eq!(a.primary_key(&mut r).ok().unwrap(), "Assets/Enemy.prefab");
    assert_eq!(a.internal_id(&mut r).ok().unwrap(), "Assets/Enemy.prefab");
    assert_eq!(a.provider_id(&mut r).ok().unwrap(), "UnityEngine.ResourceManagement.ResourceProviders.BundledAssetProvider");
    assert!(a.data(&mut r).ok().unwrap().is_none());
    assert_eq!(a.type_(&mut r).ok().unwrap().m_ClassName, "UnityEngine.GameObject");
    let b = headers[1];
    let abro = b.data(&mut r).ok().unwrap().unwrap().into_abro().unwrap();
    assert_eq!(abro.bundle_name, "scenes_all");
}
