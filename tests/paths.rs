use rabex_env::archive_path::{bundle_identifier, main_entry, unwrap_archive, wrap_archive, ArchivePath};
use rabex_env::env::{FileCache, LoadPlan};
use rabex_env::index::{AddressablesIndex, IndexError};
use rabex_env::resolver::{
    is_bundle_path, is_serialized_file, is_unity_data_dir_name, level_files, level_index, parse_usize, resources_override, serialized_files, AppInfo,
};
use rabex_env::scripts::{find_script, ScriptFilterContains, ScriptFilterName};
use rabex_env::settings::{evaluate_string, replace_str, AddressablesSettings, AssemblyClass, CatalogLocation};
use rabex_env::text::{split_char, str_eq};
use rabex_env::unity::{BuildSettings, MonoScript};
use rabex_env::utils::{seq_fold_reduce, Merge};

#[test]
fn archive_path_parses_two_segments() {
    let a = ArchivePath::try_parse("archive:/CAB-x/CAB-x").unwrap();
    assert_eq!(a.bundle, "CAB-x");
    assert_eq!(a.file, "CAB-x");
    assert_eq!(a.to_path_string(), "archive:/CAB-x/CAB-x");
}

#[test]
fn archive_path_single_segment_is_none() {
    assert!(ArchivePath::try_parse("archive:/CAB-x").is_none());
    assert!(ArchivePath::try_parse("archive:/CAB-x/").is_none());
    assert!(ArchivePath::try_parse("globalgamemanagers").is_none());
    assert!(ArchivePath::try_parse("library/archive:/a/b").is_none());
}

#[test]
fn archive_wrapping() {
    assert_eq!(wrap_archive("CAB-1"), "archive:/CAB-1/CAB-1");
    assert_eq!(unwrap_archive("archive:/CAB-1/CAB-1"), Some("CAB-1".to_string()));
    assert_eq!(unwrap_archive("archive:/CAB-1/CAB-1.sharedAssets"), Some("CAB-1".to_string()));
    assert_eq!(unwrap_archive("archive:/CAB-1/CAB-2"), None);
    let p = ArchivePath::new("b", "f");
    assert_eq!(p.to_path_string(), "archive:/b/f");
    assert_eq!(ArchivePath::same("z").file, "z");
}

fn sample_index() -> AddressablesIndex {
    AddressablesIndex::build(vec![
        ("a.bundle".to_string(), vec!["CAB-a".to_string(), "CAB-a.sharedAssets".to_string()]),
        ("b.bundle".to_string(), vec!["CAB-b".to_string()]),
    ])
    .ok()
    .unwrap()
}

#[test]
fn index_maps_members_both_ways() {
    let idx = sample_index();
    assert_eq!(idx.bundle_of(&"CAB-b".to_string()), Some(&"b.bundle".to_string()));
    assert_eq!(idx.bundle_of(&"CAB-z".to_string()), None);
    assert_eq!(idx.bundle_to_cab.len(), 2);
    assert_eq!(idx.bundle_to_cab[0].1.len(), 2);
}

#[test]
fn index_conflicting_owner_is_reported() {
    let mut idx = sample_index();
    match idx.add_bundle("c.bundle".to_string(), vec!["CAB-b".to_string()]) {
        Err(IndexError::Conflict { member, first, second }) => {
            assert_eq!(member, "CAB-b");
            assert_eq!(first, "b.bundle");
            assert_eq!(second, "c.bundle");
        }
        Ok(()) => panic!("conflict not reported"),
    }
    assert!(idx.add_bundle("b.bundle".to_string(), vec!["CAB-b".to_string()]).is_ok());
}

#[test]
fn cache_loads_each_path_once() {
    let idx = sample_index();
    let mut cache: FileCache<Vec<u8>> = FileCache::new();
    let p = "archive:/CAB-a/CAB-a".to_string();
    match cache.plan_load(&idx, &p) {
        LoadPlan::ReadArchive { bundle_file, entry } => {
            assert_eq!(bundle_file, "a.bundle");
            assert_eq!(entry, "CAB-a");
        }
        _ => panic!("expected an archive read"),
    }
    let i = cache.insert(p.clone(), vec![1, 2, 3]);
    assert!(matches!(cache.plan_load(&idx, &p), LoadPlan::Cached(j) if j == i));
    let again = cache.insert(p.clone(), vec![9]);
    assert_eq!(again, i);
    assert_eq!(cache.get(i), &vec![1, 2, 3]);
    assert_eq!(cache.len(), 1);
    assert!(std::ptr::eq(cache.get(i), cache.get(again)));
}

#[test]
fn cache_plans_other_sources() {
    let idx = sample_index();
    let cache: FileCache<()> = FileCache::new();
    assert!(matches!(cache.plan_load(&idx, &"level0".to_string()), LoadPlan::ReadLoose(p) if p == "level0"));
    assert!(matches!(cache.plan_load(&idx, &"archive:/CAB-q/CAB-q".to_string()), LoadPlan::MissingBundle(b) if b == "CAB-q"));
    assert_eq!(cache.lookup(&"level0".to_string()), None);
}

#[test]
fn serialized_file_names() {
    assert!(is_serialized_file("globalgamemanagers"));
    assert!(is_serialized_file("level12"));
    assert!(!is_serialized_file("level+3"));
    assert!(is_serialized_file("sharedassets0.assets"));
    assert!(is_serialized_file("Data/resources.assets"));
    assert!(!is_serialized_file("levelx"));
    assert!(!is_serialized_file("level"));
    assert!(!is_serialized_file(".assets"));
    assert!(!is_serialized_file("globalgamemanagers.assets.resS"));
    let all = vec!["level0".to_string(), "app.info".to_string(), "data.assets".to_string(), "level3".to_string()];
    assert_eq!(serialized_files(&all), vec!["level0".to_string(), "data.assets".to_string(), "level3".to_string()]);
    assert_eq!(level_files(&all), vec![0, 3]);
}

#[test]
fn decimal_parsing() {
    assert_eq!(parse_usize("0"), Some(0));
    assert_eq!(parse_usize("+42"), Some(42));
    assert_eq!(parse_usize(""), None);
    assert_eq!(parse_usize("+"), None);
    assert_eq!(parse_usize("4a"), None);
    assert_eq!(parse_usize("18446744073709551615"), Some(usize::MAX));
    assert_eq!(parse_usize("18446744073709551616"), None);
    assert_eq!(level_index("level7"), Some(7));
    assert_eq!(level_index("lvl7"), None);
    assert_eq!(level_index("level+1"), None);
}

#[test]
fn app_info_lines() {
    let a = AppInfo::parse("Team Cherry\nHollow Knight").unwrap();
    assert_eq!(a.developer, "Team Cherry");
    assert_eq!(a.name, "Hollow Knight");
    assert!(AppInfo::parse("one line").is_none());
}

fn settings(target: &str) -> AddressablesSettings {
    let ty = || AssemblyClass { m_AssemblyName: "a".to_string(), m_ClassName: "c".to_string() };
    let loc = |provider: &str, id: &str| CatalogLocation {
        m_Keys: vec![],
        m_InternalId: id.to_string(),
        m_Provider: provider.to_string(),
        m_Dependencies: vec![],
        m_ResourceType: ty(),
    };
    AddressablesSettings {
        m_buildTarget: target.to_string(),
        m_SettingsHash: String::new(),
        m_CatalogLocations: vec![
            loc(
                "UnityEngine.AddressableAssets.ResourceProviders.ContentCatalogProvider",
                "{UnityEngine.AddressableAssets.Addressables.RuntimePath}/catalog.bin",
            ),
            loc("Other", "x"),
        ],
        m_LogResourceManagerExceptions: false,
        m_ExtraInitializationData: vec![],
        m_DisableCatalogUpdateOnStart: false,
        m_IsLocalCatalogInBundle: false,
        m_CertificateHandlerType: ty(),
        m_AddressablesVersion: String::new(),
        m_maxConcurrentWebRequests: 0,
        m_CatalogRequestsTimeout: 0,
    }
}

#[test]
fn settings_paths() {
    assert_eq!(settings("StandaloneWindows64").build_folder(), "StreamingAssets/aa/StandaloneWindows64");
    assert_eq!(settings("/abs").build_folder(), "/abs");
    assert_eq!(settings("x").catalog_paths(), vec!["StreamingAssets/aa/catalog.bin".to_string()]);
    assert_eq!(
        evaluate_string("{UnityEngine.AddressableAssets.Addressables.RuntimePath}/a/{UnityEngine.AddressableAssets.Addressables.RuntimePath}"),
        "StreamingAssets/aa/a/StreamingAssets/aa"
    );
    assert_eq!(replace_str("aaa", "aa", "b"), "ba");
    assert_eq!(replace_str("abc", "", "x"), "abc");
}

fn script(class: &str, ns: &str, assembly: &str) -> MonoScript {
    MonoScript {
        m_Name: class.to_string(),
        m_ExecutionOrder: 0,
        m_PropertiesHash: [0; 16],
        m_ClassName: class.to_string(),
        m_Namespace: ns.to_string(),
        m_AssemblyName: assembly.to_string(),
    }
}

#[test]
fn mono_script_names() {
    let s = script("HeroController", "", "Assembly-CSharp");
    assert_eq!(s.assembly_name(), "Assembly-CSharp.dll");
    assert_eq!(s.assembly_name_base(), "Assembly-CSharp");
    assert_eq!(s.full_name(), "HeroController");
    let t = script("Image", "UnityEngine.UI", "UnityEngine.UI.dll.dll");
    assert_eq!(t.assembly_name(), "UnityEngine.UI.dll.dll");
    assert_eq!(t.assembly_name_base(), "UnityEngine.UI");
    assert_eq!(t.full_name(), "UnityEngine.UI.Image");
}

#[test]
fn script_selection() {
    let scripts = vec![script("PlayMakerFSM", "", "a"), script("HeroController", "", "a"), script("PlayMakerFSM", "", "b")];
    assert_eq!(find_script(&scripts, &ScriptFilterName("PlayMakerFSM".to_string())).ok(), Some(2));
    assert_eq!(find_script(&scripts, &ScriptFilterContains("Hero".to_string())).ok(), Some(1));
    let err = find_script(&scripts, &ScriptFilterContains("Boss".to_string())).err().unwrap();
    assert_eq!(
        err,
        "Script containing Boss was not found in serialized file.\nFound PlayMakerFSM, HeroController, PlayMakerFSM"
    );
}

#[test]
fn build_settings_scene_names() {
    let b = BuildSettings { scenes: vec!["Assets/Scenes/Menu_Title.unity".to_string(), "Town.unity".to_string()] };
    assert_eq!(b.scene_names(), Some(vec!["Menu_Title".to_string(), "Town".to_string()]));
    let empty = BuildSettings { scenes: vec!["".to_string()] };
    assert_eq!(empty.scene_names(), None);
}

#[test]
fn text_helpers() {
    assert_eq!(split_char("a/b//c", '/'), vec!["a", "b", "", "c"]);
    assert_eq!(split_char("", '/'), vec![""]);
    assert!(str_eq("abc", "abc"));
    assert!(!str_eq("abc", "abd"));
}

#[test]
fn folding_and_merging() {
    let r: Result<Vec<u32>, String> = seq_fold_reduce(vec![1u32, 2, 3], |mut acc: Vec<u32>, x: u32| {
        acc.push(x * 2);
        Ok(acc)
    });
    assert_eq!(r.ok().unwrap(), vec![2, 4, 6]);
    let e: Result<usize, String> = seq_fold_reduce(vec![1usize, 0], |acc: usize, x: usize| if x == 0 { Err("zero".to_string()) } else { Ok(acc + x) });
    assert_eq!(e.err().unwrap(), "zero");
    let mut a = (vec![1], Some(2usize));
    a.merge((vec![3], Some(4)));
    assert_eq!(a, (vec![1, 3], Some(2)));
    let mut n = usize::MAX - 1;
    n.merge(5);
    assert_eq!(n, usize::MAX);
}


#[test]
fn library_paths_look_in_resources() {
    assert_eq!(resources_override("Library/unity default resources"), Some("Resources/unity default resources".to_string()));
    assert_eq!(resources_override("Library"), Some("Resources".to_string()));
    assert_eq!(resources_override("Libraryx/a"), None);
    assert_eq!(resources_override("level0"), None);
}

#[test]
fn bundle_entries() {
    let entries = vec!["CAB-1.sharedAssets".to_string(), "CAB-1".to_string(), "CAB-1.resS".to_string()];
    assert_eq!(main_entry(&entries), Some(1));
    assert_eq!(bundle_identifier(&entries), Some(1));
    let shared = vec!["a.sharedAssets".to_string()];
    assert_eq!(main_entry(&shared), None);
    assert_eq!(bundle_identifier(&shared), None);
}

#[test]
fn bundle_and_data_folder_names() {
    assert!(is_bundle_path("StandaloneWindows64/scenes_all.bundle"));
    assert!(!is_bundle_path("catalog.json"));
    assert!(!is_bundle_path(".bundle"));
    assert!(is_unity_data_dir_name("Hollow Knight_Data"));
    assert!(!is_unity_data_dir_name("_Data"));
    assert!(!is_unity_data_dir_name("Managed"));
}

#[test]
fn serialized_files_keep_order_and_skip_signed_levels() {
    let all: Vec<String> = ["level0", "level12", "level+1", "levelx", "sharedassets0.assets", "globalgamemanagers",
        "globalgamemanagers.assets", "resources.resource", "data.unity3d"]
        .iter()
        .map(|s| s.to_string())
        .collect();
    let expected: Vec<String> = ["level0", "level12", "sharedassets0.assets", "globalgamemanagers", "globalgamemanagers.assets"]
        .iter()
        .map(|s| s.to_string())
        .collect();
    assert_eq!(serialized_files(&all), expected);
}

#[test]
fn behaviours_follow_their_script() {
    let b = vec![(10, Some(0)), (11, None), (12, Some(1)), (13, Some(0))];
    assert_eq!(rabex_env::scripts::behaviours_of_script(&b, 0), vec![10, 13]);
    assert_eq!(rabex_env::scripts::behaviours_of_script(&b, 2), Vec::<i64>::new());
}

#[test]
fn sentinel_and_cached_strings_leave_cache_alone() {
    let mut cache = rabex_env::strings::StringCache::new();
    let d: Vec<u8> = vec![3, 0, 0, 0, b'a', b'b', b'c'];
    assert_eq!(rabex_env::strings::read_encoded_string(&d, &mut cache, 4).ok().unwrap(), "abc");
    assert_eq!(rabex_env::strings::read_encoded_string(&d, &mut cache, 4).ok().unwrap(), "abc");
    assert_eq!(rabex_env::strings::read_encoded_string_sep(&d, &mut cache, 0xFFFF_FFFF, '/').ok().unwrap(), "");
}
