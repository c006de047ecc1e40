//! The addressables binary catalog: header, key table, and every resource
//! location reachable from it, each decoded once and kept by its offset.
use std::collections::HashMap;
use vstd::prelude::*;

use crate::bytes::{i32_field, spec_i32_at, spec_u32_at, u32_field};
use crate::locations::{
    read_offset_array, spec_location, spec_location_data, spec_location_header, spec_offset_array,
    ResourceLocation, ResourceLocationHeader, ResourceLocationView,
};
use crate::text::{starts_with, substring};
use vstd::string::*;
use crate::strings::{read_encoded_string, read_encoded_string_sep, spec_plain_string, CatalogError, StringCache};
use crate::strings::{spec_encoded_string, SENTINEL};
use crate::values::{
    decode_v2, default_abro, opt_value_view, spec_assembly_class, spec_decode_v2, spec_object_init, spec_value_of, AssemblyClass, AssemblyClassView, Hash128,
    ObjectInitializationData, ObjectInitializationDataView, Value, ValueKind, ValueView,
};

verus! {

broadcast use vstd::std_specs::hash::group_hash_axioms;

/// The first four bytes of a catalog.
pub const CATALOG_MAGIC: i32 = 0x0de3_8942;

/// The catalog format version this decoder reads.
pub const CATALOG_VERSION: i32 = 2;

/// Offsets of the catalog's top-level parts.
#[derive(Debug, Clone, Copy, PartialEq, Eq, Structural)]
pub struct BinaryCatalogHeader {
    pub keys_offset: u32,
    pub id_offset: u32,
    pub instance_provider_offset: u32,
    pub scene_provider_offset: u32,
    pub init_objects_array_offset: u32,
    pub build_result_hash_offset: u32,
}

/// The header: magic, version 2, then six `u32` offsets.
pub open spec fn spec_catalog_header(d: Seq<u8>) -> Option<BinaryCatalogHeader> {
    if spec_i32_at(d, 0) == Some(CATALOG_MAGIC) && spec_i32_at(d, 4) == Some(CATALOG_VERSION) {
        match (spec_u32_at(d, 8), spec_u32_at(d, 12), spec_u32_at(d, 16), spec_u32_at(d, 20), spec_u32_at(d, 24), spec_u32_at(d, 28)) {
            (Some(a), Some(b), Some(c), Some(e), Some(f), Some(g)) => Some(
                BinaryCatalogHeader {
                    keys_offset: a,
                    id_offset: b,
                    instance_provider_offset: c,
                    scene_provider_offset: e,
                    init_objects_array_offset: f,
                    build_result_hash_offset: g,
                },
            ),
            _ => None,
        }
    } else {
        None
    }
}

impl BinaryCatalogHeader {
    /// Reads and checks the header at the start of `d`.
    pub fn from_reader(d: &[u8]) -> (r: Result<BinaryCatalogHeader, CatalogError>)
        ensures
            r matches Ok(h) ==> spec_catalog_header(d@) == Some(h),
            r is Err ==> spec_catalog_header(d@) is None,
            r == Err::<BinaryCatalogHeader, CatalogError>(CatalogError::BadMagic) <==> (spec_i32_at(d@, 0) matches Some(m) && m != CATALOG_MAGIC),
            r == Err::<BinaryCatalogHeader, CatalogError>(CatalogError::UnsupportedVersion) <==> (spec_i32_at(d@, 0) == Some(CATALOG_MAGIC) && (spec_i32_at(d@, 4) matches Some(v) && v != CATALOG_VERSION)),
    {
        let magic = match i32_field(d, 0, 0) {
            Some(m) => m,
            None => return Err(CatalogError::OutOfBounds),
        };
        if magic != CATALOG_MAGIC {
            return Err(CatalogError::BadMagic);
        }
        let version = match i32_field(d, 0, 4) {
            Some(v) => v,
            None => return Err(CatalogError::OutOfBounds),
        };
        if version != CATALOG_VERSION {
            return Err(CatalogError::UnsupportedVersion);
        }
        match (u32_field(d, 0, 8), u32_field(d, 0, 12), u32_field(d, 0, 16), u32_field(d, 0, 20), u32_field(d, 0, 24), u32_field(d, 0, 28)) {
            (Some(a), Some(b), Some(c), Some(e), Some(f), Some(g)) => Ok(
                BinaryCatalogHeader {
                    keys_offset: a,
                    id_offset: b,
                    instance_provider_offset: c,
                    scene_provider_offset: e,
                    init_objects_array_offset: f,
                    build_result_hash_offset: g,
                },
            ),
            _ => Err(CatalogError::OutOfBounds),
        }
    }
}

/// A catalog key: a tagged value that must be a string.
pub open spec fn spec_key_string(d: Seq<u8>, off: u32) -> Option<Seq<char>> {
    match spec_decode_v2(d, off) {
        Some(Some(ValueView::Str(s))) => Some(s),
        _ => None,
    }
}

pub open spec fn key_entry_ok(d: Seq<u8>, kl: Seq<u32>, i: int) -> bool {
    &&& spec_key_string(d, kl[2 * i]) is Some
    &&& spec_offset_array(d, kl[2 * i + 1]) is Some
}

/// The key table: an offset array of pairs (key value, offset array of location offsets).
pub open spec fn spec_key_table(d: Seq<u8>, keys_offset: u32) -> Option<Seq<(Seq<char>, Seq<u32>)>> {
    match spec_offset_array(d, keys_offset) {
        None => None,
        Some(kl) => if kl.len() % 2 == 0 && forall|i: int| 0 <= i < kl.len() / 2 ==> #[trigger] key_entry_ok(d, kl, i) {
            Some(Seq::new((kl.len() / 2) as nat, |i: int| (spec_key_string(d, kl[2 * i]).unwrap(), spec_offset_array(d, kl[2 * i + 1]).unwrap())))
        } else {
            None
        },
    }
}

/// The provider-data records listed by the offset array at `off`.
pub open spec fn spec_providers(d: Seq<u8>, off: u32) -> Option<Seq<ObjectInitializationDataView>> {
    match spec_offset_array(d, off) {
        None => None,
        Some(os) => if forall|i: int| 0 <= i < os.len() ==> (#[trigger] spec_object_init(d, os[i])) is Some {
            Some(Seq::new(os.len(), |i: int| spec_object_init(d, os[i]).unwrap()))
        } else {
            None
        },
    }
}

/// Everything of a catalog but its locations.
pub ghost struct CatalogBase {
    pub locator_id: Seq<char>,
    pub build_result_hash: Seq<char>,
    pub instance_provider_data: ObjectInitializationDataView,
    pub scene_provider_data: ObjectInitializationDataView,
    pub resource_provider_data: Seq<ObjectInitializationDataView>,
    pub resources: Seq<(Seq<char>, Seq<u32>)>,
}

pub open spec fn spec_catalog_base(d: Seq<u8>) -> Option<CatalogBase> {
    match spec_catalog_header(d) {
        None => None,
        Some(h) => match (spec_plain_string(d, h.id_offset), spec_plain_string(d, h.build_result_hash_offset), spec_object_init(d, h.instance_provider_offset), spec_object_init(d, h.scene_provider_offset), spec_providers(d, h.init_objects_array_offset), spec_key_table(d, h.keys_offset)) {
            (Some(a), Some(b), Some(c), Some(e), Some(f), Some(g)) => Some(
                CatalogBase {
                    locator_id: a,
                    build_result_hash: b,
                    instance_provider_data: c,
                    scene_provider_data: e,
                    resource_provider_data: f,
                    resources: g,
                },
            ),
            _ => None,
        },
    }
}

/// Whether the location at `o` decodes and its dependencies all lie in `s`.
#[verifier::opaque]
pub open spec fn location_closed_at(d: Seq<u8>, s: Set<u32>, o: u32) -> bool {
    spec_location(d, o) matches Some(l) && (forall|j: int| 0 <= j < l.dependencies.len() ==> s.contains(#[trigger] l.dependencies[j]))
}

/// A set of location offsets that holds every location a key lists, and
/// whose every location decodes with its dependencies in the set.
#[verifier::opaque]
pub open spec fn closed_location_set(d: Seq<u8>, keys: Seq<(Seq<char>, Seq<u32>)>, s: Set<u32>) -> bool {
    &&& forall|k: int, j: int| 0 <= k < keys.len() && 0 <= j < keys[k].1.len() ==> s.contains(#[trigger] keys[k].1[j])
    &&& forall|o: u32| #[trigger] s.contains(o) ==> location_closed_at(d, s, o)
}

/// A closed set holds every location a key lists.
proof fn lemma_closed_root(d: Seq<u8>, t: Seq<(Seq<char>, Seq<u32>)>, s: Set<u32>, k: int, j: int)
    requires
        closed_location_set(d, t, s),
        0 <= k < t.len(),
        0 <= j < t[k].1.len(),
    ensures
        s.contains(t[k].1[j]),
{
    reveal(closed_location_set);
}

/// A closed set holds the dependencies of each location it holds, which decodes.
proof fn lemma_closed_dep(d: Seq<u8>, t: Seq<(Seq<char>, Seq<u32>)>, s: Set<u32>, o: u32, j: int)
    requires
        closed_location_set(d, t, s),
        s.contains(o),
    ensures
        spec_location(d, o) is Some,
        0 <= j < spec_location(d, o).unwrap().dependencies.len() ==> s.contains(spec_location(d, o).unwrap().dependencies[j]),
{
    reveal(closed_location_set);
    reveal(location_closed_at);
    assert(location_closed_at(d, s, o));
}

/// Whether `d` holds a whole catalog: its base decodes and so does every
/// location reachable from its keys.
pub open spec fn spec_catalog_decodes(d: Seq<u8>) -> bool {
    spec_catalog_base(d) matches Some(b) && (exists|s: Set<u32>| closed_location_set(d, b.resources, s))
}

/// Decoded locations by offset: `index` maps an offset to its place in `arena`.
#[verifier::opaque]
pub open spec fn arena_wf(d: Seq<u8>, index: Map<u32, usize>, arena: Seq<(u32, ResourceLocation)>) -> bool {
    &&& forall|o: u32| #[trigger] index.contains_key(o) ==> index[o] < arena.len() && arena[index[o] as int].0 == o
    &&& forall|i: int| 0 <= i < arena.len() ==> #[trigger] index.contains_key(arena[i].0) && index[arena[i].0] == i
    &&& forall|i: int| 0 <= i < arena.len() ==> spec_location(d, #[trigger] arena[i].0) == Some(arena[i].1@)
    &&& index.dom().len() == arena.len()
}

/// A finite set of `u32` below `n` has at most `n` elements.
proof fn lemma_bounded_set_len(s: Set<u32>, n: int)
    requires
        s.finite(),
        0 <= n <= 0x1_0000_0000,
        forall|x: u32| #[trigger] s.contains(x) ==> x < n,
    ensures
        s.len() <= n,
    decreases n,
{
    if n == 0 {
        assert(s =~= Set::empty());
    } else {
        let t = s.remove((n - 1) as u32);
        lemma_bounded_set_len(t, n - 1);
    }
}

/// Offsets of decoded locations all lie inside the data, so there are no
/// more of them than bytes.
proof fn lemma_arena_len(d: Seq<u8>, index: Map<u32, usize>, arena: Seq<(u32, ResourceLocation)>)
    requires
        arena_wf(d, index, arena),
        index.dom().finite(),
    ensures
        arena.len() <= d.len(),
{
    reveal(arena_wf);
    let n = if d.len() < 0x1_0000_0000 { d.len() as int } else { 0x1_0000_0000int };
    assert forall|x: u32| #[trigger] index.dom().contains(x) implies x < n by {
        let i = index[x] as int;
        assert(spec_location(d, arena[i].0) is Some);
        reveal(spec_location);
    }
    lemma_bounded_set_len(index.dom(), n);
}

/// Returns the place in `arena` of the location at `offset`, decoding it
/// and appending it when it is not there yet.
fn get_ot_read_resource(
    d: &[u8],
    cache: &mut StringCache,
    index: &mut HashMap<u32, usize>,
    arena: &mut Vec<(u32, ResourceLocation)>,
    offset: u32,
) -> (r: Result<usize, CatalogError>)
    requires
        old(cache).wf(d@),
        arena_wf(d@, old(index)@, old(arena)@),
    ensures
        final(cache).wf(d@),
        arena_wf(d@, final(index)@, final(arena)@),
        old(arena)@.len() <= final(arena)@.len() <= old(arena)@.len() + 1,
        final(arena)@.len() == old(arena)@.len() + 1 ==> final(arena)@[old(arena)@.len() as int].0 == offset,
        forall|i: int| 0 <= i < old(arena)@.len() ==> final(arena)@[i] == old(arena)@[i],
        forall|o: u32| old(index)@.contains_key(o) ==> #[trigger] final(index)@.contains_key(o),
        r matches Ok(i) ==> final(index)@.contains_key(offset) && final(index)@[offset] == i,
        r is Err ==> spec_location(d@, offset) is None && final(arena)@ == old(arena)@ && final(index)@ == old(index)@,
{
    proof {
        reveal(arena_wf);
    }
    match index.get(&offset) {
        Some(i) => {
            return Ok(*i);
        },
        None => {},
    }
    let location = ResourceLocation::from_catalog_at(d, cache, offset)?;
    let i = arena.len();
    proof {
        assert(!index@.dom().contains(offset));
    }
    arena.push((offset, location));
    index.insert(offset, i);
    proof {
        assert forall|o: u32| #[trigger] index@.contains_key(o) implies index@[o] < arena@.len() && arena@[index@[o] as int].0 == o by {
            if o != offset {
                assert(old(index)@.contains_key(o));
            }
        }
        assert forall|j: int| 0 <= j < arena@.len() implies #[trigger] index@.contains_key(arena@[j].0) && index@[arena@[j].0] == j by {
            if j < i {
                assert(old(index)@.contains_key(old(arena)@[j].0));
                assert(arena@[j].0 != offset);
            }
        }
    }
    Ok(i)
}

/// The locations of `ls` whose provider is `p`, in order.
pub open spec fn of_provider(ls: Seq<ResourceLocationView>, p: Seq<char>) -> Seq<ResourceLocationView>
    decreases ls.len(),
{
    if ls.len() == 0 {
        Seq::empty()
    } else {
        of_provider(ls.drop_last(), p) + if ls.last().provider_id == p {
            seq![ls.last()]
        } else {
            Seq::empty()
        }
    }
}

/// The location offsets of every key, key by key.
pub open spec fn flat_offsets(res: Seq<(Seq<char>, Seq<u32>)>) -> Seq<u32>
    decreases res.len(),
{
    if res.len() == 0 {
        Seq::empty()
    } else {
        flat_offsets(res.drop_last()) + res.last().1
    }
}

pub open spec fn resources_view(v: Seq<(String, Vec<u32>)>) -> Seq<(Seq<char>, Seq<u32>)> {
    Seq::new(v.len(), |i: int| (v[i].0@, v[i].1@))
}

pub open spec fn providers_view(v: Seq<ObjectInitializationData>) -> Seq<ObjectInitializationDataView> {
    Seq::new(v.len(), |i: int| v[i]@)
}

/// A decoded catalog. `resources` lists each key with the offsets of its
/// locations, in catalog order; every location reachable from them, through
/// dependencies too, is kept once under its offset.
pub struct BinaryCatalog {
    pub locator_id: String,
    pub build_result_hash: String,
    pub instance_provider_data: ObjectInitializationData,
    pub scene_provider_data: ObjectInitializationData,
    pub resource_provider_data: Vec<ObjectInitializationData>,
    pub resources: Vec<(String, Vec<u32>)>,
    pub locations: LocationArena,
}

/// Decoded locations, each kept once under its catalog offset.
pub struct LocationArena {
    entries: Vec<(u32, ResourceLocation)>,
    index: HashMap<u32, usize>,
}

impl LocationArena {
    /// The offsets of the locations held.
    pub closed spec fn offsets(&self) -> Set<u32> {
        self.index@.dom()
    }

    /// The location held under offset `o`.
    pub closed spec fn at(&self, o: u32) -> ResourceLocationView {
        self.entries@[self.index@[o] as int].1@
    }

    /// The location held under `offset`.
    pub fn get(&self, offset: u32) -> (r: Option<&ResourceLocation>)
        requires
            self.wf(),
        ensures
            r matches Some(l) ==> self.offsets().contains(offset) && l@ == self.at(offset),
            r is None ==> !self.offsets().contains(offset),
    {
        match self.index.get(&offset) {
            Some(i) => Some(&self.entries[*i].1),
            None => None,
        }
    }

    pub closed spec fn wf(&self) -> bool {
        &&& forall|o: u32| #[trigger] self.index@.contains_key(o) ==> self.index@[o] < self.entries@.len() && self.entries@[self.index@[o] as int].0 == o
        &&& forall|i: int| 0 <= i < self.entries@.len() ==> #[trigger] self.index@.contains_key(self.entries@[i].0) && self.index@[self.entries@[i].0] == i
    }
}

impl BinaryCatalog {
    /// The catalog without its locations.
    pub open spec fn base_view(&self) -> CatalogBase {
        CatalogBase {
            locator_id: self.locator_id@,
            build_result_hash: self.build_result_hash@,
            instance_provider_data: self.instance_provider_data@,
            scene_provider_data: self.scene_provider_data@,
            resource_provider_data: providers_view(self.resource_provider_data@),
            resources: resources_view(self.resources@),
        }
    }

    /// The offsets of the locations the catalog holds.
    pub open spec fn location_offsets(&self) -> Set<u32> {
        self.locations.offsets()
    }

    /// The location kept under offset `o`.
    pub open spec fn location_view(&self, o: u32) -> ResourceLocationView {
        self.locations.at(o)
    }

    /// Every location a key lists is kept.
    pub open spec fn complete(&self) -> bool {
        &&& self.locations.wf()
        &&& forall|k: int, j: int| 0 <= k < self.resources@.len() && 0 <= j < self.resources@[k].1@.len() ==> self.location_offsets().contains(#[trigger] self.resources@[k].1@[j])
    }

    /// The locations kept under `offs`, in order.
    pub open spec fn located(&self, offs: Seq<u32>) -> Seq<ResourceLocationView> {
        offs.map_values(|o: u32| self.location_view(o))
    }

    /// The locations of every key, key by key in catalog order.
    pub fn locations(&self) -> (r: Vec<&ResourceLocation>)
        requires
            self.complete(),
        ensures
            r@.map_values(|l: &ResourceLocation| l@) == self.located(flat_offsets(resources_view(self.resources@))),
    {
        self.locations_filtered(None)
    }

    /// The locations of every key whose provider is `provider_id`, in catalog order.
    pub fn locations_of_provider(&self, provider_id: &str) -> (r: Vec<&ResourceLocation>)
        requires
            self.complete(),
        ensures
            r@.map_values(|l: &ResourceLocation| l@) == of_provider(self.located(flat_offsets(resources_view(self.resources@))), provider_id@),
    {
        let p = provider_id.to_string();
        self.locations_filtered(Some(&p))
    }

    fn locations_filtered(&self, provider: Option<&String>) -> (r: Vec<&ResourceLocation>)
        requires
            self.complete(),
        ensures
            r@.map_values(|l: &ResourceLocation| l@) == match provider {
                None => self.located(flat_offsets(resources_view(self.resources@))),
                Some(p) => of_provider(self.located(flat_offsets(resources_view(self.resources@))), p@),
            },
    {
        let mut out: Vec<&ResourceLocation> = Vec::new();
        let mut k: usize = 0;
        let ghost t = resources_view(self.resources@);
        while k < self.resources.len()
            invariant
                self.complete(),
                t == resources_view(self.resources@),
                k <= self.resources@.len(),
                out@.map_values(|l: &ResourceLocation| l@) == match provider {
                    None => self.located(flat_offsets(t.subrange(0, k as int))),
                    Some(p) => of_provider(self.located(flat_offsets(t.subrange(0, k as int))), p@),
                },
            decreases self.resources@.len() - k,
        {
            let offs = &self.resources[k].1;
            let ghost before = flat_offsets(t.subrange(0, k as int));
            proof {
                assert(t.subrange(0, k + 1).drop_last() =~= t.subrange(0, k as int));
                assert(flat_offsets(t.subrange(0, k + 1)) == before + offs@);
                assert(before + offs@.subrange(0, 0) =~= before);
            }
            let mut j: usize = 0;
            while j < offs.len()
                invariant
                    self.complete(),
                    t == resources_view(self.resources@),
                    k < self.resources@.len(),
                    offs@ == self.resources@[k as int].1@,
                    j <= offs@.len(),
                    out@.map_values(|l: &ResourceLocation| l@) == match provider {
                        None => self.located(before + offs@.subrange(0, j as int)),
                        Some(p) => of_provider(self.located(before + offs@.subrange(0, j as int)), p@),
                    },
                decreases offs@.len() - j,
            {
                let o = offs[j];
                proof {
                    assert(self.location_offsets().contains(self.resources@[k as int].1@[j as int]));
                }
                let l = self.locations.get(o).unwrap();
                let ghost prev = out@;
                let ghost x = before + offs@.subrange(0, j as int);
                proof {
                    assert(before + offs@.subrange(0, j + 1) =~= x.push(o));
                    assert(self.located(x.push(o)) =~= self.located(x).push(l@));
                    assert(self.located(x.push(o)).drop_last() =~= self.located(x));
                }
                match provider {
                    None => {
                        out.push(l);
                        proof {
                            assert(out@.map_values(|m: &ResourceLocation| m@) =~= prev.map_values(|m: &ResourceLocation| m@).push(l@));
                        }
                    },
                    Some(p) => {
                        if l.provider_id == *p {
                            out.push(l);
                            proof {
                                assert(out@.map_values(|m: &ResourceLocation| m@) =~= prev.map_values(|m: &ResourceLocation| m@).push(l@));
                            }
                        }
                    },
                }
                j = j + 1;
            }
            proof {
                assert(offs@.subrange(0, offs@.len() as int) =~= offs@);
            }
            k = k + 1;
        }
        assert(t.subrange(0, self.resources@.len() as int) =~= t);
        out
    }

    /// Decodes a whole catalog from its bytes.
    pub fn from_reader(d: &[u8]) -> (r: Result<BinaryCatalog, CatalogError>)
        ensures
            r matches Ok(c) ==> {
                &&& spec_catalog_base(d@) == Some(c.base_view())
                &&& closed_location_set(d@, c.base_view().resources, c.location_offsets())
                &&& forall|o: u32| #[trigger] c.location_offsets().contains(o) ==> spec_location(d@, o) == Some(c.location_view(o))
                &&& c.complete()
            },
            r is Err ==> !spec_catalog_decodes(d@),
    {
        let mut reader = BinaryCatalogReader::new(d)?;
        reader.read()
    }
}

/// Decodes a catalog lazily from its bytes, caching the strings it reads.
pub struct BinaryCatalogReader<'a> {
    data: &'a [u8],
    header: BinaryCatalogHeader,
    cache: StringCache,
}

impl<'a> BinaryCatalogReader<'a> {
    /// The bytes being decoded.
    pub closed spec fn data_view(&self) -> Seq<u8> {
        self.data@
    }

    /// The header read from the data.
    pub closed spec fn header_view(&self) -> BinaryCatalogHeader {
        self.header
    }

    pub closed spec fn wf(&self) -> bool {
        &&& self.cache.wf(self.data@)
        &&& spec_catalog_header(self.data@) == Some(self.header)
    }

    /// Checks the header of `d`.
    pub fn new(d: &'a [u8]) -> (r: Result<BinaryCatalogReader<'a>, CatalogError>)
        ensures
            r matches Ok(x) ==> x.wf() && x.data_view() == d@,
            r is Err ==> spec_catalog_header(d@) is None,
    {
        let header = BinaryCatalogHeader::from_reader(d)?;
        Ok(BinaryCatalogReader { data: d, header, cache: StringCache::new() })
    }

    /// The headers of the locations that the keys list, key by key.
    pub fn location_headers(&mut self) -> (r: Result<Vec<ResourceLocationHeader>, CatalogError>)
        requires
            old(self).wf(),
        ensures
            final(self).wf(),
            final(self).data_view() == old(self).data_view(),
            r matches Ok(v) ==> spec_listed_offsets(final(self).data_view(), final(self).header_view().keys_offset) matches Some(offs)
                && v@.len() == offs.len() && forall|i: int| 0 <= i < v@.len() ==> spec_location_header(final(self).data_view(), offs[i]) == Some(#[trigger] v@[i]),
            r is Err ==> (spec_listed_offsets(final(self).data_view(), final(self).header_view().keys_offset) matches Some(offs) ==> exists|i: int| 0 <= i < offs.len() && spec_location_header(final(self).data_view(), #[trigger] offs[i]) is None),
    {
        let offs = read_listed_offsets(self.data, self.header.keys_offset)?;
        let mut out: Vec<ResourceLocationHeader> = Vec::new();
        let mut i: usize = 0;
        while i < offs.len()
            invariant
                self.wf(),
                spec_listed_offsets(self.data@, self.header.keys_offset) == Some(offs@),
                i <= offs@.len(),
                out@.len() == i,
                forall|j: int| 0 <= j < i ==> spec_location_header(self.data@, offs@[j]) == Some(#[trigger] out@[j]),
            decreases offs@.len() - i,
        {
            match ResourceLocationHeader::from_reader(self.data, offs[i]) {
                Ok(h) => out.push(h),
                Err(e) => {
                    assert(spec_location_header(self.data@, offs@[i as int]) is None);
                    return Err(e);
                },
            }
            i = i + 1;
        }
        Ok(out)
    }

    /// For every location of the asset-bundle provider that the keys list,
    /// the bundle's path below the runtime folder and its logical name.
    pub fn assetbundle_names(&mut self) -> (r: Result<Vec<(String, String)>, CatalogError>)
        requires
            old(self).wf(),
        ensures
            final(self).wf(),
            final(self).data_view() == old(self).data_view(),
            r matches Ok(v) ==> spec_listed_offsets(final(self).data_view(), final(self).header_view().keys_offset) matches Some(offs)
                && spec_bundle_names(final(self).data_view(), offs) == Some(pairs_view(v@)),
            r is Err ==> (spec_listed_offsets(final(self).data_view(), final(self).header_view().keys_offset) matches Some(offs) ==> spec_bundle_names(final(self).data_view(), offs) is None),
    {
        let d = self.data;
        let offs = read_listed_offsets(d, self.header.keys_offset)?;
        let mut out: Vec<(String, String)> = Vec::new();
        let mut i: usize = 0;
        while i < offs.len()
            invariant
                self.cache.wf(d@),
                self.data == d,
                spec_catalog_header(self.data@) == Some(self.header),
                spec_listed_offsets(d@, self.header.keys_offset) == Some(offs@),
                old(self).data_view() == d@,
                old(self).header_view() == self.header,
                i <= offs@.len(),
                spec_bundle_names(d@, offs@.subrange(0, i as int)) == Some(pairs_view(out@)),
            decreases offs@.len() - i,
        {
            proof {
                assert(offs@.subrange(0, i + 1).drop_last() =~= offs@.subrange(0, i as int));
            }
            match read_bundle_entry(d, &mut self.cache, offs[i]) {
                Ok(Some(e)) => {
                    let ghost before = out@;
                    out.push(e);
                    proof {
                        assert(pairs_view(out@) =~= pairs_view(before).push((e.0@, e.1@)));
                    }
                },
                Ok(None) => {},
                Err(e) => {
                    proof {
                        lemma_bundle_names_none(d@, offs@, i as int + 1);
                    }
                    return Err(e);
                },
            }
            i = i + 1;
        }
        assert(offs@.subrange(0, offs@.len() as int) =~= offs@);
        Ok(out)
    }

    /// Decodes the whole catalog.
    pub fn read(&mut self) -> (r: Result<BinaryCatalog, CatalogError>)
        requires
            old(self).wf(),
        ensures
            final(self).wf(),
            final(self).data_view() == old(self).data_view(),
            r matches Ok(c) ==> {
                &&& spec_catalog_base(final(self).data_view()) == Some(c.base_view())
                &&& closed_location_set(final(self).data_view(), c.base_view().resources, c.location_offsets())
                &&& forall|o: u32| #[trigger] c.location_offsets().contains(o) ==> spec_location(final(self).data_view(), o) == Some(c.location_view(o))
                &&& c.complete()
            },
            r is Err ==> !spec_catalog_decodes(final(self).data_view()),
    {
        let d = self.data;
        let h = self.header;
        let locator_id = read_encoded_string(d, &mut self.cache, h.id_offset)?;
        let build_result_hash = read_encoded_string(d, &mut self.cache, h.build_result_hash_offset)?;
        let instance_provider_data = ObjectInitializationData::from_reader(d, &mut self.cache, h.instance_provider_offset)?;
        let scene_provider_data = ObjectInitializationData::from_reader(d, &mut self.cache, h.scene_provider_offset)?;
        let resource_provider_data = read_providers(d, &mut self.cache, h.init_objects_array_offset)?;
        let resources = read_key_table(d, &mut self.cache, h.keys_offset)?;
        let ghost t = resources_view(resources@);
        assert(spec_catalog_base(d@) matches Some(b) && b.resources == t);
        let locations = read_locations(d, &mut self.cache, &resources)?;
        let c = BinaryCatalog {
            locator_id,
            build_result_hash,
            instance_provider_data,
            scene_provider_data,
            resource_provider_data,
            resources,
            locations,
        };
        assert(c.base_view() == spec_catalog_base(d@).unwrap());
        proof {
            assert forall|k: int, j: int| 0 <= k < c.resources@.len() && 0 <= j < c.resources@[k].1@.len() implies c.location_offsets().contains(#[trigger] c.resources@[k].1@[j]) by {
                assert(t[k].1[j] == c.resources@[k].1@[j]);
                lemma_closed_root(d@, t, c.location_offsets(), k, j);
            }
        }
        Ok(c)
    }
}

/// The location offsets that the lists of the first `n` keys hold, key by key.
pub open spec fn lists_flat(d: Seq<u8>, kl: Seq<u32>, n: int) -> Option<Seq<u32>>
    decreases n,
{
    if n <= 0 {
        Some(Seq::empty())
    } else {
        match (lists_flat(d, kl, n - 1), spec_offset_array(d, kl[2 * (n - 1) + 1])) {
            (Some(a), Some(b)) => Some(a + b),
            _ => None,
        }
    }
}

/// The location offsets that the key table at `keys_offset` lists, key by key.
pub open spec fn spec_listed_offsets(d: Seq<u8>, keys_offset: u32) -> Option<Seq<u32>> {
    match spec_offset_array(d, keys_offset) {
        None => None,
        Some(kl) => if kl.len() % 2 == 0 {
            lists_flat(d, kl, (kl.len() / 2) as int)
        } else {
            None
        },
    }
}

/// `s` without its leading `/` and `\\` characters.
pub open spec fn trim_leading_slashes(s: Seq<char>) -> Seq<char>
    decreases s.len(),
{
    if s.len() > 0 && (s[0] == '/' || s[0] == '\\') {
        trim_leading_slashes(s.subrange(1, s.len() as int))
    } else {
        s
    }
}

/// What the location at `off` gives the list of bundle names: nothing for a
/// provider other than the asset-bundle provider; else the bundle's path
/// below the runtime folder and its logical name. `None` on a decoding error.
#[verifier::opaque]
pub open spec fn spec_bundle_entry(d: Seq<u8>, off: u32) -> Option<Option<(Seq<char>, Seq<char>)>> {
    match spec_location_header(d, off) {
        None => None,
        Some(h) => match spec_encoded_string(d, h.provider_id_offset, '.') {
            None => None,
            Some(pid) => if pid != "UnityEngine.ResourceManagement.ResourceProviders.AssetBundleProvider"@ {
                Some(None)
            } else {
                match (spec_encoded_string(d, h.internal_id_offset, '/'), spec_location_data(d, h.data_offset)) {
                    (Some(iid), Some(Some(abro))) => {
                        let pre = "{UnityEngine.AddressableAssets.Addressables.RuntimePath}"@;
                        if pre.len() <= iid.len() && iid.subrange(0, pre.len() as int) == pre {
                            Some(Some((trim_leading_slashes(iid.subrange(pre.len() as int, iid.len() as int)), abro.bundle_name)))
                        } else {
                            None
                        }
                    },
                    _ => None,
                }
            },
        },
    }
}

/// The entries of the locations at `offs`, in order; `None` if any fails.
pub open spec fn spec_bundle_names(d: Seq<u8>, offs: Seq<u32>) -> Option<Seq<(Seq<char>, Seq<char>)>>
    decreases offs.len(),
{
    if offs.len() == 0 {
        Some(Seq::empty())
    } else {
        match (spec_bundle_names(d, offs.drop_last()), spec_bundle_entry(d, offs.last())) {
            (Some(v), Some(None)) => Some(v),
            (Some(v), Some(Some(e))) => Some(v.push(e)),
            _ => None,
        }
    }
}

pub open spec fn pairs_view(v: Seq<(String, String)>) -> Seq<(Seq<char>, Seq<char>)> {
    v.map_values(|e: (String, String)| (e.0@, e.1@))
}

/// Once the entries of a prefix of `offs` fail, so do those of all of `offs`.
proof fn lemma_bundle_names_none(d: Seq<u8>, offs: Seq<u32>, n: int)
    requires
        1 <= n <= offs.len(),
        spec_bundle_names(d, offs.subrange(0, n)) is None,
    ensures
        spec_bundle_names(d, offs) is None,
    decreases offs.len() - n,
{
    if n < offs.len() {
        assert(offs.subrange(0, n + 1).drop_last() =~= offs.subrange(0, n));
        lemma_bundle_names_none(d, offs, n + 1);
    } else {
        assert(offs.subrange(0, n) =~= offs);
    }
}

/// Reads the location offsets that the key table lists, key by key.
fn read_listed_offsets(d: &[u8], keys_offset: u32) -> (r: Result<Vec<u32>, CatalogError>)
    ensures
        r matches Ok(v) ==> spec_listed_offsets(d@, keys_offset) == Some(v@),
        r is Err ==> spec_listed_offsets(d@, keys_offset) is None,
{
    let kl = read_offset_array(d, keys_offset)?;
    if kl.len() % 2 != 0 {
        return Err(CatalogError::MalformedArray);
    }
    let mut out: Vec<u32> = Vec::new();
    let mut k: usize = 0;
    while k < kl.len() / 2
        invariant
            spec_offset_array(d@, keys_offset) == Some(kl@),
            kl@.len() % 2 == 0,
            k <= kl@.len() / 2,
            lists_flat(d@, kl@, k as int) == Some(out@),
        decreases kl@.len() / 2 - k,
    {
        let locs = match read_offset_array(d, kl[2 * k + 1]) {
            Ok(l) => l,
            Err(e) => {
                proof {
                    lemma_lists_flat_none(d@, kl@, k as int + 1, (kl@.len() / 2) as int);
                }
                return Err(e);
            },
        };
        let mut j: usize = 0;
        let ghost before = out@;
        while j < locs.len()
            invariant
                j <= locs@.len(),
                out@ == before + locs@.subrange(0, j as int),
            decreases locs@.len() - j,
        {
            out.push(locs[j]);
            proof {
                assert(before + locs@.subrange(0, j + 1) =~= (before + locs@.subrange(0, j as int)).push(locs@[j as int]));
            }
            j = j + 1;
        }
        proof {
            assert(locs@.subrange(0, locs@.len() as int) =~= locs@);
        }
        k = k + 1;
    }
    Ok(out)
}

/// Once the lists of the first `n` keys fail to decode, so do those of more keys.
proof fn lemma_lists_flat_none(d: Seq<u8>, kl: Seq<u32>, n: int, m: int)
    requires
        1 <= n <= m,
        spec_offset_array(d, kl[2 * (n - 1) + 1]) is None || lists_flat(d, kl, n) is None,
    ensures
        lists_flat(d, kl, m) is None,
    decreases m - n,
{
    if n < m {
        lemma_lists_flat_none(d, kl, n + 1, m);
    }
}

fn trim_leading_slashes_exec(s: &str) -> (r: String)
    ensures
        r@ == trim_leading_slashes(s@),
{
    let n = s.unicode_len();
    let mut i: usize = 0;
    assert(s@.subrange(0, n as int) =~= s@);
    while i < n && (s.get_char(i) == '/' || s.get_char(i) == '\\')
        invariant
            n == s@.len(),
            i <= n,
            trim_leading_slashes(s@.subrange(i as int, n as int)) == trim_leading_slashes(s@),
        decreases n - i,
    {
        proof {
            assert(s@.subrange(i as int, n as int).subrange(1, n - i) =~= s@.subrange(i + 1, n as int));
        }
        i = i + 1;
    }
    proof {
        assert(s@.subrange(0, n as int) =~= s@);
    }
    substring(s, i, n)
}

/// The path and logical name of the bundle at location `off`, when its
/// provider is the asset-bundle provider.
fn read_bundle_entry(d: &[u8], cache: &mut StringCache, off: u32) -> (r: Result<Option<(String, String)>, CatalogError>)
    requires
        old(cache).wf(d@),
    ensures
        final(cache).wf(d@),
        r matches Ok(None) ==> spec_bundle_entry(d@, off) == Some(None::<(Seq<char>, Seq<char>)>),
        r matches Ok(Some(e)) ==> spec_bundle_entry(d@, off) == Some(Some((e.0@, e.1@))),
        r is Err ==> spec_bundle_entry(d@, off) is None,
{
    proof {
        reveal(spec_bundle_entry);
    }
    let h = ResourceLocationHeader::from_reader(d, off)?;
    let provider_id = read_encoded_string_sep(d, cache, h.provider_id_offset, '.')?;
    let wanted = "UnityEngine.ResourceManagement.ResourceProviders.AssetBundleProvider".to_string();
    if provider_id != wanted {
        return Ok(None);
    }
    let internal_id = read_encoded_string_sep(d, cache, h.internal_id_offset, '/')?;
    proof {
        reveal(spec_location);
    }
    let abro = match decode_v2(d, cache, h.data_offset)? {
        Some(Value::Abro(_, a)) => a,
        _ => return Err(CatalogError::UnexpectedData),
    };
    let pre = "{UnityEngine.AddressableAssets.Addressables.RuntimePath}";
    if !starts_with(internal_id.as_str(), pre) {
        return Err(CatalogError::NotRuntimePath);
    }
    let m = pre.unicode_len();
    let n = internal_id.as_str().unicode_len();
    let rest = substring(internal_id.as_str(), m, n);
    let path = trim_leading_slashes_exec(rest.as_str());
    Ok(Some((path, abro.bundle_name)))
}

impl ResourceLocationHeader {
    /// The location's primary key, read with separator `/`.
    pub fn primary_key(&self, catalog: &mut BinaryCatalogReader) -> (r: Result<String, CatalogError>)
        requires
            old(catalog).wf(),
        ensures
            final(catalog).wf(),
            final(catalog).data_view() == old(catalog).data_view(),
            r matches Ok(s) ==> spec_encoded_string(final(catalog).data_view(), self.primary_key_offset, '/') == Some(s@),
            r is Err ==> spec_encoded_string(final(catalog).data_view(), self.primary_key_offset, '/') is None,
    {
        read_encoded_string_sep(catalog.data, &mut catalog.cache, self.primary_key_offset, '/')
    }

    /// The location's provider id, read with separator `.`.
    pub fn provider_id(&self, catalog: &mut BinaryCatalogReader) -> (r: Result<String, CatalogError>)
        requires
            old(catalog).wf(),
        ensures
            final(catalog).wf(),
            final(catalog).data_view() == old(catalog).data_view(),
            r matches Ok(s) ==> spec_encoded_string(final(catalog).data_view(), self.provider_id_offset, '.') == Some(s@),
            r is Err ==> spec_encoded_string(final(catalog).data_view(), self.provider_id_offset, '.') is None,
    {
        read_encoded_string_sep(catalog.data, &mut catalog.cache, self.provider_id_offset, '.')
    }

    /// The location's internal id, read with separator `/`.
    pub fn internal_id(&self, catalog: &mut BinaryCatalogReader) -> (r: Result<String, CatalogError>)
        requires
            old(catalog).wf(),
        ensures
            final(catalog).wf(),
            final(catalog).data_view() == old(catalog).data_view(),
            r matches Ok(s) ==> spec_encoded_string(final(catalog).data_view(), self.internal_id_offset, '/') == Some(s@),
            r is Err ==> spec_encoded_string(final(catalog).data_view(), self.internal_id_offset, '/') is None,
    {
        read_encoded_string_sep(catalog.data, &mut catalog.cache, self.internal_id_offset, '/')
    }

    /// The location's tagged data value.
    pub fn data(&self, catalog: &mut BinaryCatalogReader) -> (r: Result<Option<Value>, CatalogError>)
        requires
            old(catalog).wf(),
        ensures
            final(catalog).wf(),
            final(catalog).data_view() == old(catalog).data_view(),
            r matches Ok(v) ==> spec_decode_v2(final(catalog).data_view(), self.data_offset) == Some(opt_value_view(v)),
            r is Err ==> spec_decode_v2(final(catalog).data_view(), self.data_offset) is None,
    {
        decode_v2(catalog.data, &mut catalog.cache, self.data_offset)
    }

    /// The location's resource type.
    pub fn type_(&self, catalog: &mut BinaryCatalogReader) -> (r: Result<AssemblyClass, CatalogError>)
        requires
            old(catalog).wf(),
        ensures
            final(catalog).wf(),
            final(catalog).data_view() == old(catalog).data_view(),
            r matches Ok(t) ==> spec_assembly_class(final(catalog).data_view(), self.type_offset) == Some(t@),
            r is Err ==> spec_assembly_class(final(catalog).data_view(), self.type_offset) is None,
    {
        AssemblyClass::from_reader(catalog.data, &mut catalog.cache, self.type_offset)
    }
}

/// Reads the provider-data records listed by the offset array at `off`.
fn read_providers(d: &[u8], cache: &mut StringCache, off: u32) -> (r: Result<Vec<ObjectInitializationData>, CatalogError>)
    requires
        old(cache).wf(d@),
    ensures
        final(cache).wf(d@),
        r matches Ok(v) ==> spec_providers(d@, off) == Some(providers_view(v@)),
        r is Err ==> spec_providers(d@, off) is None,
{
    let offsets = read_offset_array(d, off)?;
    let mut v: Vec<ObjectInitializationData> = Vec::new();
    let mut p: usize = 0;
    while p < offsets.len()
        invariant
            cache.wf(d@),
            spec_offset_array(d@, off) == Some(offsets@),
            p <= offsets@.len(),
            v@.len() == p,
            forall|i: int| 0 <= i < p ==> spec_object_init(d@, #[trigger] offsets@[i]) == Some(v@[i]@),
        decreases offsets@.len() - p,
    {
        let o = ObjectInitializationData::from_reader(d, cache, offsets[p])?;
        v.push(o);
        p = p + 1;
    }
    assert(providers_view(v@) =~= Seq::new(offsets@.len(), |i: int| spec_object_init(d@, offsets@[i]).unwrap()));
    Ok(v)
}

/// Reads the key table at `keys_offset`: each key with its location offsets.
fn read_key_table(d: &[u8], cache: &mut StringCache, keys_offset: u32) -> (r: Result<Vec<(String, Vec<u32>)>, CatalogError>)
    requires
        old(cache).wf(d@),
    ensures
        final(cache).wf(d@),
        r matches Ok(v) ==> spec_key_table(d@, keys_offset) == Some(resources_view(v@)),
        r is Err ==> spec_key_table(d@, keys_offset) is None,
{
    let key_offsets = read_offset_array(d, keys_offset)?;
    if key_offsets.len() % 2 != 0 {
        return Err(CatalogError::MalformedArray);
    }
    let n_keys = key_offsets.len() / 2;
    let mut resources: Vec<(String, Vec<u32>)> = Vec::new();
    let mut k: usize = 0;
    while k < n_keys
        invariant
            cache.wf(d@),
            spec_offset_array(d@, keys_offset) == Some(key_offsets@),
            n_keys == key_offsets@.len() / 2,
            key_offsets@.len() % 2 == 0,
            k <= n_keys,
            resources@.len() == k,
            forall|i: int| 0 <= i < k ==> #[trigger] key_entry_ok(d@, key_offsets@, i),
            forall|i: int| 0 <= i < k ==> spec_key_string(d@, key_offsets@[2 * i]) == Some(#[trigger] resources@[i].0@),
            forall|i: int| 0 <= i < k ==> spec_offset_array(d@, key_offsets@[2 * i + 1]) == Some(#[trigger] resources@[i].1@),
        decreases n_keys - k,
    {
        let key = match decode_v2(d, cache, key_offsets[2 * k]) {
            Ok(Some(Value::String(s))) => s,
            Ok(_) => {
                assert(!key_entry_ok(d@, key_offsets@, k as int));
                return Err(CatalogError::NonStringKey);
            },
            Err(e) => {
                assert(!key_entry_ok(d@, key_offsets@, k as int));
                return Err(e);
            },
        };
        let locs = match read_offset_array(d, key_offsets[2 * k + 1]) {
            Ok(l) => l,
            Err(e) => {
                assert(!key_entry_ok(d@, key_offsets@, k as int));
                return Err(e);
            },
        };
        assert(key_entry_ok(d@, key_offsets@, k as int));
        resources.push((key, locs));
        k = k + 1;
    }
    assert(resources_view(resources@) =~= spec_key_table(d@, keys_offset).unwrap());
    Ok(resources)
}

/// Every closed location set for `t` holds the offsets of `arena`.
#[verifier::opaque]
pub open spec fn within_every_closed(d: Seq<u8>, t: Seq<(Seq<char>, Seq<u32>)>, arena: Seq<(u32, ResourceLocation)>) -> bool {
    forall|s: Set<u32>| #[trigger] closed_location_set(d, t, s) ==> forall|i: int| 0 <= i < arena.len() ==> s.contains(#[trigger] arena[i].0)
}

/// Appending the location at `o` keeps `within_every_closed` when every
/// closed set holds `o`.
proof fn lemma_within_extend(d: Seq<u8>, t: Seq<(Seq<char>, Seq<u32>)>, old_arena: Seq<(u32, ResourceLocation)>, arena: Seq<(u32, ResourceLocation)>, o: u32)
    requires
        within_every_closed(d, t, old_arena),
        forall|s: Set<u32>| #[trigger] closed_location_set(d, t, s) ==> s.contains(o),
        old_arena.len() <= arena.len() <= old_arena.len() + 1,
        forall|i: int| 0 <= i < old_arena.len() ==> arena[i] == old_arena[i],
        arena.len() == old_arena.len() + 1 ==> arena[old_arena.len() as int].0 == o,
    ensures
        within_every_closed(d, t, arena),
{
    reveal(within_every_closed);
    assert forall|s: Set<u32>| #[trigger] closed_location_set(d, t, s) implies forall|i: int| 0 <= i < arena.len() ==> s.contains(#[trigger] arena[i].0) by {
        assert forall|i: int| 0 <= i < arena.len() implies s.contains(#[trigger] arena[i].0) by {
            if i < old_arena.len() {
                assert(arena[i] == old_arena[i]);
            }
        }
    }
}

/// Decodes the location at `o`, which every closed set holds.
#[verifier::rlimit(60)]
fn decode_required(
    d: &[u8],
    cache: &mut StringCache,
    index: &mut HashMap<u32, usize>,
    arena: &mut Vec<(u32, ResourceLocation)>,
    o: u32,
    t: Ghost<Seq<(Seq<char>, Seq<u32>)>>,
) -> (r: Result<(), CatalogError>)
    requires
        old(cache).wf(d@),
        arena_wf(d@, old(index)@, old(arena)@),
        within_every_closed(d@, t@, old(arena)@),
        forall|s: Set<u32>| #[trigger] closed_location_set(d@, t@, s) ==> s.contains(o),
    ensures
        final(cache).wf(d@),
        arena_wf(d@, final(index)@, final(arena)@),
        old(arena)@.len() <= final(arena)@.len(),
        forall|i: int| 0 <= i < old(arena)@.len() ==> final(arena)@[i] == old(arena)@[i],
        forall|o2: u32| old(index)@.contains_key(o2) ==> #[trigger] final(index)@.contains_key(o2),
        r is Ok ==> final(index)@.contains_key(o) && within_every_closed(d@, t@, final(arena)@),
        r is Err ==> forall|s: Set<u32>| !closed_location_set(d@, t@, s),
{
    let ghost old_arena = arena@;
    match get_ot_read_resource(d, cache, index, arena, o) {
        Ok(_) => {
            proof {
                lemma_within_extend(d@, t@, old_arena, arena@, o);
            }
            Ok(())
        },
        Err(e) => {
            proof {
                assert forall|s: Set<u32>| !closed_location_set(d@, t@, s) by {
                    if closed_location_set(d@, t@, s) {
                        lemma_closed_dep(d@, t@, s, o, 0);
                    }
                }
            }
            Err(e)
        },
    }
}

/// Decodes every location that `resources` lists.
fn decode_roots(
    d: &[u8],
    cache: &mut StringCache,
    index: &mut HashMap<u32, usize>,
    arena: &mut Vec<(u32, ResourceLocation)>,
    resources: &Vec<(String, Vec<u32>)>,
) -> (r: Result<(), CatalogError>)
    requires
        old(cache).wf(d@),
        arena_wf(d@, old(index)@, old(arena)@),
        within_every_closed(d@, resources_view(resources@), old(arena)@),
    ensures
        final(cache).wf(d@),
        arena_wf(d@, final(index)@, final(arena)@),
        r is Ok ==> within_every_closed(d@, resources_view(resources@), final(arena)@),
        r is Ok ==> forall|k: int, j: int| 0 <= k < resources@.len() && 0 <= j < resources@[k].1@.len() ==> final(index)@.contains_key(#[trigger] resources@[k].1@[j]),
        r is Err ==> forall|s: Set<u32>| !closed_location_set(d@, resources_view(resources@), s),
{
    let ghost t = resources_view(resources@);
    let mut k: usize = 0;
    while k < resources.len()
        invariant
            cache.wf(d@),
            t == resources_view(resources@),
            k <= resources@.len(),
            arena_wf(d@, index@, arena@),
            within_every_closed(d@, t, arena@),
            forall|i: int, j: int| 0 <= i < k && 0 <= j < resources@[i].1@.len() ==> index@.contains_key(#[trigger] resources@[i].1@[j]),
        decreases resources@.len() - k,
    {
        let mut j: usize = 0;
        while j < resources[k].1.len()
            invariant
                cache.wf(d@),
                t == resources_view(resources@),
                k < resources@.len(),
                j <= resources@[k as int].1@.len(),
                arena_wf(d@, index@, arena@),
                within_every_closed(d@, t, arena@),
                forall|i: int, j2: int| 0 <= i < k && 0 <= j2 < resources@[i].1@.len() ==> index@.contains_key(#[trigger] resources@[i].1@[j2]),
                forall|j2: int| 0 <= j2 < j ==> index@.contains_key(#[trigger] resources@[k as int].1@[j2]),
            decreases resources@[k as int].1@.len() - j,
        {
            let o = resources[k].1[j];
            proof {
                assert(t[k as int].1[j as int] == o);
                assert forall|s: Set<u32>| #[trigger] closed_location_set(d@, t, s) implies s.contains(o) by {
                    lemma_closed_root(d@, t, s, k as int, j as int);
                }
            }
            let ghost old_index = index@;
            decode_required(d, cache, index, arena, o, Ghost(t))?;
            proof {
                assert forall|i: int, j2: int| 0 <= i < k && 0 <= j2 < resources@[i].1@.len() implies index@.contains_key(#[trigger] resources@[i].1@[j2]) by {
                    assert(old_index.contains_key(resources@[i].1@[j2]));
                }
                assert forall|j2: int| 0 <= j2 <= j implies index@.contains_key(#[trigger] resources@[k as int].1@[j2]) by {
                    if j2 < j {
                        assert(old_index.contains_key(resources@[k as int].1@[j2]));
                    }
                }
            }
            j = j + 1;
        }
        k = k + 1;
    }
    Ok(())
}

/// Decodes the dependencies of every location in `arena`, and theirs in turn.
fn decode_dependencies(
    d: &[u8],
    cache: &mut StringCache,
    index: &mut HashMap<u32, usize>,
    arena: &mut Vec<(u32, ResourceLocation)>,
    t: Ghost<Seq<(Seq<char>, Seq<u32>)>>,
) -> (r: Result<(), CatalogError>)
    requires
        old(cache).wf(d@),
        arena_wf(d@, old(index)@, old(arena)@),
        within_every_closed(d@, t@, old(arena)@),
    ensures
        final(cache).wf(d@),
        arena_wf(d@, final(index)@, final(arena)@),
        forall|o: u32| old(index)@.contains_key(o) ==> #[trigger] final(index)@.contains_key(o),
        r is Ok ==> forall|i: int, j: int| 0 <= i < final(arena)@.len() && 0 <= j < final(arena)@[i].1.dependencies@.len() ==> final(index)@.contains_key(#[trigger] final(arena)@[i].1.dependencies@[j]),
        r is Err ==> forall|s: Set<u32>| !closed_location_set(d@, t@, s),
{
    let mut next: usize = 0;
    while next < arena.len()
        invariant
            cache.wf(d@),
            arena_wf(d@, index@, arena@),
            next <= arena@.len(),
            forall|o: u32| old(index)@.contains_key(o) ==> #[trigger] index@.contains_key(o),
            forall|i: int, j2: int| 0 <= i < next && 0 <= j2 < arena@[i].1.dependencies@.len() ==> index@.contains_key(#[trigger] arena@[i].1.dependencies@[j2]),
            within_every_closed(d@, t@, arena@),
        decreases d@.len() - next,
    {
        proof {
            lemma_arena_len(d@, index@, arena@);
        }
        let mut j: usize = 0;
        let ghost entry = arena@[next as int];
        while j < arena[next].1.dependencies.len()
            invariant
                cache.wf(d@),
                arena_wf(d@, index@, arena@),
                next < arena@.len(),
                arena@[next as int] == entry,
                j <= entry.1.dependencies@.len(),
                forall|o: u32| old(index)@.contains_key(o) ==> #[trigger] index@.contains_key(o),
                forall|i: int, j2: int| 0 <= i < next && 0 <= j2 < arena@[i].1.dependencies@.len() ==> index@.contains_key(#[trigger] arena@[i].1.dependencies@[j2]),
                forall|j2: int| 0 <= j2 < j ==> index@.contains_key(#[trigger] entry.1.dependencies@[j2]),
                within_every_closed(d@, t@, arena@),
            decreases entry.1.dependencies@.len() - j,
        {
            let dep = arena[next].1.dependencies[j];
            let ghost old_arena = arena@;
            let ghost old_index = index@;
            proof {
                assert forall|s: Set<u32>| #[trigger] closed_location_set(d@, t@, s) implies s.contains(dep) by {
                    reveal(within_every_closed);
                    reveal(arena_wf);
                    assert(s.contains(old_arena[next as int].0));
                    lemma_closed_dep(d@, t@, s, old_arena[next as int].0, j as int);
                    assert(spec_location(d@, old_arena[next as int].0) == Some(entry.1@));
                }
            }
            decode_required(d, cache, index, arena, dep, t)?;
            proof {
                assert forall|i: int, j2: int| 0 <= i < next && 0 <= j2 < arena@[i].1.dependencies@.len() implies index@.contains_key(#[trigger] arena@[i].1.dependencies@[j2]) by {
                    assert(arena@[i] == old_arena[i]);
                    assert(old_index.contains_key(old_arena[i].1.dependencies@[j2]));
                }
                assert forall|j2: int| 0 <= j2 <= j implies index@.contains_key(#[trigger] entry.1.dependencies@[j2]) by {
                    if j2 < j {
                        assert(old_index.contains_key(entry.1.dependencies@[j2]));
                    }
                }
            }
            j = j + 1;
        }
        next = next + 1;
    }
    Ok(())
}

/// Decodes every location that `resources` lists, and all their dependencies.
fn read_locations(d: &[u8], cache: &mut StringCache, resources: &Vec<(String, Vec<u32>)>) -> (r: Result<LocationArena, CatalogError>)
    requires
        old(cache).wf(d@),
    ensures
        final(cache).wf(d@),
        r matches Ok(a) ==> {
            &&& a.wf()
            &&& closed_location_set(d@, resources_view(resources@), a.offsets())
            &&& forall|o: u32| #[trigger] a.offsets().contains(o) ==> spec_location(d@, o) == Some(a.at(o))
        },
        r is Err ==> forall|s: Set<u32>| !closed_location_set(d@, resources_view(resources@), s),
{
    let ghost t = resources_view(resources@);
    let mut index: HashMap<u32, usize> = HashMap::new();
    let mut arena: Vec<(u32, ResourceLocation)> = Vec::new();
    proof {
        reveal(within_every_closed);
        reveal(arena_wf);
        assert(index@.dom() =~= Set::empty());
    }
    decode_roots(d, cache, &mut index, &mut arena, resources)?;
    decode_dependencies(d, cache, &mut index, &mut arena, Ghost(t))?;
    let a = LocationArena { entries: arena, index };
    proof {
        reveal(arena_wf);
        reveal(closed_location_set);
        reveal(location_closed_at);
        assert forall|o: u32| #[trigger] a.offsets().contains(o) implies location_closed_at(d@, a.offsets(), o) by {
            let i = a.index@[o] as int;
            assert(spec_location(d@, a.entries@[i].0) == Some(a.entries@[i].1@));
            let l = a.entries@[i].1;
            assert forall|j2: int| 0 <= j2 < l.dependencies@.len() implies a.offsets().contains(#[trigger] l.dependencies@[j2]) by {
                assert(a.index@.contains_key(a.entries@[i].1.dependencies@[j2]));
            }
        }
        assert forall|k: int, j: int| 0 <= k < t.len() && 0 <= j < t[k].1.len() implies a.offsets().contains(#[trigger] t[k].1[j]) by {
            assert(t[k].1[j] == resources@[k].1@[j]);
        }
    }
    Ok(a)
}

/// A field whose encoded offset is the sentinel decodes to its type's
/// absent or default value, whatever the data holds: an empty string, an
/// empty offset array, no tagged value, and for a tagged value with the
/// sentinel as object offset, 0, false, the empty string, the zero hash, or
/// the zeroed request options.
pub proof fn lemma_sentinel_is_default(d: Seq<u8>, sep: char, t: AssemblyClassView)
    ensures
        spec_encoded_string(d, SENTINEL, sep) == Some(Seq::<char>::empty()),
        spec_plain_string(d, SENTINEL) == Some(Seq::<char>::empty()),
        spec_offset_array(d, SENTINEL) == Some(Seq::<u32>::empty()),
        spec_decode_v2(d, SENTINEL) == Some(None::<ValueView>),
        spec_value_of(d, ValueKind::Int, t, SENTINEL) == Some(Some(ValueView::Int(0))),
        spec_value_of(d, ValueKind::Long, t, SENTINEL) == Some(Some(ValueView::Long(0))),
        spec_value_of(d, ValueKind::Bool, t, SENTINEL) == Some(Some(ValueView::Bool(false))),
        spec_value_of(d, ValueKind::Str, t, SENTINEL) == Some(Some(ValueView::Str(Seq::empty()))),
        spec_value_of(d, ValueKind::Hash128, t, SENTINEL) == Some(Some(ValueView::Hash128(Hash128(0, 0, 0, 0)))),
        spec_value_of(d, ValueKind::Abro, t, SENTINEL) == Some(Some(ValueView::Abro(t, default_abro()))),
{
}

} // verus!
