//! The merged record directory over loaded archive files, and the lazy
//! per-record byte cache.
//!
//! Containers bundle many named records behind a directory table; any other
//! input file is one implicit record spanning the whole file. Records from
//! every loaded file stand in one ordered directory; lookups by name scan it
//! in storage order, so the first-loaded file wins when names collide.

use vstd::prelude::*;

use crate::codec::le32_signed;
use crate::codec::read_i32_le;
use vstd::slice::slice_subrange;
use vstd::slice::slice_to_vec;

verus! {

/// One opened input file's bytes, together with a count of the range reads
/// that the cache has made on it (saturating at the counter's maximum).
pub struct Source {
    pub data: Vec<u8>,
    pub reads: u64,
}

/// One record of the merged directory: its display name, the index of the
/// source file it lives in, and the byte range it occupies there.
pub struct LumpInfo {
    pub name: Vec<u8>,
    pub source: usize,
    pub position: usize,
    pub size: usize,
}

/// The mathematical view of one record descriptor.
pub ghost struct LumpModel {
    pub name: Seq<u8>,
    pub source: int,
    pub position: int,
    pub size: int,
}

/// The mathematical view of the whole subsystem: source contents, per-source
/// read counts, the record directory, and the parallel byte cache.
pub ghost struct WadModel {
    pub sources: Seq<Seq<u8>>,
    pub reads: Seq<u64>,
    pub lumps: Seq<LumpModel>,
    pub cache: Seq<Option<Seq<u8>>>,
}

impl View for LumpInfo {
    type V = LumpModel;

    open spec fn view(&self) -> LumpModel {
        LumpModel {
            name: self.name@,
            source: self.source as int,
            position: self.position as int,
            size: self.size as int,
        }
    }
}

impl WadModel {
    /// The bytes of record `i`: the byte range its descriptor names within
    /// its source.
    pub open spec fn lump_bytes(self, i: int) -> Seq<u8> {
        self.sources[self.lumps[i].source].subrange(
            self.lumps[i].position,
            self.lumps[i].position + self.lumps[i].size,
        )
    }

    /// Every descriptor names a valid byte range of an existing source, the
    /// cache parallels the directory, and every filled cache slot holds
    /// exactly its record's bytes.
    pub open spec fn wf(self) -> bool {
        &&& self.reads.len() == self.sources.len()
        &&& self.cache.len() == self.lumps.len()
        &&& forall|i: int|
            0 <= i < self.lumps.len() ==> {
                let l = #[trigger] self.lumps[i];
                &&& 0 <= l.source < self.sources.len()
                &&& l.position >= 0
                &&& l.size >= 0
                &&& l.position + l.size <= self.sources[l.source].len()
                &&& l.name.len() <= 8
            }
        &&& forall|i: int|
            0 <= i < self.cache.len() ==> ((#[trigger] self.cache[i]) is Some ==> self.cache[i]
                .unwrap() == self.lump_bytes(i))
    }
}

/// The record directory and byte cache over every loaded input file.
pub struct State {
    pub sources: Vec<Source>,
    pub lump_info: Vec<LumpInfo>,
    pub lump_cache: Vec<Option<Vec<u8>>>,
    pub num_lumps: usize,
}

impl View for State {
    type V = WadModel;

    open spec fn view(&self) -> WadModel {
        WadModel {
            sources: self.sources@.map_values(|s: Source| s.data@),
            reads: self.sources@.map_values(|s: Source| s.reads),
            lumps: self.lump_info@.map_values(|l: LumpInfo| l@),
            cache: self.lump_cache@.map_values(
                |o: Option<Vec<u8>>|
                    match o {
                        Option::Some(v) => Some(v@),
                        Option::None => None,
                    },
            ),
        }
    }
}

impl State {
    /// The record count mirrors the directory, and the model is well formed.
    pub open spec fn wf(self) -> bool {
        &&& self@.wf()
        &&& self.num_lumps == self.lump_info@.len()
    }

    /// An empty directory: no sources, no records, no cache slots.
    pub fn new() -> (s: State)
        ensures
            s.wf(),
            s@.sources.len() == 0,
            s@.lumps.len() == 0,
            s@.cache.len() == 0,
            s.num_lumps == 0,
    {
        let s = State { sources: Vec::new(), lump_info: Vec::new(), lump_cache: Vec::new(), num_lumps: 0 };
        proof {
            assert(s@.sources =~= Seq::<Seq<u8>>::empty());
            assert(s@.reads =~= Seq::<u64>::empty());
            assert(s@.lumps =~= Seq::<LumpModel>::empty());
            assert(s@.cache =~= Seq::<Option<Seq<u8>>>::empty());
        }
        s
    }
}

/// A lower-case ASCII letter folded to upper case; any other byte unchanged.
pub open spec fn ascii_upper(b: u8) -> u8 {
    if 97 <= b && b <= 122 {
        (b - 32) as u8
    } else {
        b
    }
}

/// Two names are the same record name: equal length and equal bytes up to
/// ASCII case.
pub open spec fn names_equal(a: Seq<u8>, b: Seq<u8>) -> bool {
    &&& a.len() == b.len()
    &&& forall|i: int| 0 <= i < a.len() ==> (#[trigger] ascii_upper(a[i])) == ascii_upper(b[i])
}

fn byte_upper(b: u8) -> (r: u8)
    ensures
        r == ascii_upper(b),
{
    if 97 <= b && b <= 122 {
        b - 32
    } else {
        b
    }
}

/// Case-insensitive comparison of two record names.
pub fn names_match(a: &[u8], b: &[u8]) -> (r: bool)
    ensures
        r == names_equal(a@, b@),
{
    if a.len() != b.len() {
        return false;
    }
    for i in 0..a.len()
        invariant
            a@.len() == b@.len(),
            forall|j: int| 0 <= j < i ==> (#[trigger] ascii_upper(a@[j])) == ascii_upper(b@[j]),
    {
        if byte_upper(a[i]) != byte_upper(b[i]) {
            return false;
        }
    }
    true
}

/// Find a record by name: a case-insensitive linear scan in storage order,
/// returning the index of the first match. Earlier-loaded files therefore
/// take precedence over later-loaded ones when names collide.
pub fn check_num_for_name(state: &State, name: &[u8]) -> (r: Option<usize>)
    ensures
        match r {
            Some(i) => i < state@.lumps.len() && names_equal(state@.lumps[i as int].name, name@)
                && forall|j: int| 0 <= j < i ==> !names_equal(state@.lumps[j].name, name@),
            None => forall|j: int|
                0 <= j < state@.lumps.len() ==> !names_equal(state@.lumps[j].name, name@),
        },
{
    let n = state.lump_info.len();
    for i in 0..n
        invariant
            n == state@.lumps.len(),
            forall|j: int| 0 <= j < i ==> !names_equal(state@.lumps[j].name, name@),
    {
        if names_match(state.lump_info[i].name.as_slice(), name) {
            return Some(i);
        }
    }
    None
}

/// Look a record descriptor up by its directory index. An index outside the
/// directory is a caller error, ruled out up front.
pub fn by_index(state: &State, num: usize) -> (r: &LumpInfo)
    requires
        num < state@.lumps.len(),
    ensures
        r@ == state@.lumps[num as int],
{
    vstd::std_specs::vec::vec_index(&state.lump_info, num)
}

/// A read counter after one more read; it saturates rather than wraps.
pub open spec fn bump(r: u64) -> u64 {
    if r < u64::MAX {
        (r + 1) as u64
    } else {
        r
    }
}

/// The state after record `i` is fetched: if its cache slot is filled the
/// state is unchanged; otherwise the slot is filled with the record's bytes
/// and its source's read count goes up by one.
pub open spec fn read_model(m: WadModel, i: int) -> WadModel {
    if m.cache[i] is Some {
        m
    } else {
        let s = m.lumps[i].source;
        WadModel {
            sources: m.sources,
            reads: m.reads.update(s, bump(m.reads[s])),
            lumps: m.lumps,
            cache: m.cache.update(i, Some(m.lump_bytes(i))),
        }
    }
}

/// A record's bytes are read from its source at most once: fetching a record
/// twice returns the same bytes both times, and the second fetch changes
/// nothing — in particular no source's read count moves again.
pub proof fn lemma_cache_read_once(m: WadModel, i: int)
    requires
        m.wf(),
        0 <= i < m.lumps.len(),
    ensures
        read_model(read_model(m, i), i) == read_model(m, i),
        read_model(m, i).lump_bytes(i) == m.lump_bytes(i),
        read_model(m, i).cache[i] == Some(m.lump_bytes(i)),
{
}

/// Fetch record `num`'s bytes, reading them from the record's source on the
/// first fetch and from the cache thereafter.
pub fn cache_lump_num(state: &mut State, num: usize) -> (r: Vec<u8>)
    requires
        old(state).wf(),
        num < old(state).num_lumps,
    ensures
        final(state).wf(),
        final(state)@ == read_model(old(state)@, num as int),
        final(state).num_lumps == old(state).num_lumps,
        r@ == old(state)@.lump_bytes(num as int),
{
    let cached = match &state.lump_cache[num] {
        Option::Some(v) => Some(slice_to_vec(v.as_slice())),
        Option::None => None,
    };
    match cached {
        Some(v) => v,
        None => {
            let src = state.lump_info[num].source;
            let pos = state.lump_info[num].position;
            let size = state.lump_info[num].size;
            proof {
                let l = old(state)@.lumps[num as int];
                assert(l == state.lump_info@[num as int]@);
                assert(0 <= l.source < old(state)@.sources.len());
                assert(l.position + l.size <= old(state)@.sources[l.source].len());
                assert(l.source == src as int && l.position == pos as int && l.size == size
                    as int);
                assert(old(state)@.sources[l.source] == state.sources@[src as int].data@);
                assert(state.sources@[src as int].data@.len() == state.sources@[src
                    as int].data.len());
            }
            let buf = slice_to_vec(
                slice_subrange(state.sources[src].data.as_slice(), pos, pos + size),
            );
            let stored = slice_to_vec(buf.as_slice());
            let sref = vstd::std_specs::vec::vec_index_mut(&mut state.sources, src);
            if sref.reads < u64::MAX {
                sref.reads = sref.reads + 1;
            }
            state.lump_cache.set(num, Some(stored));
            proof {
                assert(final(state)@.sources =~= read_model(old(state)@, num as int).sources);
                assert(final(state)@.reads =~= read_model(old(state)@, num as int).reads);
                assert(final(state)@.lumps =~= read_model(old(state)@, num as int).lumps);
                assert(final(state)@.cache =~= read_model(old(state)@, num as int).cache);
            }
            buf
        },
    }
}

/// Fetch a record's bytes by name: look the name up in storage order and
/// fetch the first match through the cache. `None` means the name is absent,
/// a missing-resource condition for callers that require it.
pub fn cache_lump_name(state: &mut State, name: &[u8]) -> (r: Option<Vec<u8>>)
    requires
        old(state).wf(),
    ensures
        final(state).wf(),
        final(state).num_lumps == old(state).num_lumps,
        match r {
            None => (forall|j: int|
                0 <= j < old(state)@.lumps.len() ==> !names_equal(
                    old(state)@.lumps[j].name,
                    name@,
                )) && *final(state) == *old(state),
            Some(bytes) => exists|i: int|
                {
                    &&& 0 <= i < old(state)@.lumps.len()
                    &&& #[trigger] names_equal(old(state)@.lumps[i].name, name@)
                    &&& forall|j: int|
                        0 <= j < i ==> !names_equal(old(state)@.lumps[j].name, name@)
                    &&& bytes@ == old(state)@.lump_bytes(i)
                    &&& final(state)@ == read_model(old(state)@, i)
                },
        },
{
    match check_num_for_name(state, name) {
        Some(num) => Some(cache_lump_num(state, num)),
        None => None,
    }
}

/// Why loading failed.
#[derive(Clone, Copy, Debug, PartialEq, Eq, Structural)]
pub enum LoadError {
    /// A container's 4-byte type tag is neither of the two recognized tags.
    UnknownTag,
    /// A container is shorter than its header or its directory table needs.
    Truncated,
    /// A directory field is negative, or an entry's byte range runs past the
    /// end of its file.
    BadDirectory,
    /// No records at all exist after every input was processed.
    Empty,
}

/// The index of the first NUL byte of `s`, or `s.len()` when there is none.
pub open spec fn first_nul(s: Seq<u8>) -> int
    decreases s.len(),
{
    if s.len() == 0 {
        0
    } else if s[0] == 0 {
        0
    } else {
        1 + first_nul(s.drop_first())
    }
}

proof fn lemma_first_nul_bound(s: Seq<u8>)
    ensures
        0 <= first_nul(s) <= s.len(),
    decreases s.len(),
{
    if s.len() > 0 && s[0] != 0 {
        lemma_first_nul_bound(s.drop_first());
    }
}

proof fn lemma_first_nul_at(s: Seq<u8>, i: int)
    requires
        0 <= i <= s.len(),
        forall|j: int| 0 <= j < i ==> s[j] != 0,
        i < s.len() ==> s[i] == 0,
    ensures
        first_nul(s) == i,
    decreases i,
{
    if i == 0 {
    } else {
        lemma_first_nul_at(s.drop_first(), i - 1);
    }
}

/// A record's display name derived from a raw name field: at most the first
/// eight bytes, cut at the first NUL.
pub open spec fn lump_name_of(raw: Seq<u8>) -> Seq<u8> {
    let capped = if raw.len() <= 8 {
        raw
    } else {
        raw.take(8)
    };
    capped.take(first_nul(capped))
}

/// Derive a record's display name from a raw name field.
fn trim_name(raw: &[u8]) -> (r: Vec<u8>)
    ensures
        r@ == lump_name_of(raw@),
        r@.len() <= 8,
{
    let limit: usize = if raw.len() <= 8 {
        raw.len()
    } else {
        8
    };
    let ghost capped = if raw@.len() <= 8 {
        raw@
    } else {
        raw@.take(8)
    };
    let mut out: Vec<u8> = Vec::new();
    let mut i: usize = 0;
    while i < limit && *vstd::slice::slice_index_get(raw, i) != 0
        invariant
            i <= limit,
            limit <= raw@.len(),
            out@ == raw@.subrange(0, i as int),
            forall|j: int| 0 <= j < i ==> raw@[j] != 0,
        decreases limit - i,
    {
        out.push(*vstd::slice::slice_index_get(raw, i));
        i += 1;
    }
    proof {
        assert(capped.len() == limit);
        assert(forall|j: int| 0 <= j < i ==> capped[j] == raw@[j]);
        lemma_first_nul_at(capped, i as int);
        assert(out@ =~= capped.take(first_nul(capped)));
    }
    out
}

/// The container's 4-byte type tag is one of the two recognized tags,
/// `IWAD` or `PWAD`.
pub open spec fn tag_ok(b: Seq<u8>) -> bool {
    &&& b.len() >= 4
    &&& (b[0] == 73 || b[0] == 80)
    &&& b[1] == 87
    &&& b[2] == 65
    &&& b[3] == 68
}

/// The container's signed record count.
pub open spec fn container_count(b: Seq<u8>) -> int {
    le32_signed(b[4], b[5], b[6], b[7])
}

/// The container's signed directory-table byte offset.
pub open spec fn container_table(b: Seq<u8>) -> int {
    le32_signed(b[8], b[9], b[10], b[11])
}

/// The byte position field of directory entry `j`.
pub open spec fn entry_pos(b: Seq<u8>, j: int) -> int {
    let e = container_table(b) + 16 * j;
    le32_signed(b[e], b[e + 1], b[e + 2], b[e + 3])
}

/// The byte size field of directory entry `j`.
pub open spec fn entry_size(b: Seq<u8>, j: int) -> int {
    let e = container_table(b) + 16 * j;
    le32_signed(b[e + 4], b[e + 5], b[e + 6], b[e + 7])
}

/// The display name of directory entry `j`, derived from its 8-byte fixed
/// name field.
pub open spec fn entry_name(b: Seq<u8>, j: int) -> Seq<u8> {
    let e = container_table(b) + 16 * j;
    lump_name_of(b.subrange(e + 8, e + 16))
}

/// Every directory entry names a byte range that lies inside the container.
pub open spec fn entries_ok(b: Seq<u8>) -> bool {
    forall|j: int|
        0 <= j < container_count(b) ==> {
            &&& #[trigger] entry_pos(b, j) >= 0
            &&& entry_size(b, j) >= 0
            &&& entry_pos(b, j) + entry_size(b, j) <= b.len()
        }
}

/// A container parses in full: recognized tag, complete header, a directory
/// table inside the file, and every entry's range inside the file.
pub open spec fn container_ok(b: Seq<u8>) -> bool {
    &&& b.len() >= 12
    &&& tag_ok(b)
    &&& container_count(b) >= 0
    &&& container_table(b) >= 0
    &&& container_table(b) + 16 * container_count(b) <= b.len()
    &&& entries_ok(b)
}

/// The error a malformed container is rejected with.
pub open spec fn container_error(b: Seq<u8>) -> LoadError {
    if b.len() < 4 {
        LoadError::Truncated
    } else if !tag_ok(b) {
        LoadError::UnknownTag
    } else if b.len() < 12 {
        LoadError::Truncated
    } else if container_count(b) < 0 || container_table(b) < 0 {
        LoadError::BadDirectory
    } else if container_table(b) + 16 * container_count(b) > b.len() {
        LoadError::Truncated
    } else {
        LoadError::BadDirectory
    }
}

/// A container whose first four bytes are not one of the two recognized
/// tags is rejected with the tag error, whatever its remaining bytes hold.
pub proof fn lemma_bad_tag_fatal(b: Seq<u8>)
    requires
        b.len() >= 4,
        !tag_ok(b),
    ensures
        !container_ok(b),
        container_error(b) == LoadError::UnknownTag,
{
}

/// The records a container contributes, in directory-table order, all drawn
/// from source index `src`.
pub open spec fn container_lumps(b: Seq<u8>, src: int) -> Seq<LumpModel> {
    Seq::new(
        container_count(b) as nat,
        |j: int|
            LumpModel {
                name: entry_name(b, j),
                source: src,
                position: entry_pos(b, j),
                size: entry_size(b, j),
            },
    )
}

/// The state after a container's bytes are adopted as a new source and its
/// records are appended to the directory, with empty cache slots alongside.
pub open spec fn container_model(m: WadModel, b: Seq<u8>) -> WadModel {
    WadModel {
        sources: m.sources.push(b),
        reads: m.reads.push(0),
        lumps: m.lumps + container_lumps(b, m.sources.len() as int),
        cache: m.cache + Seq::new(container_count(b) as nat, |j: int| None),
    }
}

/// Load one container file: check its tag and header, read its directory
/// table, and append one record per entry, in table order. A malformed
/// container is rejected whole and the state is left unchanged.
#[verifier::loop_isolation(false)]
pub fn add_container(state: &mut State, bytes: Vec<u8>) -> (r: Result<(), LoadError>)
    requires
        old(state).wf(),
    ensures
        final(state).wf(),
        r is Ok <==> container_ok(bytes@),
        container_ok(bytes@) ==> final(state)@ == container_model(old(state)@, bytes@)
            && final(state).num_lumps == old(state).num_lumps + container_count(bytes@),
        !container_ok(bytes@) ==> r == Err::<(), LoadError>(container_error(bytes@))
            && *final(state) == *old(state),
{
    let blen = bytes.len();
    if blen < 4 {
        return Err(LoadError::Truncated);
    }
    {
        let s = bytes.as_slice();
        let b0 = *vstd::slice::slice_index_get(s, 0);
        let b1 = *vstd::slice::slice_index_get(s, 1);
        let b2 = *vstd::slice::slice_index_get(s, 2);
        let b3 = *vstd::slice::slice_index_get(s, 3);
        if !((b0 == 73 || b0 == 80) && b1 == 87 && b2 == 65 && b3 == 68) {
            return Err(LoadError::UnknownTag);
        }
    }
    if blen < 12 {
        return Err(LoadError::Truncated);
    }
    let count_i = read_i32_le(slice_subrange(bytes.as_slice(), 4, 8));
    let table_i = read_i32_le(slice_subrange(bytes.as_slice(), 8, 12));
    if count_i < 0 || table_i < 0 {
        return Err(LoadError::BadDirectory);
    }
    let count: usize = count_i as usize;
    let table: usize = table_i as usize;
    if (table as u64) + 16 * (count as u64) > blen as u64 {
        return Err(LoadError::Truncated);
    }
    let src_idx = state.sources.len();
    let mut new_info: Vec<LumpInfo> = Vec::new();
    for j in 0..count
        invariant
            new_info@.len() == j,
            forall|k: int|
                0 <= k < j ==> (#[trigger] new_info@[k])@ == container_lumps(
                    bytes@,
                    src_idx as int,
                )[k],
            forall|k: int|
                0 <= k < j ==> #[trigger] entry_pos(bytes@, k) >= 0 && entry_size(bytes@, k) >= 0
                    && entry_pos(bytes@, k) + entry_size(bytes@, k) <= bytes@.len(),
    {
        let base = table + 16 * j;
        let pos_i = read_i32_le(slice_subrange(bytes.as_slice(), base, base + 4));
        let size_i = read_i32_le(slice_subrange(bytes.as_slice(), base + 4, base + 8));
        let name = trim_name(slice_subrange(bytes.as_slice(), base + 8, base + 16));
        proof {
            assert(entry_pos(bytes@, j as int) == pos_i as int);
            assert(entry_size(bytes@, j as int) == size_i as int);
            assert(entry_name(bytes@, j as int) == name@);
        }
        if pos_i < 0 || size_i < 0 {
            return Err(LoadError::BadDirectory);
        }
        if (pos_i as u64) + (size_i as u64) > blen as u64 {
            return Err(LoadError::BadDirectory);
        }
        new_info.push(
            LumpInfo {
                name,
                source: src_idx,
                position: pos_i as usize,
                size: size_i as usize,
            },
        );
    }
    let ghost old_model = state@;
    let ghost new_info_snap = new_info@;
    state.sources.push(Source { data: bytes, reads: 0 });
    state.lump_info.append(&mut new_info);
    let ghost info_after = state.lump_info@;
    let ghost sources_after = state.sources@;
    for k in 0..count
        invariant
            state.lump_cache@.len() == old_model.cache.len() + k,
            forall|t: int|
                0 <= t < old_model.cache.len() ==> state.lump_cache@[t]
                    == old(state).lump_cache@[t],
            forall|t: int|
                old_model.cache.len() <= t < state.lump_cache@.len()
                    ==> (#[trigger] state.lump_cache@[t]) is None,
            state.sources@ == sources_after,
            state.lump_info@ == info_after,
            state.num_lumps == old(state).num_lumps,
    {
        state.lump_cache.push(None);
    }
    state.num_lumps = state.lump_info.len();
    proof {
        assert(final(state)@.sources =~= container_model(old_model, bytes@).sources);
        assert(final(state)@.reads =~= container_model(old_model, bytes@).reads);
        assert(final(state)@.lumps =~= container_model(old_model, bytes@).lumps);
        assert(final(state)@.cache =~= container_model(old_model, bytes@).cache);
        assert(final(state).wf()) by {
            let m = final(state)@;
            assert forall|i: int| 0 <= i < m.lumps.len() implies {
                let l = #[trigger] m.lumps[i];
                &&& 0 <= l.source < m.sources.len()
                &&& l.position >= 0
                &&& l.size >= 0
                &&& l.position + l.size <= m.sources[l.source].len()
                &&& l.name.len() <= 8
            } by {
                if i < old_model.lumps.len() {
                    assert(old_model.lumps[i] == m.lumps[i]);
                    assert(old_model.wf());
                } else {
                    let j = i - old_model.lumps.len();
                    assert(m.lumps[i] == container_lumps(bytes@, src_idx as int)[j]);
                    let e = container_table(bytes@) + 16 * j;
                    let raw = bytes@.subrange(e + 8, e + 16);
                    lemma_first_nul_bound(raw);
                    assert(m.lumps[i].name == raw.take(first_nul(raw)));
                }
            }
            assert forall|i: int| 0 <= i < m.cache.len() implies ((#[trigger] m.cache[i]) is Some
                ==> m.cache[i].unwrap() == m.lump_bytes(i)) by {
                if i < old_model.cache.len() {
                    assert(m.cache[i] == old_model.cache[i]);
                    if m.cache[i] is Some {
                        assert(old_model.lumps[i] == m.lumps[i]);
                        assert(m.lump_bytes(i) == old_model.lump_bytes(i));
                    }
                }
            }
        }
    }
    Ok(())
}

/// The state after a loose file is adopted: its bytes become a new source
/// holding one record that spans the whole file.
pub open spec fn loose_model(m: WadModel, name: Seq<u8>, b: Seq<u8>) -> WadModel {
    WadModel {
        sources: m.sources.push(b),
        reads: m.reads.push(0),
        lumps: m.lumps.push(
            LumpModel {
                name: lump_name_of(name),
                source: m.sources.len() as int,
                position: 0,
                size: b.len() as int,
            },
        ),
        cache: m.cache.push(None),
    }
}

/// Load one loose file: the whole file becomes a single record named after
/// `name` (at most eight bytes, cut at the first NUL).
pub fn add_loose(state: &mut State, name: &[u8], bytes: Vec<u8>)
    requires
        old(state).wf(),
    ensures
        final(state).wf(),
        final(state)@ == loose_model(old(state)@, name@, bytes@),
        final(state).num_lumps == old(state).num_lumps + 1,
{
    let lname = trim_name(name);
    let src_idx = state.sources.len();
    let size = bytes.len();
    state.lump_info.push(LumpInfo { name: lname, source: src_idx, position: 0, size });
    state.sources.push(Source { data: bytes, reads: 0 });
    state.lump_cache.push(None);
    state.num_lumps = state.lump_info.len();
    proof {
        let ghost old_model = old(state)@;
        assert(final(state)@.sources =~= loose_model(old_model, name@, bytes@).sources);
        assert(final(state)@.reads =~= loose_model(old_model, name@, bytes@).reads);
        assert(final(state)@.lumps =~= loose_model(old_model, name@, bytes@).lumps);
        assert(final(state)@.cache =~= loose_model(old_model, name@, bytes@).cache);
        assert(final(state).wf()) by {
            let m = final(state)@;
            assert forall|i: int| 0 <= i < m.lumps.len() implies {
                let l = #[trigger] m.lumps[i];
                &&& 0 <= l.source < m.sources.len()
                &&& l.position >= 0
                &&& l.size >= 0
                &&& l.position + l.size <= m.sources[l.source].len()
                &&& l.name.len() <= 8
            } by {
                if i < old_model.lumps.len() {
                    assert(old_model.lumps[i] == m.lumps[i]);
                    assert(old_model.wf());
                }
            }
            assert forall|i: int| 0 <= i < m.cache.len() implies ((#[trigger] m.cache[i]) is Some
                ==> m.cache[i].unwrap() == m.lump_bytes(i)) by {
                if i < old_model.cache.len() {
                    assert(m.cache[i] == old_model.cache[i]);
                    if m.cache[i] is Some {
                        assert(old_model.lumps[i] == m.lumps[i]);
                        assert(m.lump_bytes(i) == old_model.lump_bytes(i));
                    }
                }
            }
        }
    }
}

/// One input handed to the loader: the file's name (without directories)
/// and its bytes, or `None` when opening the file failed.
pub struct InputFile {
    pub name: Vec<u8>,
    pub bytes: Option<Vec<u8>>,
}

/// The mathematical view of one loader input.
pub ghost struct InputModel {
    pub name: Seq<u8>,
    pub bytes: Option<Seq<u8>>,
}

impl View for InputFile {
    type V = InputModel;

    open spec fn view(&self) -> InputModel {
        InputModel {
            name: self.name@,
            bytes: match self.bytes {
                Option::Some(ref v) => Some(v@),
                Option::None => None,
            },
        }
    }
}

/// The views of a list of loader inputs.
pub open spec fn input_views(files: Seq<InputFile>) -> Seq<InputModel> {
    files.map_values(|f: InputFile| f@)
}

/// The index of the last `.` of a file name that can begin an extension
/// (never the leading byte), or -1 when there is none.
pub open spec fn last_dot(name: Seq<u8>) -> int
    decreases name.len(),
{
    if name.len() <= 1 {
        -1
    } else if name[name.len() - 1] == 46 {
        name.len() - 1
    } else {
        last_dot(name.drop_last())
    }
}

/// A file name's stem: everything before the last `.`, or the whole name
/// when there is no extension.
pub open spec fn stem_of(name: Seq<u8>) -> Seq<u8> {
    if last_dot(name) >= 1 {
        name.take(last_dot(name))
    } else {
        name
    }
}

/// A file name's extension: everything after the last `.`, or empty when
/// there is none.
pub open spec fn extension_of(name: Seq<u8>) -> Seq<u8> {
    if last_dot(name) >= 1 {
        name.subrange(last_dot(name) + 1, name.len() as int)
    } else {
        Seq::empty()
    }
}

/// A file is a container when its extension is `wad`, compared without
/// regard to ASCII case.
pub open spec fn is_wad_name(name: Seq<u8>) -> bool {
    names_equal(extension_of(name), seq![119u8, 97u8, 100u8])
}

/// Find the last `.` of a file name that can begin an extension.
fn find_last_dot(name: &[u8]) -> (r: Option<usize>)
    ensures
        match r {
            Some(d) => last_dot(name@) == d && 1 <= d < name@.len(),
            None => last_dot(name@) == -1,
        },
{
    let mut k = name.len();
    proof {
        assert(name@.take(k as int) =~= name@);
    }
    while k > 1
        invariant
            k <= name@.len(),
            last_dot(name@) == last_dot(name@.take(k as int)),
        decreases k,
    {
        if *vstd::slice::slice_index_get(name, k - 1) == 46 {
            proof {
                assert(name@.take(k as int)[k - 1] == 46);
            }
            return Some(k - 1);
        }
        proof {
            assert(name@.take(k as int).drop_last() =~= name@.take(k - 1));
        }
        k = k - 1;
    }
    None
}

/// Classify a file name: is it a container file, judged by its extension,
/// without regard to ASCII case?
pub fn is_wad_file(name: &[u8]) -> (r: bool)
    ensures
        r == is_wad_name(name@),
{
    let mut ext_tag: Vec<u8> = Vec::new();
    ext_tag.push(119);
    ext_tag.push(97);
    ext_tag.push(100);
    proof {
        assert(ext_tag@ =~= seq![119u8, 97u8, 100u8]);
    }
    match find_last_dot(name) {
        Some(d) => {
            let n = name.len();
            let ext = slice_subrange(name, d + 1, n);
            proof {
                assert(ext@ =~= extension_of(name@));
            }
            names_match(ext, ext_tag.as_slice())
        },
        None => {
            proof {
                assert(!names_equal(extension_of(name@), ext_tag@));
            }
            false
        },
    }
}

/// What the loader does to the state for one input file, and the error it
/// stops with, if any.
pub open spec fn step_model(m: WadModel, f: InputModel) -> (WadModel, Option<LoadError>) {
    match f.bytes {
        None => (m, None),
        Some(b) => if is_wad_name(f.name) {
            if container_ok(b) {
                (container_model(m, b), None)
            } else {
                (m, Some(container_error(b)))
            }
        } else {
            (loose_model(m, stem_of(f.name), b), None)
        },
    }
}

/// The state after the loader has processed `files` in order, stopping at
/// the first malformed container, together with that error, if any.
pub open spec fn load_outcome(m: WadModel, files: Seq<InputModel>) -> (WadModel, Option<
    LoadError,
>)
    decreases files.len(),
{
    if files.len() == 0 {
        (m, None)
    } else {
        let s = step_model(m, files[0]);
        if s.1 is Some {
            s
        } else {
            load_outcome(s.0, files.drop_first())
        }
    }
}

proof fn lemma_load_outcome_push(m: WadModel, files: Seq<InputModel>, f: InputModel)
    requires
        load_outcome(m, files).1 is None,
    ensures
        load_outcome(m, files.push(f)) == step_model(load_outcome(m, files).0, f),
    decreases files.len(),
{
    if files.len() == 0 {
        assert(files.push(f)[0] == f);
        assert(files.push(f).drop_first() =~= Seq::<InputModel>::empty());
        let s = step_model(m, f);
        assert(load_outcome(s.0, Seq::<InputModel>::empty()) == (s.0, None::<LoadError>));
    } else {
        assert(files.push(f)[0] == files[0]);
        assert(files.push(f).drop_first() =~= files.drop_first().push(f));
        let s0 = step_model(m, files[0]);
        assert(s0.1 is None);
        lemma_load_outcome_push(s0.0, files.drop_first(), f);
        assert(load_outcome(m, files.push(f)) == load_outcome(
            s0.0,
            files.drop_first().push(f),
        ));
        assert(load_outcome(m, files).0 == load_outcome(s0.0, files.drop_first()).0);
    }
}

proof fn lemma_load_outcome_stops(m: WadModel, files: Seq<InputModel>, i: int)
    requires
        0 <= i < files.len(),
        load_outcome(m, files.take(i)).1 is None,
        step_model(load_outcome(m, files.take(i)).0, files[i]).1 is Some,
    ensures
        load_outcome(m, files) == step_model(load_outcome(m, files.take(i)).0, files[i]),
    decreases i,
{
    if i == 0 {
        assert(files.take(0) =~= Seq::<InputModel>::empty());
    } else {
        assert(files.take(i)[0] == files[0]);
        assert(files.take(i).drop_first() =~= files.drop_first().take(i - 1));
        assert(files.drop_first()[i - 1] == files[i]);
        lemma_load_outcome_stops(step_model(m, files[0]).0, files.drop_first(), i - 1);
    }
}

/// The number of records one input file contributes.
pub open spec fn record_count(f: InputModel) -> int {
    match f.bytes {
        None => 0,
        Some(b) => if is_wad_name(f.name) {
            container_count(b)
        } else {
            1
        },
    }
}

/// The number of records a list of input files contributes in total.
pub open spec fn total_records(files: Seq<InputModel>) -> int
    decreases files.len(),
{
    if files.len() == 0 {
        0
    } else {
        record_count(files[0]) + total_records(files.drop_first())
    }
}

/// A load that succeeds appends each input file's records to the directory
/// in input order, so the directory grows by exactly the sum of the
/// per-file record counts.
pub proof fn lemma_load_total(m: WadModel, files: Seq<InputModel>)
    requires
        load_outcome(m, files).1 is None,
    ensures
        load_outcome(m, files).0.lumps.len() == m.lumps.len() + total_records(files),
    decreases files.len(),
{
    if files.len() > 0 {
        lemma_load_total(step_model(m, files[0]).0, files.drop_first());
    }
}

/// Loading only appends: every record already in the directory keeps its
/// index and its descriptor, however the load ends, so the count never
/// decreases and an index stays a stable identifier for its record.
pub proof fn lemma_load_keeps_existing(m: WadModel, files: Seq<InputModel>)
    ensures
        load_outcome(m, files).0.lumps.len() >= m.lumps.len(),
        forall|i: int|
            0 <= i < m.lumps.len() ==> load_outcome(m, files).0.lumps[i] == #[trigger] m.lumps[i],
    decreases files.len(),
{
    if files.len() > 0 {
        let s = step_model(m, files[0]);
        if !(s.1 is Some) {
            lemma_load_keeps_existing(s.0, files.drop_first());
            assert forall|i: int|
                0 <= i < m.lumps.len() implies load_outcome(m, files).0.lumps[i] == #[trigger] m
                .lumps[i] by {
                assert(s.0.lumps[i] == m.lumps[i]);
                assert(load_outcome(s.0, files.drop_first()).0.lumps[i] == s.0.lumps[i]);
            }
        }
    }
}

/// Load every input file in order: a container contributes its directory
/// entries, any other file one record named after its stem, and a file that
/// could not be opened is skipped. A malformed container aborts the whole
/// load with its error; a directory still empty afterwards is itself an
/// error.
#[verifier::loop_isolation(false)]
pub fn init(state: &mut State, files: Vec<InputFile>) -> (r: Result<(), LoadError>)
    requires
        old(state).wf(),
    ensures
        final(state).wf(),
        final(state)@ == load_outcome(old(state)@, input_views(files@)).0,
        match load_outcome(old(state)@, input_views(files@)).1 {
            Some(e) => r == Err::<(), LoadError>(e),
            None => if load_outcome(old(state)@, input_views(files@)).0.lumps.len() == 0 {
                r == Err::<(), LoadError>(LoadError::Empty)
            } else {
                r is Ok
            },
        },
{
    let ghost all = input_views(files@);
    let mut files = files;
    let ghost mut i: int = 0;
    while files.len() > 0
        invariant
            0 <= i <= all.len(),
            input_views(files@) == all.subrange(i, all.len() as int),
            load_outcome(old(state)@, all.take(i)).1 is None,
            state@ == load_outcome(old(state)@, all.take(i)).0,
            state.wf(),
        decreases files@.len(),
    {
        let ghost files_before = files@;
        let f = files.remove(0);
        proof {
            assert(input_views(files_before).len() == files_before.len());
            assert(input_views(files_before)[0] == files_before[0]@);
            assert(all.subrange(i, all.len() as int)[0] == all[i]);
            assert(f@ == all[i]);
            assert(files@ == files_before.remove(0));
            assert forall|j: int| 0 <= j < files@.len() implies input_views(files@)[j] == all[i + 1
                + j] by {
                assert(files@[j] == files_before[j + 1]);
                assert(input_views(files_before)[j + 1] == files_before[j + 1]@);
                assert(all.subrange(i, all.len() as int)[j + 1] == all[i + 1 + j]);
            }
            assert(input_views(files@) =~= all.subrange(i + 1, all.len() as int));
            assert(all.take(i + 1) =~= all.take(i).push(all[i]));
        }
        let InputFile { name, bytes } = f;
        match bytes {
            Option::None => {
                proof {
                    lemma_load_outcome_push(old(state)@, all.take(i), all[i]);
                    i = i + 1;
                }
            },
            Option::Some(b) => {
                if is_wad_file(name.as_slice()) {
                    match add_container(state, b) {
                        Ok(()) => {
                            proof {
                                lemma_load_outcome_push(old(state)@, all.take(i), all[i]);
                                i = i + 1;
                            }
                        },
                        Err(e) => {
                            proof {
                                lemma_load_outcome_stops(old(state)@, all, i);
                            }
                            return Err(e);
                        },
                    }
                } else {
                    let stem = match find_last_dot(name.as_slice()) {
                        Some(d) => slice_subrange(name.as_slice(), 0, d),
                        None => name.as_slice(),
                    };
                    proof {
                        assert(stem@ =~= stem_of(name@));
                    }
                    add_loose(state, stem, b);
                    proof {
                        lemma_load_outcome_push(old(state)@, all.take(i), all[i]);
                        i = i + 1;
                    }
                }
            },
        }
    }
    proof {
        assert(all.take(i) =~= all);
    }
    if state.num_lumps == 0 {
        return Err(LoadError::Empty);
    }
    Ok(())
}

} // verus!
